use vstd::prelude::*;
use crate::oracle::ToleranceOracle;
use crate::point::Point;

verus! {

/// True when the oracle sees a discontinuity between the samples at `n - 1`
/// and `n`: the two points are not tolerance-equal, so a new subpath starts
/// at `n`.
pub open spec fn is_split<O: ToleranceOracle>(ps: Seq<Point>, n: int) -> bool {
    !O::close_spec(ps[n - 1], ps[n])
}

/// The interior split indices at or after `n`, visiting the candidate
/// indices `n, n + 4, n + 8, ...` that lie before the end of the sequence.
/// Only every fourth index is a candidate, because a continuous run consists
/// of whole four-point cubic segments.
pub open spec fn splits_from<O: ToleranceOracle>(ps: Seq<Point>, n: int) -> Seq<int>
    decreases ps.len() - n + 4,
{
    if n < ps.len() {
        if is_split::<O>(ps, n) {
            seq![n] + splits_from::<O>(ps, n + 4)
        } else {
            splits_from::<O>(ps, n + 4)
        }
    } else {
        Seq::empty()
    }
}

/// The ordered boundary list of a point sequence: index 0, the interior
/// split indices in increasing order, and the length.
pub open spec fn bounds_of<O: ToleranceOracle>(ps: Seq<Point>) -> Seq<int> {
    seq![0 as int] + splits_from::<O>(ps, 4) + seq![ps.len() as int]
}

/// The index ranges kept as subpaths, scanned from boundary position `i`:
/// each consecutive boundary pair at least four indices apart becomes a
/// range; a shorter candidate is dropped entirely, never merged.
pub open spec fn ranges_from(bs: Seq<int>, i: int) -> Seq<(int, int)>
    decreases bs.len() - i + 1,
{
    if i + 1 < bs.len() {
        if bs[i + 1] - bs[i] >= 4 {
            seq![(bs[i], bs[i + 1])] + ranges_from(bs, i + 1)
        } else {
            ranges_from(bs, i + 1)
        }
    } else {
        Seq::empty()
    }
}

/// A sequence of indices, as mathematical integers.
pub open spec fn as_ints(s: Seq<usize>) -> Seq<int> {
    s.map_values(|u: usize| u as int)
}

/// The subpath ranges of a point sequence.
pub open spec fn subpath_ranges<O: ToleranceOracle>(ps: Seq<Point>) -> Seq<(int, int)> {
    ranges_from(bounds_of::<O>(ps), 0)
}

/// The subpaths of a point sequence: the kept ranges, each sliced out of the
/// sequence in original order.
pub open spec fn subpaths_of<O: ToleranceOracle>(ps: Seq<Point>) -> Seq<Seq<Point>> {
    subpath_ranges::<O>(ps).map_values(|r: (int, int)| ps.subrange(r.0, r.1))
}

/// Splits a flat point sequence into its subpaths.
///
/// A discontinuity reported by the oracle at a candidate index `n` in
/// `{4, 8, 12, ...}` (comparing the points at `n - 1` and `n`) opens a new
/// candidate range there; a candidate range shorter than four points is
/// dropped. The returned subpaths preserve the original point order.
pub fn gen_subpaths_from_points_2d<O: ToleranceOracle>(points: &Vec<Point>) -> (r: Vec<
    Vec<Point>,
>)
    ensures
        r@.len() == subpaths_of::<O>(points@).len(),
        forall|i: int| 0 <= i < r@.len() ==> r@[i]@ == subpaths_of::<O>(points@)[i],
        forall|i: int| 0 <= i < r@.len() ==> r@[i]@.len() >= 4,
{
    let len = points.len();

    // Collect the interior split indices.
    let mut splits: Vec<usize> = Vec::new();
    let mut n: usize = 4;
    while n < len
        invariant
            len == points@.len(),
            4 <= n,
            n % 4 == 0 || n == len,
            splits_from::<O>(points@, 4) == as_ints(splits@) + splits_from::<O>(
                points@,
                n as int,
            ),
            forall|k: int| 0 <= k < splits@.len()
                ==> 4 <= #[trigger] splits@[k] && (splits@[k] as int) < len && splits@[k] < n,
            forall|k: int| 0 <= k && k + 1 < splits@.len() ==> #[trigger] splits@[k] < splits@[k
                + 1],
        decreases len - n,
    {
        let eq = O::approx_eq(&points[n - 1], &points[n]);
        let ghost prev = splits@;
        if !eq {
            splits.push(n);
            proof {
                assert(is_split::<O>(points@, n as int));
                assert(as_ints(splits@) =~= as_ints(prev).push(n as int));
                assert(splits_from::<O>(points@, n as int) == seq![n as int] + splits_from::<O>(
                    points@,
                    n as int + 4,
                ));
                assert(as_ints(prev) + splits_from::<O>(points@, n as int) =~= as_ints(splits@)
                    + splits_from::<O>(points@, n as int + 4));
                assert forall|k: int| 0 <= k && k + 1 < splits@.len() implies #[trigger] splits@[k]
                    < splits@[k + 1] by {
                    if k + 2 == splits@.len() {
                        assert(splits@[k] == prev[k]);
                    } else {
                        assert(splits@[k] == prev[k]);
                        assert(splits@[k + 1] == prev[k + 1]);
                    }
                }
            }
        } else {
            proof {
                assert(!is_split::<O>(points@, n as int));
                assert(splits_from::<O>(points@, n as int) == splits_from::<O>(
                    points@,
                    n as int + 4,
                ));
            }
        }
        if len - n >= 4 {
            n = n + 4;
        } else {
            proof {
                assert(splits_from::<O>(points@, n as int + 4) == Seq::<int>::empty());
                assert(splits_from::<O>(points@, len as int) == Seq::<int>::empty());
            }
            n = len;
        }
    }
    proof {
        assert(splits_from::<O>(points@, n as int) == Seq::<int>::empty());
        assert(splits_from::<O>(points@, 4) =~= as_ints(splits@));
    }

    // Build the boundary list: 0, the splits, the length.
    let mut bvec: Vec<usize> = Vec::new();
    bvec.push(0);
    let mut si: usize = 0;
    while si < splits.len()
        invariant
            bvec@.len() == si + 1,
            si <= splits@.len(),
            bvec@[0] == 0usize,
            forall|k: int| 0 <= k < si ==> bvec@[k + 1] == splits@[k],
        decreases splits@.len() - si,
    {
        let s = splits[si];
        bvec.push(s);
        si += 1;
    }
    bvec.push(len);

    let ghost gb = bounds_of::<O>(points@);
    proof {
        assert(bvec@.len() == splits@.len() + 2);
        assert(bvec@[0] == 0usize);
        assert(bvec@[bvec@.len() - 1] == len);
        assert(forall|k: int| 0 <= k < splits@.len() ==> bvec@[k + 1] == #[trigger] splits@[k]);
        assert(gb =~= as_ints(bvec@));
        assert(forall|k: int| 0 <= k < bvec@.len() ==> gb[k] == #[trigger] bvec@[k] as int);
        // The boundary list is sorted and bounded by the length.
        assert forall|k: int| 0 <= k && k + 1 < bvec@.len() implies #[trigger] bvec@[k] <= bvec@[k
            + 1] by {
            if k == 0 {
                if splits@.len() > 0 {
                    assert(bvec@[1] == splits@[0]);
                } else {
                    assert(bvec@[1] == len);
                }
            } else if k + 2 == bvec@.len() {
                assert(bvec@[k] == splits@[k - 1]);
                assert(bvec@[k + 1] == len);
            } else {
                assert(bvec@[k] == splits@[k - 1]);
                assert(bvec@[k + 1] == splits@[k]);
            }
        }
        assert forall|k: int| 0 <= k < bvec@.len() implies #[trigger] bvec@[k] <= len by {
            if k == 0 {
            } else if k + 1 == bvec@.len() {
            } else {
                assert(bvec@[k] == splits@[k - 1]);
            }
        }
    }

    // Keep every candidate range of at least four points.
    let mut r: Vec<Vec<Point>> = Vec::new();
    let ghost mut krs: Seq<(int, int)> = Seq::empty();
    let mut i: usize = 0;
    while i + 1 < bvec.len()
        invariant
            len == points@.len(),
            gb == bounds_of::<O>(points@),
            gb == as_ints(bvec@),
            bvec@.len() >= 2,
            i + 1 <= bvec@.len(),
            forall|k: int| 0 <= k && k + 1 < bvec@.len() ==> #[trigger] bvec@[k] <= bvec@[k + 1],
            forall|k: int| 0 <= k < bvec@.len() ==> #[trigger] bvec@[k] <= len,
            ranges_from(gb, 0) == krs + ranges_from(gb, i as int),
            r@.len() == krs.len(),
            forall|j: int| 0 <= j < krs.len()
                ==> 0 <= (#[trigger] krs[j]).0 && krs[j].0 + 4 <= krs[j].1 && krs[j].1
                <= points@.len(),
            forall|j: int| 0 <= j < krs.len() ==> r@[j]@ == points@.subrange(
                (#[trigger] krs[j]).0,
                krs[j].1,
            ),
        decreases bvec@.len() - i,
    {
        let i1 = bvec[i];
        let i2 = bvec[i + 1];
        let ghost prev_krs = krs;
        if i2 - i1 >= 4 {
            let mut sp: Vec<Point> = Vec::new();
            let mut j = i1;
            while j < i2
                invariant
                    i1 <= j <= i2,
                    i2 <= points@.len(),
                    len == points@.len(),
                    sp@ == points@.subrange(i1 as int, j as int),
                decreases i2 - j,
            {
                let p = points[j];
                sp.push(p);
                proof {
                    assert(sp@ =~= points@.subrange(i1 as int, j as int + 1));
                }
                j += 1;
            }
            r.push(sp);
            proof {
                krs = krs.push((i1 as int, i2 as int));
                assert(gb[i as int] == i1 as int && gb[i as int + 1] == i2 as int);
                assert(ranges_from(gb, i as int) == seq![(i1 as int, i2 as int)] + ranges_from(
                    gb,
                    i as int + 1,
                ));
                assert(prev_krs + ranges_from(gb, i as int) =~= krs + ranges_from(
                    gb,
                    i as int + 1,
                ));
            }
        } else {
            proof {
                assert(gb[i as int] == i1 as int && gb[i as int + 1] == i2 as int);
                assert(ranges_from(gb, i as int) == ranges_from(gb, i as int + 1));
            }
        }
        i += 1;
    }
    proof {
        assert(ranges_from(gb, i as int) == Seq::<(int, int)>::empty());
        assert(ranges_from(gb, 0) =~= krs);
        assert(subpath_ranges::<O>(points@) == krs);
        assert forall|j: int| 0 <= j < r@.len() implies r@[j]@ == subpaths_of::<O>(points@)[j] by {
            assert(subpaths_of::<O>(points@)[j] == points@.subrange(krs[j].0, krs[j].1));
            assert(r@[j]@ == points@.subrange(krs[j].0, krs[j].1));
        }
        assert forall|j: int| 0 <= j < r@.len() implies r@[j]@.len() >= 4 by {
            assert(r@[j]@ == points@.subrange(krs[j].0, krs[j].1));
        }
    }
    r
}

} // verus!
