use vstd::prelude::*;
use crate::context::PathCmd;
use crate::emit::{cmds_upto, curve_cmds, emit_cmds, subpath_cmds};
use crate::oracle::{ExactOracle, ToleranceOracle};
use crate::point::Point;
use crate::subpaths::{bounds_of, ranges_from, splits_from, subpath_ranges};

verus! {

/// The interior split indices found at or after `n` lie in `[n, len)` and
/// increase strictly.
proof fn lemma_splits_from_wf<O: ToleranceOracle>(ps: Seq<Point>, n: int)
    ensures
        forall|k: int| 0 <= k < splits_from::<O>(ps, n).len() ==> n <= #[trigger] splits_from::<
            O,
        >(ps, n)[k] < ps.len(),
        forall|k: int| 0 <= k && k + 1 < splits_from::<O>(ps, n).len() ==> #[trigger] splits_from::<
            O,
        >(ps, n)[k] < splits_from::<O>(ps, n)[k + 1],
    decreases ps.len() - n + 4,
{
    if n < ps.len() {
        lemma_splits_from_wf::<O>(ps, n + 4);
        let rest = splits_from::<O>(ps, n + 4);
        let s = splits_from::<O>(ps, n);
        if crate::subpaths::is_split::<O>(ps, n) {
            assert(s == seq![n] + rest);
            assert forall|k: int| 0 <= k < s.len() implies n <= #[trigger] s[k] < ps.len() by {
                if k > 0 {
                    assert(s[k] == rest[k - 1]);
                }
            }
            assert forall|k: int| 0 <= k && k + 1 < s.len() implies #[trigger] s[k] < s[k + 1] by {
                if k == 0 {
                    if rest.len() > 0 {
                        assert(s[1] == rest[0]);
                    }
                } else {
                    assert(s[k] == rest[k - 1]);
                    assert(s[k + 1] == rest[k]);
                }
            }
        } else {
            assert(s == rest);
            assert forall|k: int| 0 <= k < s.len() implies n <= #[trigger] s[k] < ps.len() by {
                assert(s[k] == rest[k]);
            }
        }
    }
}

/// The boundary list starts at 0, ends at the length, stays within
/// `[0, len]`, and never decreases.
proof fn lemma_bounds_wf<O: ToleranceOracle>(ps: Seq<Point>)
    ensures
        bounds_of::<O>(ps).len() >= 2,
        bounds_of::<O>(ps)[0] == 0,
        bounds_of::<O>(ps)[bounds_of::<O>(ps).len() - 1] == ps.len(),
        forall|k: int| 0 <= k < bounds_of::<O>(ps).len() ==> 0 <= #[trigger] bounds_of::<O>(
            ps,
        )[k] <= ps.len(),
        forall|k: int| 0 <= k && k + 1 < bounds_of::<O>(ps).len() ==> #[trigger] bounds_of::<O>(
            ps,
        )[k] <= bounds_of::<O>(ps)[k + 1],
{
    lemma_splits_from_wf::<O>(ps, 4);
    let s = splits_from::<O>(ps, 4);
    let bs = bounds_of::<O>(ps);
    assert(bs.len() == s.len() + 2);
    assert(bs[0] == 0);
    assert(bs[bs.len() - 1] == ps.len());
    assert(forall|k: int| 0 <= k < s.len() ==> bs[k + 1] == #[trigger] s[k]);
    assert forall|k: int| 0 <= k < bs.len() implies 0 <= #[trigger] bs[k] <= ps.len() by {
        if 1 <= k < bs.len() - 1 {
            assert(bs[k] == s[k - 1]);
        }
    }
    assert forall|k: int| 0 <= k && k + 1 < bs.len() implies #[trigger] bs[k] <= bs[k + 1] by {
        if k == 0 {
            if s.len() > 0 {
                assert(bs[1] == s[0]);
            }
        } else if k + 2 == bs.len() {
            assert(bs[k] == s[k - 1]);
        } else {
            assert(bs[k] == s[k - 1]);
            assert(bs[k + 1] == s[k]);
        }
    }
}

/// Ranges kept from a sorted boundary list are well-formed, start at or
/// after the boundary being scanned, and never overlap.
proof fn lemma_ranges_from_wf(bs: Seq<int>, i: int, hi: int)
    requires
        0 <= i,
        forall|k: int| 0 <= k < bs.len() ==> 0 <= #[trigger] bs[k] <= hi,
        forall|k: int| 0 <= k && k + 1 < bs.len() ==> #[trigger] bs[k] <= bs[k + 1],
    ensures
        forall|j: int| 0 <= j < ranges_from(bs, i).len() ==> 0 <= (#[trigger] ranges_from(
            bs,
            i,
        )[j]).0 && ranges_from(bs, i)[j].0 + 4 <= ranges_from(bs, i)[j].1 && ranges_from(
            bs,
            i,
        )[j].1 <= hi,
        forall|j: int| 0 <= j < ranges_from(bs, i).len() && i < bs.len() ==> bs[i]
            <= (#[trigger] ranges_from(bs, i)[j]).0,
        forall|j: int| 0 <= j && j + 1 < ranges_from(bs, i).len() ==> (#[trigger] ranges_from(
            bs,
            i,
        )[j]).1 <= ranges_from(bs, i)[j + 1].0,
    decreases bs.len() - i + 1,
{
    if i + 1 < bs.len() {
        lemma_ranges_from_wf(bs, i + 1, hi);
        let rest = ranges_from(bs, i + 1);
        let r = ranges_from(bs, i);
        if bs[i + 1] - bs[i] >= 4 {
            assert(r == seq![(bs[i], bs[i + 1])] + rest);
            assert forall|j: int| 0 <= j < r.len() implies 0 <= (#[trigger] r[j]).0 && r[j].0 + 4
                <= r[j].1 && r[j].1 <= hi && bs[i] <= r[j].0 by {
                if j > 0 {
                    assert(r[j] == rest[j - 1]);
                }
            }
            assert forall|j: int| 0 <= j && j + 1 < r.len() implies (#[trigger] r[j]).1 <= r[j
                + 1].0 by {
                if j == 0 {
                    assert(r[1] == rest[0]);
                } else {
                    assert(r[j] == rest[j - 1]);
                    assert(r[j + 1] == rest[j]);
                }
            }
        } else {
            assert(r == rest);
        }
    }
}

/// The kept subpath ranges slice the sequence soundly: every range holds at
/// least four points and lies within the sequence, and the ranges appear in
/// increasing order without overlapping — each range ends at or before the
/// next one begins, so every point belongs to at most one subpath.
pub proof fn lemma_subpath_ranges_partition<O: ToleranceOracle>(ps: Seq<Point>)
    ensures
        forall|j: int| 0 <= j < subpath_ranges::<O>(ps).len() ==> 0 <= (#[trigger] subpath_ranges::<
            O,
        >(ps)[j]).0 && subpath_ranges::<O>(ps)[j].0 + 4 <= subpath_ranges::<O>(ps)[j].1
            && subpath_ranges::<O>(ps)[j].1 <= ps.len(),
        forall|j: int| 0 <= j && j + 1 < subpath_ranges::<O>(ps).len() ==> (
        #[trigger] subpath_ranges::<O>(ps)[j]).1 <= subpath_ranges::<O>(ps)[j + 1].0,
{
    lemma_bounds_wf::<O>(ps);
    lemma_ranges_from_wf(bounds_of::<O>(ps), 0, ps.len() as int);
}

/// The exact-equality oracle deems every point equal to itself.
pub proof fn lemma_exact_oracle_reflexive(p: Point)
    ensures
        ExactOracle::close_spec(p, p),
{
}

/// A subpath's command sequence contains a `ClosePath` exactly when the
/// subpath's first and last points are tolerance-equal; no close is ever
/// issued for a subpath whose endpoints differ beyond tolerance.
pub proof fn lemma_close_iff_ends_meet<O: ToleranceOracle>(sp: Seq<Point>)
    ensures
        subpath_cmds::<O>(sp).contains(PathCmd::ClosePath) <==> O::close_spec(
            sp[0],
            sp[sp.len() - 1],
        ),
{
    let cmds = subpath_cmds::<O>(sp);
    if O::close_spec(sp[0], sp[sp.len() - 1]) {
        assert(cmds[cmds.len() - 1] == PathCmd::ClosePath);
    } else {
        assert forall|k: int| 0 <= k < cmds.len() implies cmds[k] != PathCmd::ClosePath by {
            if k == 0 {
                assert(cmds[k] == PathCmd::NewSubPath);
            } else if k == 1 {
                assert(cmds[k] == (PathCmd::MoveTo { x: sp[0].x, y: sp[0].y }));
            } else {
                assert(cmds[k] == curve_cmds(sp)[k - 2]);
                assert(curve_cmds(sp)[k - 2] is CurveTo);
            }
        }
        if cmds.contains(PathCmd::ClosePath) {
            let k = choose|k: int| 0 <= k < cmds.len() && cmds[k] == PathCmd::ClosePath;
            assert(false);
        }
    }
}

/// No command of a subpath is a `NewPath`.
proof fn lemma_subpath_cmds_no_new_path<O: ToleranceOracle>(sp: Seq<Point>)
    ensures
        forall|k: int| 0 <= k < subpath_cmds::<O>(sp).len() ==> subpath_cmds::<O>(sp)[k]
            != PathCmd::NewPath,
{
    let cmds = subpath_cmds::<O>(sp);
    assert forall|k: int| 0 <= k < cmds.len() implies cmds[k] != PathCmd::NewPath by {
        if k == 0 {
            assert(cmds[k] == PathCmd::NewSubPath);
        } else if k == 1 {
            assert(cmds[k] == (PathCmd::MoveTo { x: sp[0].x, y: sp[0].y }));
        } else if k < 2 + curve_cmds(sp).len() {
            assert(cmds[k] == curve_cmds(sp)[k - 2]);
            assert(curve_cmds(sp)[k - 2] is CurveTo);
        } else {
            assert(cmds[k] == PathCmd::ClosePath);
        }
    }
}

/// No command contributed by the subpaths is a `NewPath`.
proof fn lemma_cmds_upto_no_new_path<O: ToleranceOracle>(sps: Seq<Seq<Point>>, i: int)
    ensures
        forall|k: int| 0 <= k < cmds_upto::<O>(sps, i).len() ==> cmds_upto::<O>(sps, i)[k]
            != PathCmd::NewPath,
    decreases i,
{
    if i > 0 {
        lemma_cmds_upto_no_new_path::<O>(sps, i - 1);
        lemma_subpath_cmds_no_new_path::<O>(sps[i - 1]);
    }
}

/// The protocol begins a fresh path exactly once: its first command — even
/// for an empty point sequence — is the one and only `NewPath`.
pub proof fn lemma_new_path_exactly_once<O: ToleranceOracle>(ps: Seq<Point>)
    ensures
        emit_cmds::<O>(ps).len() >= 1,
        emit_cmds::<O>(ps)[0] == PathCmd::NewPath,
        forall|k: int| 1 <= k < emit_cmds::<O>(ps).len() ==> emit_cmds::<O>(ps)[k]
            != PathCmd::NewPath,
{
    let sps = crate::subpaths::subpaths_of::<O>(ps);
    lemma_cmds_upto_no_new_path::<O>(sps, sps.len() as int);
    assert forall|k: int| 1 <= k < emit_cmds::<O>(ps).len() implies emit_cmds::<O>(ps)[k]
        != PathCmd::NewPath by {
        assert(emit_cmds::<O>(ps)[k] == cmds_upto::<O>(sps, sps.len() as int)[k - 1]);
    }
}

} // verus!
