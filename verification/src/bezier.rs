use vstd::prelude::*;
use crate::point::{BezierSegment, Point};

verus! {

/// The cubic Bezier segments a point run yields: its points taken four at a
/// time, in order. Any trailing remainder short of four points contributes
/// nothing.
pub open spec fn quads_of(sp: Seq<Point>) -> Seq<BezierSegment> {
    Seq::new((sp.len() / 4) as nat, |k: int| BezierSegment {
        p0: sp[4 * k],
        p1: sp[4 * k + 1],
        p2: sp[4 * k + 2],
        p3: sp[4 * k + 3],
    })
}

/// Slices a point run into consecutive four-point cubic Bezier segments, in
/// order. The `len mod 4` trailing points do not form a whole segment and
/// are dropped without error; they are never carried over to anything else.
pub fn gen_cubic_bezier_tuples_from_points(points: &Vec<Point>) -> (r: Vec<BezierSegment>)
    ensures
        r@ == quads_of(points@),
{
    let mut r: Vec<BezierSegment> = Vec::new();
    let mut n: usize = 0;
    while points.len() - n >= 4
        invariant
            n <= points@.len(),
            r@.len() * 4 == n,
            r@.len() <= points@.len() / 4,
            forall|k: int| 0 <= k < r@.len() ==> r@[k] == quads_of(points@)[k],
        decreases points@.len() - n,
    {
        let seg = BezierSegment {
            p0: points[n],
            p1: points[n + 1],
            p2: points[n + 2],
            p3: points[n + 3],
        };
        r.push(seg);
        n += 4;
    }
    proof {
        assert(r@ =~= quads_of(points@));
    }
    r
}

} // verus!
