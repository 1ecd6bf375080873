use vstd::prelude::*;
use crate::errors::EmitError;

verus! {

/// A 2-D sample point. Each coordinate holds the raw bit pattern of an
/// IEEE-754 double-precision value. The structural path logic never
/// interprets the bits: it carries them through to the drawing context and
/// hands pairs of points to a tolerance oracle for comparison.
#[derive(Clone, Copy, PartialEq, Eq, Structural, Debug)]
pub struct Point {
    pub x: u64,
    pub y: u64,
}

/// One cubic Bezier segment: start anchor, two control points, end anchor.
#[derive(Clone, Copy, PartialEq, Eq, Structural, Debug)]
pub struct BezierSegment {
    pub p0: Point,
    pub p1: Point,
    pub p2: Point,
    pub p3: Point,
}

/// The points encoded by a flat, row-major coordinate sequence
/// `[x0, y0, x1, y1, ...]`.
pub open spec fn points_of(flat: Seq<u64>) -> Seq<Point> {
    Seq::new((flat.len() / 2) as nat, |i: int| Point { x: flat[2 * i], y: flat[2 * i + 1] })
}

/// Rebuilds the point sequence from a flat, row-major coordinate array, the
/// shape `(n, 2)` array flattened. A sequence of odd length does not encode
/// whole points and is rejected as an input-access failure.
pub fn points_from_flat(coords: &Vec<u64>) -> (r: Result<Vec<Point>, EmitError>)
    ensures
        coords@.len() % 2 == 0 ==> (r matches Ok(ps) && ps@ == points_of(coords@)),
        coords@.len() % 2 != 0 ==> r == Err::<Vec<Point>, EmitError>(EmitError::InputAccess),
{
    if coords.len() % 2 != 0 {
        return Err(EmitError::InputAccess);
    }
    let mut ps: Vec<Point> = Vec::new();
    let mut i: usize = 0;
    while i < coords.len()
        invariant
            i % 2 == 0,
            i <= coords@.len(),
            coords@.len() % 2 == 0,
            ps@.len() == i as int / 2,
            forall|k: int| 0 <= k < ps@.len()
                ==> ps@[k] == (Point { x: coords@[2 * k], y: coords@[2 * k + 1] }),
        decreases coords@.len() - i,
    {
        let p = Point { x: coords[i], y: coords[i + 1] };
        ps.push(p);
        i += 2;
    }
    proof {
        assert(ps@ =~= points_of(coords@));
    }
    Ok(ps)
}

} // verus!
