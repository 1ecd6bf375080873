use vstd::prelude::*;
use crate::point::Point;

verus! {

/// The approximate point-equality capability used to detect discontinuities
/// and to decide path closure.
///
/// `close_spec` is the mathematical meaning of the test; `approx_eq` is its
/// executable form and must agree with it. The oracle is pure: the verdict
/// depends on the two points alone.
pub trait ToleranceOracle {
    /// Whether two points count as the same sample.
    spec fn close_spec(p1: Point, p2: Point) -> bool;

    /// Executable form of `close_spec`.
    fn approx_eq(p1: &Point, p2: &Point) -> (r: bool)
        ensures
            r == Self::close_spec(*p1, *p2),
    ;
}

/// The oracle that treats two points as equal exactly when their coordinate
/// bit patterns agree. It detects boundary markers inserted as exact
/// duplicates, and it is the reference oracle of the test suite.
pub struct ExactOracle;

impl ToleranceOracle for ExactOracle {
    open spec fn close_spec(p1: Point, p2: Point) -> bool {
        p1 == p2
    }

    fn approx_eq(p1: &Point, p2: &Point) -> (r: bool) {
        p1.x == p2.x && p1.y == p2.y
    }
}

} // verus!
