use cairo_path::context::{PathCmd, TraceContext};
use cairo_path::emit::CairoCamera;
use cairo_path::oracle::ToleranceOracle;
use cairo_path::point::Point;
use cairo_path::subpaths::gen_subpaths_from_points_2d;

fn pt(x: f64, y: f64) -> Point {
    Point { x: x.to_bits(), y: y.to_bits() }
}

/// Combined absolute and relative tolerance on one coordinate: the bound is
/// computed from the first argument's magnitude only.
fn coord_close(a: f64, b: f64) -> bool {
    (a - b).abs() <= 1e-6 + 1e-5 * a.abs()
}

/// The tolerance oracle used by the application layer: both coordinates must
/// pass the combined absolute-plus-relative check, with the bound scaled by
/// the first point's magnitudes.
struct NumpyLikeOracle;

impl ToleranceOracle for NumpyLikeOracle {
    // The verifier-facing meaning of the test; it is never called at run
    // time, so any body satisfies the compiler here.
    fn close_spec(_p1: Point, _p2: Point) -> bool {
        false
    }

    fn approx_eq(p1: &Point, p2: &Point) -> bool {
        coord_close(f64::from_bits(p1.x), f64::from_bits(p2.x))
            && coord_close(f64::from_bits(p1.y), f64::from_bits(p2.y))
    }
}

/// Every finite point is tolerance-equal to itself.
#[test]
fn tolerance_reflexive_on_finite_points() {
    for p in [
        pt(0.0, 0.0),
        pt(-3.5, 7.25),
        pt(1.0e300, -2.0e-300),
        pt(f64::MIN, f64::MAX),
    ] {
        assert!(NumpyLikeOracle::approx_eq(&p, &p));
    }
}

/// The documented asymmetry: the bound uses only the first argument's
/// magnitude. At magnitude 1000 the bound is 1e-6 + 0.01, well under the
/// 0.02 gap, so the pair is unequal either way; a gap chosen between the two
/// candidate bounds flips the verdict when the arguments swap.
#[test]
fn tolerance_bound_uses_first_magnitude() {
    let p1 = pt(1000.0, 0.0);
    let p2 = pt(1000.02, 0.0);
    assert!(!NumpyLikeOracle::approx_eq(&p1, &p2));
    assert!(!NumpyLikeOracle::approx_eq(&p2, &p1));

    let near_zero = pt(0.0, 0.0);
    let tiny = pt(1.000005e-6, 0.0);
    assert!(NumpyLikeOracle::approx_eq(&tiny, &near_zero));
    assert!(!NumpyLikeOracle::approx_eq(&near_zero, &tiny));
}

/// A near-duplicate within tolerance keeps the run whole; a gap beyond
/// tolerance at a candidate index splits it.
#[test]
fn tolerance_drives_segmentation() {
    let mut pts: Vec<Point> = (0..8).map(|i| pt(i as f64, 0.0)).collect();
    pts[3] = pt(1000.0, 0.0);
    pts[4] = pt(1000.000001, 0.0);
    let subs = gen_subpaths_from_points_2d::<NumpyLikeOracle>(&pts);
    assert_eq!(subs.len(), 1);

    pts[4] = pt(1000.02, 0.0);
    let subs = gen_subpaths_from_points_2d::<NumpyLikeOracle>(&pts);
    assert_eq!(subs.len(), 2);
}

/// Closure is decided by the same tolerance test: a last point within
/// tolerance of the first closes the subpath.
#[test]
fn tolerance_decides_closure() {
    let pts = vec![
        pt(5.0, 5.0),
        pt(6.0, 5.0),
        pt(6.0, 6.0),
        pt(5.0000001, 5.0),
    ];
    let mut ctx = TraceContext::new();
    let r = CairoCamera::new().set_cairo_context_path::<NumpyLikeOracle, _>(&mut ctx, &pts);
    assert_eq!(r, Ok(()));
    assert_eq!(*ctx.calls.last().unwrap(), PathCmd::ClosePath);
}
