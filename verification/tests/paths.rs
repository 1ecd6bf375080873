use cairo_path::bezier::gen_cubic_bezier_tuples_from_points;
use cairo_path::context::{PathCmd, TraceContext};
use cairo_path::emit::CairoCamera;
use cairo_path::errors::EmitError;
use cairo_path::oracle::{ExactOracle, ToleranceOracle};
use cairo_path::point::{points_from_flat, Point};
use cairo_path::subpaths::gen_subpaths_from_points_2d;

fn pt(x: f64, y: f64) -> Point {
    Point { x: x.to_bits(), y: y.to_bits() }
}

fn move_to(p: Point) -> PathCmd {
    PathCmd::MoveTo { x: p.x, y: p.y }
}

fn curve_to(p1: Point, p2: Point, p3: Point) -> PathCmd {
    PathCmd::CurveTo { x1: p1.x, y1: p1.y, x2: p2.x, y2: p2.y, x3: p3.x, y3: p3.y }
}

/// Twelve points with no discontinuity at either candidate index give one
/// subpath holding all twelve points.
#[test]
fn twelve_points_one_subpath() {
    let mut pts: Vec<Point> = (0..12).map(|i| pt(i as f64, 1.0)).collect();
    pts[4] = pts[3];
    pts[8] = pts[7];
    let subs = gen_subpaths_from_points_2d::<ExactOracle>(&pts);
    assert_eq!(subs.len(), 1);
    assert_eq!(subs[0], pts);
}

/// Discontinuities at candidate indices 4 and 8 on twelve points give the
/// boundaries 0, 4, 8, 12: three subpaths of four points each, in order.
#[test]
fn three_runs_of_four() {
    let pts: Vec<Point> = (0..12).map(|i| pt(i as f64, 2.0)).collect();
    let subs = gen_subpaths_from_points_2d::<ExactOracle>(&pts);
    assert_eq!(subs.len(), 3);
    assert_eq!(subs[0], pts[0..4].to_vec());
    assert_eq!(subs[1], pts[4..8].to_vec());
    assert_eq!(subs[2], pts[8..12].to_vec());
}

/// A candidate range shorter than four points is dropped entirely, not
/// merged with a neighbour: boundaries 0, 4, 8 on ten points leave the
/// two-point range starting at 8 discarded.
#[test]
fn trailing_short_range_dropped() {
    let pts: Vec<Point> = (0..10).map(|i| pt(i as f64, 3.0)).collect();
    let subs = gen_subpaths_from_points_2d::<ExactOracle>(&pts);
    assert_eq!(subs.len(), 2);
    assert_eq!(subs[0], pts[0..4].to_vec());
    assert_eq!(subs[1], pts[4..8].to_vec());
}

/// Fewer than four points never form a subpath.
#[test]
fn fewer_than_four_points_unkept() {
    let pts: Vec<Point> = (0..3).map(|i| pt(i as f64, 4.0)).collect();
    let subs = gen_subpaths_from_points_2d::<ExactOracle>(&pts);
    assert_eq!(subs.len(), 0);
}

/// An empty sequence has no subpath.
#[test]
fn empty_sequence_no_subpath() {
    let pts: Vec<Point> = Vec::new();
    let subs = gen_subpaths_from_points_2d::<ExactOracle>(&pts);
    assert_eq!(subs.len(), 0);
}

/// Ten points yield exactly two cubic segments; the trailing two points are
/// dropped without error.
#[test]
fn ten_points_two_segments() {
    let pts: Vec<Point> = (0..10).map(|i| pt(i as f64, 5.0)).collect();
    let quads = gen_cubic_bezier_tuples_from_points(&pts);
    assert_eq!(quads.len(), 2);
    assert_eq!(
        (quads[0].p0, quads[0].p1, quads[0].p2, quads[0].p3),
        (pts[0], pts[1], pts[2], pts[3])
    );
    assert_eq!(
        (quads[1].p0, quads[1].p1, quads[1].p2, quads[1].p3),
        (pts[4], pts[5], pts[6], pts[7])
    );
}

/// A run of exactly eight points yields two segments and drops nothing.
#[test]
fn eight_points_two_segments() {
    let pts: Vec<Point> = (0..8).map(|i| pt(i as f64, 6.0)).collect();
    let quads = gen_cubic_bezier_tuples_from_points(&pts);
    assert_eq!(quads.len(), 2);
}

/// Under four points yield no segment at all.
#[test]
fn under_four_points_no_segment() {
    let pts: Vec<Point> = (0..3).map(|i| pt(i as f64, 7.0)).collect();
    let quads = gen_cubic_bezier_tuples_from_points(&pts);
    assert_eq!(quads.len(), 0);
}

/// A single subpath of four points whose first and last points are equal
/// emits, in order: new path, new subpath, a move to the first point, one
/// curve, and a close.
#[test]
fn emit_closed_single_subpath() {
    let a = pt(0.0, 0.0);
    let b = pt(1.0, 0.0);
    let c = pt(1.0, 1.0);
    let pts = vec![a, b, c, a];
    let mut ctx = TraceContext::new();
    let r = CairoCamera::new().set_cairo_context_path::<ExactOracle, _>(&mut ctx, &pts);
    assert_eq!(r, Ok(()));
    assert_eq!(
        ctx.calls,
        vec![
            PathCmd::NewPath,
            PathCmd::NewSubPath,
            move_to(a),
            curve_to(b, c, a),
            PathCmd::ClosePath,
        ]
    );
}

/// When a subpath's first and last points differ, no close is ever issued
/// for it.
#[test]
fn emit_open_subpath_never_closed() {
    let pts = vec![pt(0.0, 0.0), pt(1.0, 0.0), pt(1.0, 1.0), pt(2.0, 2.0)];
    let mut ctx = TraceContext::new();
    let r = CairoCamera::new().set_cairo_context_path::<ExactOracle, _>(&mut ctx, &pts);
    assert_eq!(r, Ok(()));
    assert_eq!(
        ctx.calls,
        vec![
            PathCmd::NewPath,
            PathCmd::NewSubPath,
            move_to(pts[0]),
            curve_to(pts[1], pts[2], pts[3]),
        ]
    );
    assert!(!ctx.calls.contains(&PathCmd::ClosePath));
}

/// If the context fails on the second subpath's move, the first subpath's
/// full call sequence has already been issued, the call reports a context
/// failure, and no further operation is attempted.
#[test]
fn emit_aborts_on_second_subpath() {
    let pts: Vec<Point> = (0..8).map(|i| pt(i as f64, 8.0)).collect();
    let mut ctx = TraceContext::failing_after(5);
    let r = CairoCamera::new().set_cairo_context_path::<ExactOracle, _>(&mut ctx, &pts);
    assert_eq!(r, Err(EmitError::ContextCall));
    assert_eq!(
        ctx.calls,
        vec![
            PathCmd::NewPath,
            PathCmd::NewSubPath,
            move_to(pts[0]),
            curve_to(pts[1], pts[2], pts[3]),
            PathCmd::NewSubPath,
            move_to(pts[4]),
        ]
    );
}

/// Even an empty point sequence begins a fresh path, and nothing more.
#[test]
fn emit_empty_points_new_path_only() {
    let pts: Vec<Point> = Vec::new();
    let mut ctx = TraceContext::new();
    let r = CairoCamera::new().set_cairo_context_path::<ExactOracle, _>(&mut ctx, &pts);
    assert_eq!(r, Ok(()));
    assert_eq!(ctx.calls, vec![PathCmd::NewPath]);
}

/// A failure on the very first operation still leaves that operation issued
/// and surfaces as a context failure.
#[test]
fn emit_fails_at_first_call() {
    let pts: Vec<Point> = Vec::new();
    let mut ctx = TraceContext::failing_after(0);
    let r = CairoCamera::new().set_cairo_context_path::<ExactOracle, _>(&mut ctx, &pts);
    assert_eq!(r, Err(EmitError::ContextCall));
    assert_eq!(ctx.calls, vec![PathCmd::NewPath]);
}

/// Points dropped from the segment grouping still decide closure: the
/// subpath's true last point is compared with its first.
#[test]
fn dropped_remainder_still_decides_closure() {
    let a = pt(0.0, 0.0);
    let mut pts: Vec<Point> = (0..6).map(|i| pt(i as f64, 9.0)).collect();
    pts[0] = a;
    pts[4] = pts[3];
    pts[5] = a;
    let mut ctx = TraceContext::new();
    let r = CairoCamera::new().set_cairo_context_path::<ExactOracle, _>(&mut ctx, &pts);
    assert_eq!(r, Ok(()));
    assert_eq!(
        ctx.calls,
        vec![
            PathCmd::NewPath,
            PathCmd::NewSubPath,
            move_to(a),
            curve_to(pts[1], pts[2], pts[3]),
            PathCmd::ClosePath,
        ]
    );
}

/// A flat, even-length coordinate array is rebuilt into points pairwise.
#[test]
fn points_from_flat_pairs() {
    let flat = vec![
        (1.0f64).to_bits(),
        (2.0f64).to_bits(),
        (3.0f64).to_bits(),
        (4.0f64).to_bits(),
    ];
    let ps = points_from_flat(&flat).unwrap();
    assert_eq!(ps, vec![pt(1.0, 2.0), pt(3.0, 4.0)]);
}

/// A flat array of odd length does not encode whole points and is rejected
/// as an input-access failure.
#[test]
fn points_from_flat_odd_rejected() {
    let flat = vec![1u64, 2u64, 3u64];
    assert_eq!(points_from_flat(&flat), Err(EmitError::InputAccess));
}

/// The exact oracle deems every point equal to itself.
#[test]
fn exact_oracle_reflexive() {
    for p in [pt(0.0, 0.0), pt(-3.5, 7.25), pt(1.0e300, -2.0e-300)] {
        assert!(<ExactOracle as ToleranceOracle>::approx_eq(&p, &p));
    }
}

/// The exact oracle distinguishes points with different bit patterns.
#[test]
fn exact_oracle_distinguishes() {
    assert!(!<ExactOracle as ToleranceOracle>::approx_eq(&pt(0.0, 0.0), &pt(0.0, 1.0)));
}

/// A failure on the closing operation itself still leaves the close issued
/// as the last recorded operation.
#[test]
fn emit_aborts_on_close() {
    let a = pt(0.0, 0.0);
    let pts = vec![a, pt(1.0, 0.0), pt(1.0, 1.0), a];
    let mut ctx = TraceContext::failing_after(4);
    let r = CairoCamera::new().set_cairo_context_path::<ExactOracle, _>(&mut ctx, &pts);
    assert_eq!(r, Err(EmitError::ContextCall));
    assert_eq!(ctx.calls.len(), 5);
    assert_eq!(*ctx.calls.last().unwrap(), PathCmd::ClosePath);
}

/// Two subpaths, each closed on its own endpoints, emit their full command
/// runs in order.
#[test]
fn emit_two_closed_subpaths() {
    let mut pts: Vec<Point> = (0..8).map(|i| pt(i as f64, 10.0)).collect();
    pts[3] = pts[0];
    pts[7] = pts[4];
    let mut ctx = TraceContext::new();
    let r = CairoCamera::new().set_cairo_context_path::<ExactOracle, _>(&mut ctx, &pts);
    assert_eq!(r, Ok(()));
    assert_eq!(
        ctx.calls,
        vec![
            PathCmd::NewPath,
            PathCmd::NewSubPath,
            move_to(pts[0]),
            curve_to(pts[1], pts[2], pts[3]),
            PathCmd::ClosePath,
            PathCmd::NewSubPath,
            move_to(pts[4]),
            curve_to(pts[5], pts[6], pts[7]),
            PathCmd::ClosePath,
        ]
    );
}
