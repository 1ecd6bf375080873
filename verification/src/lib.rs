//! Reconstruction of a structured vector path from a flat sequence of 2-D
//! sample points.
//!
//! The input is an ordered run of anchor and control points of piecewise cubic
//! Bezier curves, with subpath boundaries marked only by near-duplicate points
//! at fixed positions. The library infers those boundaries, regroups each
//! subpath into four-point cubic segments, and drives an abstract
//! path-drawing context with the resulting commands.

pub mod bezier;
pub mod context;
pub mod emit;
pub mod errors;
pub mod laws;
pub mod oracle;
pub mod point;
pub mod subpaths;
