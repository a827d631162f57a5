//! Replacement of cubic Bezier and elliptical-arc path events by runs of
//! quadratic Bezier events, within a caller-chosen error bound.
//!
//! Coordinates are fixed-point: the caller picks a scale and works in signed
//! integer units. All arithmetic is exact integer arithmetic, with midpoints
//! rounded toward zero.

//! The laws proved about the system live beside their subjects:
//! finiteness, continuity, the degenerate fast path and error-bound
//! monotonicity of the subdivision in [`model`], the reversed arc
//! emission in [`arc`], and the pass-through identity and the
//! quadratic-only output restriction of the event transformer in
//! [`transform`].

pub mod geometry;
pub mod model;
pub mod cubic;
pub mod arc;
pub mod transform;
