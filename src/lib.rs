//! Exact 2D polygon geometry: an ordered vertex sequence with a cache of
//! self-intersection points, shape classification, point containment and
//! integer affine transforms.
//!
//! Coordinates are integers; points that arise as intersections or means of
//! vertices are exact rationals, so every comparison is exact.

pub mod point;
pub mod transform;
pub mod polygon;
pub mod laws;
