//! Exact 2D geometry primitives.
//!
//! A [`point::Point`] is a pair of integer coordinates supporting
//! component-wise vector arithmetic, and a [`segment::Segment`] is an
//! oriented pair of points with a Euclidean length computation. All
//! operations are pure functions over immutable values; lengths and
//! magnitudes are exact integer square roots (rounded toward zero).

pub mod point;
pub mod segment;
pub mod sqrt;
