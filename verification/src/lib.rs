//! A particle-mesh animation core: a fixed population of point particles moves
//! inside a rectangular boundary, and every tick a mesh of translucent line
//! segments is rebuilt between every pair of particles that are close enough,
//! with opacity and stroke width graded by the pair's distance.
//!
//! All geometry is held in fixed-point integers: one length unit is
//! [`geometry::SCALE`] sub-units, so `1.5` units are written `1_500`. Opacity
//! is an integer in `0..=255`. The host that draws the mesh converts between
//! these integers and whatever numeric types its canvas wants.

pub mod geometry;
pub mod line;
pub mod model;
pub mod particle;
pub mod update;
