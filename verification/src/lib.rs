//! A recursive Monte-Carlo path tracer over scaled-integer arithmetic.
//!
//! Every scalar is an `i64` holding a multiple of `1 / fixed::SCALE`; the
//! spec functions in [`fixed`] give each arithmetic step an exact meaning,
//! and the contracts of the geometry, material and tracing functions are
//! stated against those definitions.

pub mod fixed;
pub mod rng;
pub mod vec3d;
pub mod ray;
pub mod color;
pub mod camera;
pub mod geometry;
pub mod material;
pub mod tracer;
pub mod laws;
