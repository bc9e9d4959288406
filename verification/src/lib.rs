//! A CPU path tracer over a fixed-point scalar model.
//!
//! Scalars are signed 64-bit fixed-point numbers with 16 fractional bits
//! (one world unit is `ONE` = 65536 raw units). All geometry, shading and
//! pixel finalization is carried out in this representation, so every
//! arithmetic step has an exact mathematical meaning that the contracts
//! state over `int`.

pub mod camera;
pub mod fixed;
pub mod hit;
pub mod laws;
pub mod material;
pub mod ray;
pub mod render;
pub mod rng;
pub mod sphere;
pub mod vec3;
