//! An offline ray-tracing renderer over fixed-point arithmetic.
//!
//! The renderer casts rays from a camera into a scene of spheres held in a
//! bounding-volume hierarchy, evaluates diffuse scattering recursively, and
//! emits the image as ASCII PPM lines.  All scalars are fixed-point `i64`
//! values (see [`fixed`]), so every geometric and chromatic computation has
//! an exact integer contract.

use vstd::prelude::*;

pub mod aabb;
pub mod bvh;
pub mod camera;
pub mod color;
pub mod fixed;
pub mod geometry;
pub mod hit;
pub mod material;
pub mod painter;
pub mod ray;
pub mod render;
mod rng;
pub mod sphere;
pub mod texture;
pub mod vec3;
pub mod world;

verus! {

} // verus!
