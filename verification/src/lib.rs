//! A small path tracer over fixed-point arithmetic.
//!
//! A scene of spheres, triangles and infinite planes is sampled by rays
//! from a camera; rays bounce off diffuse, specular and refractive
//! materials until their budget runs out, and what each path gathers is
//! averaged into a pixel. Finite primitives sit in a bounding-volume
//! hierarchy built by surface-area binning; pixels render in parallel.
//!
//! All coordinates, colors and ray parameters are `i64` values scaled by
//! [`fixed::SCALE`], so every computation is exact integer arithmetic
//! with stated truncation, and the contracts pin the results down to the
//! raw step.

pub mod camera;
pub mod color;
pub mod fixed;
pub mod geo;
pub mod geometry;
pub mod image;
pub mod material;
pub mod object;
pub mod rng;
pub mod scene;
pub mod sky;
