//! Fixed-point geometry: vectors, points and rays.
//!
//! The vector type itself is the generic [`crate::geo::Vec3`]; this module
//! instantiates it at the fixed-point scalar and adds the metric
//! operations — length, normalization, dot and cross products, reflection
//! and refraction — together with the random direction samplers.

pub mod point;
pub mod ray;
pub mod vec3;

pub use point::Point;
pub use ray::Ray;
pub use vec3::Fixed;
pub use vec3::Vec3;
