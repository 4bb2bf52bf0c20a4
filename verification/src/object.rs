//! Scene geometry: primitives, their bounding volumes, and the results of
//! intersecting rays with them.

pub mod bbox;
pub mod bvh;
pub mod planar;
pub mod sphere;
pub mod visible;

pub use planar::InfinitePlane;
pub use planar::Tri;
pub use sphere::Sphere;
pub use visible::VisibleHit;
pub use visible::VisibleList;
