//! The diffuse material.

use vstd::prelude::*;

use crate::color::cbounded;
use crate::geometry::vec3::near_zero_spec;
use crate::geometry::vec3::vbounded;
use crate::color::Color;
use crate::fixed::SCALE;
use crate::geometry::ray::ray_wf;
use crate::geometry::ray::Ray;
use crate::geometry::vec3::Vec3;
use crate::object::visible::hit_wf;
use crate::object::visible::VisibleHit;

verus! {

/// The diffuse scatter direction: the surface normal plus a bounded
/// draw, or the normal alone when the sum cancels below the resolution.
pub open spec fn lambertian_dir_spec(n: Vec3<i64>, u: Vec3<i64>) -> Vec3<i64> {
    let s = Vec3 { x: (n.x + u.x) as i64, y: (n.y + u.y) as i64, z: (n.z + u.z) as i64 };
    if near_zero_spec(s) {
        n
    } else {
        s
    }
}

/// A diffuse surface: scatters into a random direction near the normal
/// and attenuates by its albedo.
pub struct Lambertian {
    pub albedo: Color,
}

impl Lambertian {
    pub fn new(albedo: Color) -> (m: Lambertian)
        requires
            cbounded(albedo, SCALE as int),
        ensures
            m.albedo == albedo,
    {
        Self { albedo }
    }

    /// Always scatters: the direction is the surface normal plus a random
    /// unit vector, or the normal alone when the sum cancels away; the
    /// attenuation is the albedo.
    pub fn scatter(&self, rng: &mut rand::rngs::StdRng, _r: Ray, hit: &VisibleHit) -> (res: Option<
        (Ray, Color),
    >)
        requires
            cbounded(self.albedo, SCALE as int),
            hit_wf(*hit),
        ensures
            match res {
                Some((scattered, attenuation)) => attenuation == self.albedo && ray_wf(scattered)
                    && scattered.origin == hit.point && cbounded(attenuation, SCALE as int)
                    && exists|u: Vec3<i64>|
                        vbounded(u, 3 * SCALE) && scattered.direction == lambertian_dir_spec(
                            hit.normal,
                            u,
                        ),
                None => false,
            },
    {
        let bounce = Vec3::random_unit(rng);
        let scatter_dir = hit.normal + bounce;
        let scattered = if scatter_dir.near_zero() {
            // A canceled direction would make the ray degenerate.
            Ray::new(hit.point, hit.normal)
        } else {
            Ray::new(hit.point, scatter_dir)
        };

        let attenuation = self.albedo;

        proof {
            assert(vbounded(bounce, 3 * SCALE) && scattered.direction == lambertian_dir_spec(
                hit.normal,
                bounce,
            ));
        }
        Some((scattered, attenuation))
    }
}

} // verus!
