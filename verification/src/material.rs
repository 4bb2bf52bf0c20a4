//! Materials: the per-intersection scattering decision.
//!
//! The three kinds form a closed union, dispatched by a `match`, so the
//! hottest path pays no virtual call.

pub mod dielectric;
pub mod lambertian;
pub mod metal;

pub use dielectric::Dielectric;
pub use lambertian::Lambertian;
pub use metal::Metal;

use vstd::prelude::*;

use crate::color::cbounded;
use crate::color::Color;
use crate::fixed::SCALE;
use crate::geometry::ray::ray_wf;
use crate::geometry::ray::Ray;
use crate::geometry::Vec3;
use crate::object::visible::hit_wf;
use crate::object::visible::VisibleHit;

verus! {

/// Relies on the standard library's `Arc::clone`: the clone is a new
/// handle to the very same shared value.
#[verifier::external_body]
pub fn share<T>(v: &std::sync::Arc<T>) -> (res: std::sync::Arc<T>)
    ensures
        res == *v,
{
    std::sync::Arc::clone(v)
}

/// One of the supported materials.
pub enum Material {
    Lambertian(Lambertian),
    Metal(Metal),
    Dielectric(Dielectric),
}

/// The parameter ranges every stored material satisfies: albedos never
/// amplify a channel, fuzz is a fraction, and the refraction index is
/// near the physical range.
pub open spec fn mat_wf(m: Material) -> bool {
    match m {
        Material::Lambertian(l) => cbounded(l.albedo, SCALE as int),
        Material::Metal(mt) => cbounded(mt.albedo, SCALE as int) && 0 <= mt.fuzz <= SCALE,
        Material::Dielectric(d) => 250000 <= d.ior <= 4 * SCALE,
    }
}

impl Material {
    /// Scatters an incoming ray at a hit: either an outgoing ray with the
    /// energy attenuation it carries, or absorption. Whatever the random
    /// draws were, a scattered ray starts at the hit point, stays within
    /// the coordinate bounds, and its attenuation never exceeds full
    /// intensity on any channel; each kind of material keeps its own
    /// scattering rule.
    pub fn scatter(&self, rng: &mut rand::rngs::StdRng, r: Ray, hit: &VisibleHit) -> (res: Option<
        (Ray, Color),
    >)
        requires
            mat_wf(*self),
            ray_wf(r),
            hit_wf(*hit),
        ensures
            match res {
                Some((scattered, attenuation)) => ray_wf(scattered) && cbounded(
                    attenuation,
                    SCALE as int,
                ) && scattered.origin == hit.point,
                None => true,
            },
            (*self) is Lambertian ==> res is Some,
            (*self) is Dielectric ==> (res is Some <==> crate::geometry::vec3::len_sq_spec(
                r.direction,
            ) >= 250000),
            (*self) is Metal && crate::material::metal::metal_reflection_blocked(r, *hit)
                ==> res is None,
            (*self) is Metal && crate::material::metal::metal_reflection_small(r, *hit) ==> (
            res is Some <==> !crate::material::metal::metal_reflection_blocked(r, *hit)),
            match res {
                Some((scattered, attenuation)) => match *self {
                    Material::Lambertian(l) => attenuation == l.albedo && exists|u: Vec3<i64>|
                        crate::geometry::vec3::vbounded(u, 3 * SCALE) && scattered.direction
                            == crate::material::lambertian::lambertian_dir_spec(hit.normal, u),
                    Material::Metal(m) => attenuation == m.albedo,
                    Material::Dielectric(d) => attenuation.0 == (Vec3 {
                        x: SCALE as i64,
                        y: SCALE as i64,
                        z: SCALE as i64,
                    }) && crate::material::dielectric::scatter_direction_ok(d, r, *hit, scattered),
                },
                None => true,
            },
    {
        match self {
            Material::Lambertian(l) => l.scatter(rng, r, hit),
            Material::Metal(mt) => mt.scatter(rng, r, hit),
            Material::Dielectric(d) => d.scatter(rng, r, hit),
        }
    }
}

} // verus!
