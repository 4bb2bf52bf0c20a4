//! The specular material.

use vstd::prelude::*;

use crate::color::cbounded;
use crate::color::Color;
use crate::fixed::clamp;
use crate::fixed::fmul;
use crate::fixed::fmul_spec;
use crate::fixed::iabs;
use crate::fixed::lemma_fmul_bound_scaled;
use crate::fixed::SCALE;
use crate::geometry::ray::ray_wf;
use crate::geometry::ray::Ray;
use crate::geometry::vec3::dot_spec;
use crate::geometry::vec3::lemma_dot_bound_scaled;
use crate::geometry::vec3::reflect_spec;
use crate::geometry::vec3::vbounded;
use crate::geometry::vec3::Vec3;
use crate::geometry::vec3::WORLD_MAX;
use crate::object::visible::hit_wf;
use crate::object::visible::VisibleHit;

verus! {

/// The reflection of the incoming ray points into the surface: its dot
/// product with the struck normal is not positive, so the metal absorbs
/// the path.
pub open spec fn metal_reflection_blocked(r: Ray, hit: VisibleHit) -> bool {
    let (rx, ry, rz) = reflect_spec(r.direction, hit.normal);
    fmul_spec(rx, hit.normal.x as int) + fmul_spec(ry, hit.normal.y as int) + fmul_spec(
        rz,
        hit.normal.z as int,
    ) <= 0
}

/// The reflection leaves a fuzz-width margin inside the coordinate
/// bounds, so no perturbed direction can step outside them.
pub open spec fn metal_reflection_small(r: Ray, hit: VisibleHit) -> bool {
    let (rx, ry, rz) = reflect_spec(r.direction, hit.normal);
    iabs(rx) <= WORLD_MAX - SCALE && iabs(ry) <= WORLD_MAX - SCALE && iabs(rz) <= WORLD_MAX - SCALE
}

/// A mirror-like surface with a fuzz factor blurring its reflections.
pub struct Metal {
    pub albedo: Color,
    pub fuzz: i64,
}

impl Metal {
    pub fn new(albedo: Color, fuzz: i64) -> (m: Metal)
        requires
            cbounded(albedo, SCALE as int),
        ensures
            m.albedo == albedo,
            m.fuzz == if fuzz > SCALE {
                SCALE as i64
            } else if fuzz < 0 {
                0i64
            } else {
                fuzz
            },
            0 <= m.fuzz <= SCALE,
    {
        Metal { albedo, fuzz: clamp(fuzz, 0, SCALE) }
    }

    /// Reflects the incoming direction about the normal and perturbs it
    /// by the fuzz factor. A reflection that points into the surface is
    /// absorbed, as is one whose coordinates left the representable
    /// range.
    pub fn scatter(&self, rng: &mut rand::rngs::StdRng, r: Ray, hit: &VisibleHit) -> (res: Option<
        (Ray, Color),
    >)
        requires
            cbounded(self.albedo, SCALE as int),
            0 <= self.fuzz <= SCALE,
            ray_wf(r),
            hit_wf(*hit),
        ensures
            match res {
                Some((scattered, attenuation)) => {
                    let (rx, ry, rz) = reflect_spec(r.direction, hit.normal);
                    &&& attenuation == self.albedo
                    &&& cbounded(attenuation, SCALE as int)
                    &&& scattered.origin == hit.point
                    &&& ray_wf(scattered)
                    &&& !metal_reflection_blocked(r, *hit)
                    &&& exists|u: Vec3<i64>|
                        vbounded(u, SCALE as int) && scattered.direction == (Vec3 {
                            x: (rx + fmul_spec(self.fuzz as int, u.x as int)) as i64,
                            y: (ry + fmul_spec(self.fuzz as int, u.y as int)) as i64,
                            z: (rz + fmul_spec(self.fuzz as int, u.z as int)) as i64,
                        })
                },
                None => true,
            },
            metal_reflection_blocked(r, *hit) ==> res is None,
            metal_reflection_small(r, *hit) ==> (res is Some <==> !metal_reflection_blocked(
                r,
                *hit,
            )),
    {
        proof {
            lemma_dot_bound_scaled(r.direction, hit.normal, 2148, 2);
            lemma_fmul_bound_scaled(
                hit.normal.x as int,
                2 * dot_spec(r.direction, hit.normal),
                2,
                25776,
            );
            lemma_fmul_bound_scaled(
                hit.normal.y as int,
                2 * dot_spec(r.direction, hit.normal),
                2,
                25776,
            );
            lemma_fmul_bound_scaled(
                hit.normal.z as int,
                2 * dot_spec(r.direction, hit.normal),
                2,
                25776,
            );
        }
        let reflected = r.direction().reflect(hit.normal);
        let sample = Vec3::random_in_unit_sphere(rng);
        proof {
            lemma_fmul_bound_scaled(self.fuzz as int, sample.x as int, 1, 1);
            lemma_fmul_bound_scaled(self.fuzz as int, sample.y as int, 1, 1);
            lemma_fmul_bound_scaled(self.fuzz as int, sample.z as int, 1, 1);
        }
        let scattered_dir = Vec3::new(
            reflected.x + fmul(self.fuzz, sample.x),
            reflected.y + fmul(self.fuzz, sample.y),
            reflected.z + fmul(self.fuzz, sample.z),
        );

        let in_world = reflected.x <= WORLD_MAX && reflected.x >= -WORLD_MAX && reflected.y
            <= WORLD_MAX && reflected.y >= -WORLD_MAX && reflected.z <= WORLD_MAX && reflected.z
            >= -WORLD_MAX && scattered_dir.x <= WORLD_MAX && scattered_dir.x >= -WORLD_MAX
            && scattered_dir.y <= WORLD_MAX && scattered_dir.y >= -WORLD_MAX && scattered_dir.z
            <= WORLD_MAX && scattered_dir.z >= -WORLD_MAX;
        if !in_world {
            return None;
        }

        let scattered = Ray::new(hit.point, scattered_dir);
        let attenuation = self.albedo;

        if reflected.dot(hit.normal) > 0 {
            proof {
                assert(vbounded(sample, SCALE as int) && scattered.direction == (Vec3 {
                    x: (reflected.x + fmul_spec(self.fuzz as int, sample.x as int)) as i64,
                    y: (reflected.y + fmul_spec(self.fuzz as int, sample.y as int)) as i64,
                    z: (reflected.z + fmul_spec(self.fuzz as int, sample.z as int)) as i64,
                }));
            }
            Some((scattered, attenuation))
        } else {
            None
        }
    }
}

} // verus!
