//! The refractive material.

use vstd::prelude::*;
use vstd::arithmetic::div_mod::lemma_fundamental_div_mod_converse;

use crate::color::Color;
use crate::fixed::fdiv;
use crate::fixed::fdiv_spec;
use crate::fixed::fmul;
use crate::fixed::fmul_spec;
use crate::fixed::fsqrt;
use crate::fixed::iabs;
use crate::fixed::lemma_abs_mul;
use crate::fixed::lemma_div_antitone;
use crate::fixed::lemma_div_le;
use crate::fixed::lemma_fmul_bound_scaled;
use crate::fixed::lemma_mul_le;
use crate::fixed::lemma_root_lt;
use crate::fixed::lemma_sqrt_val;
use crate::fixed::SCALE;
use crate::geometry::ray::ray_wf;
use crate::geometry::ray::Ray;
use crate::geometry::vec3::lemma_dot_bound_scaled;
use crate::geometry::vec3::len_spec;
use crate::geometry::vec3::len_sq_spec;
use crate::geometry::vec3::refract_spec;
use crate::geometry::vec3::reflect_spec;
use crate::geometry::vec3::Vec3;
use crate::object::visible::hit_wf;
use crate::object::visible::VisibleHit;
use crate::rng::rand_range;

verus! {

/// The incoming direction, normalized by its truncated length.
pub open spec fn dielectric_unit_dir(r: Ray) -> Vec3<i64> {
    Vec3 {
        x: fdiv_spec(r.direction.x as int, len_spec(r.direction)) as i64,
        y: fdiv_spec(r.direction.y as int, len_spec(r.direction)) as i64,
        z: fdiv_spec(r.direction.z as int, len_spec(r.direction)) as i64,
    }
}

/// The refraction ratio for the struck side: the reciprocal of the
/// index when the ray enters the front face, the index itself when it
/// leaves through the back.
pub open spec fn dielectric_eta(d: Dielectric, hit: VisibleHit) -> int {
    if hit.front_face {
        fdiv_spec(SCALE as int, d.ior as int)
    } else {
        d.ior as int
    }
}

/// Total internal reflection: the refraction ratio times the sine of
/// the incidence angle passes one, so no refracted direction exists.
pub open spec fn dielectric_tir(d: Dielectric, r: Ray, hit: VisibleHit) -> bool {
    let u = dielectric_unit_dir(r);
    let minus_u = Vec3 { x: (-u.x) as i64, y: (-u.y) as i64, z: (-u.z) as i64 };
    let dc = crate::geometry::vec3::dot_spec(hit.normal, minus_u);
    let cos = if dc <= SCALE {
        dc
    } else {
        SCALE as int
    };
    let sin = crate::fixed::sqrt_spec(crate::fixed::iabs(SCALE - fmul_spec(cos, cos)) * SCALE);
    fmul_spec(dielectric_eta(d, hit), sin) > SCALE
}

/// The scattered direction is exactly the reflection or the refraction
/// of the normalized incoming direction about the struck normal, with
/// the refraction ratio the stored index gives for the struck side;
/// under total internal reflection it is always the reflection.
pub open spec fn scatter_direction_ok(d: Dielectric, r: Ray, hit: VisibleHit, scattered: Ray) -> bool {
    let u = dielectric_unit_dir(r);
    let eta = dielectric_eta(d, hit);
    let (rx, ry, rz) = reflect_spec(u, hit.normal);
    let (tx, ty, tz) = refract_spec(u, hit.normal, eta);
    let reflects = scattered.direction.x == rx && scattered.direction.y == ry
        && scattered.direction.z == rz;
    let refracts = scattered.direction.x == tx && scattered.direction.y == ty
        && scattered.direction.z == tz;
    &&& reflects || refracts
    &&& dielectric_tir(d, r, hit) ==> reflects
}

/// A clear refractive surface, like glass: light passes through or
/// reflects, but is never absorbed or tinted.
pub struct Dielectric {
    pub ior: i64,
}

impl Dielectric {
    pub fn new(index_of_refraction: i64) -> (m: Dielectric)
        requires
            250000 <= index_of_refraction <= 4 * SCALE,
        ensures
            m.ior == index_of_refraction,
    {
        Self { ior: index_of_refraction }
    }

    /// Computes the Schlick approximation of the reflectance of the
    /// material at an angle.
    fn reflectance(cosine: i64, ref_idx: i64) -> (r: i64)
        requires
            -18 * SCALE <= cosine <= SCALE,
            250000 <= ref_idx <= 4 * SCALE,
        ensures
            ({
                let r0 = fdiv_spec(SCALE - ref_idx, SCALE + ref_idx);
                let r0sq = fmul_spec(r0, r0);
                let p = SCALE - cosine;
                let p5 = fmul_spec(
                    fmul_spec(fmul_spec(p, p), fmul_spec(p, p)),
                    p,
                );
                r == r0sq + fmul_spec(SCALE - r0sq, p5)
            }),
    {
        proof {
            lemma_abs_mul((SCALE - ref_idx) as int, SCALE as int);
            lemma_div_le(iabs((SCALE - ref_idx) as int * SCALE), (SCALE + ref_idx) as int);
            lemma_div_antitone(
                iabs((SCALE - ref_idx) as int * SCALE),
                SCALE as int,
                (SCALE + ref_idx) as int,
            );
            lemma_mul_le((SCALE - ref_idx) as int, SCALE as int, 3 * SCALE, SCALE as int);
            crate::fixed::lemma_scale_cancel(3 * SCALE);
            crate::fixed::lemma_div_mono(
                iabs((SCALE - ref_idx) as int * SCALE),
                3 * SCALE * SCALE,
                SCALE as int,
            );
            assert(3 * SCALE * SCALE == SCALE * (3 * SCALE)) by (nonlinear_arith);
        }
        let r0 = fdiv(SCALE - ref_idx, SCALE + ref_idx);
        proof {
            lemma_fmul_bound_scaled(r0 as int, r0 as int, 3, 3);
        }
        let r0sq = fmul(r0, r0);
        let p = SCALE - cosine;
        proof {
            lemma_fmul_bound_scaled(p as int, p as int, 19, 19);
            lemma_fmul_bound_scaled(
                fmul_spec(p as int, p as int),
                fmul_spec(p as int, p as int),
                361,
                361,
            );
            lemma_fmul_bound_scaled(
                fmul_spec(fmul_spec(p as int, p as int), fmul_spec(p as int, p as int)),
                p as int,
                130321,
                19,
            );
            lemma_fmul_bound_scaled(
                (SCALE - r0sq) as int,
                fmul_spec(
                    fmul_spec(fmul_spec(p as int, p as int), fmul_spec(p as int, p as int)),
                    p as int,
                ),
                10,
                2476099,
            );
        }
        let p2 = fmul(p, p);
        let p4 = fmul(p2, p2);
        let p5 = fmul(p4, p);
        r0sq + fmul(SCALE - r0sq, p5)
    }

    /// Refracts or reflects the incoming direction, deciding by total
    /// internal reflection and a random draw against the Schlick
    /// reflectance; glass never absorbs, so only a degenerate incoming
    /// direction — one too short to normalize — fails to scatter.
    pub fn scatter(&self, rng: &mut rand::rngs::StdRng, r: Ray, hit: &VisibleHit) -> (res: Option<
        (Ray, Color),
    >)
        requires
            250000 <= self.ior <= 4 * SCALE,
            ray_wf(r),
            hit_wf(*hit),
        ensures
            res is Some <==> len_sq_spec(r.direction) >= 250000,
            match res {
                Some((scattered, attenuation)) => attenuation.0 == (Vec3 {
                    x: SCALE as i64,
                    y: SCALE as i64,
                    z: SCALE as i64,
                }) && scattered.origin == hit.point && ray_wf(scattered)
                    && crate::color::cbounded(attenuation, SCALE as int)
                    && scatter_direction_ok(*self, r, *hit, scattered),
                None => true,
            },
    {
        let attenuation = Color::white();

        let dir_len_sq = r.direction().len_sq();
        if dir_len_sq < 250000 {
            // Too short to normalize meaningfully: the path dies here.
            return None;
        }

        proof {
            lemma_div_le(SCALE as int * SCALE, self.ior as int);
            lemma_div_antitone(SCALE as int * SCALE, 250000, self.ior as int);
            lemma_fundamental_div_mod_converse(1000000000000, 250000, 4000000, 0);
            lemma_div_antitone(SCALE as int * SCALE, self.ior as int, 4 * SCALE);
            lemma_fundamental_div_mod_converse(1000000000000, 4000000, 250000, 0);
        }
        let eta_ratio = if hit.front_face {
            fdiv(SCALE, self.ior)
        } else {
            self.ior
        };

        let unit_dir = r.direction().unit();
        let minus_unit = Vec3::new(-unit_dir.x, -unit_dir.y, -unit_dir.z);
        proof {
            lemma_dot_bound_scaled(hit.normal, minus_unit, 2, 3);
        }
        let d = hit.normal.dot(minus_unit);
        let cos_theta = if d <= SCALE {
            d
        } else {
            SCALE
        };
        proof {
            lemma_fmul_bound_scaled(cos_theta as int, cos_theta as int, 18, 18);
        }
        let cos_sq = fmul(cos_theta, cos_theta);
        let shortfall = SCALE - cos_sq;
        let mag = if shortfall >= 0 {
            shortfall
        } else {
            -shortfall
        };
        let sin_theta = fsqrt(mag);
        proof {
            lemma_sqrt_val(mag as int * SCALE, sin_theta as int);
            lemma_mul_le(mag as int, SCALE as int, 325 * SCALE, SCALE as int);
            assert((19 * SCALE) * (19 * SCALE) > 325 * SCALE * SCALE) by (nonlinear_arith)
                requires
                    SCALE == 1000000,
            ;
            lemma_root_lt(sin_theta as int, mag as int * SCALE, 19 * SCALE);
            lemma_fmul_bound_scaled(eta_ratio as int, sin_theta as int, 4, 19);
        }
        let cannot_refract = fmul(eta_ratio, sin_theta) > SCALE;

        let reflectance = Dielectric::reflectance(cos_theta, eta_ratio);
        let draw = rand_range(rng, 0, SCALE);

        proof {
            assert((SCALE as int) / 4 == 250000);
            lemma_dot_bound_scaled(unit_dir, hit.normal, 3, 2);
            lemma_fmul_bound_scaled(
                hit.normal.x as int,
                2 * crate::geometry::vec3::dot_spec(unit_dir, hit.normal),
                2,
                36,
            );
            lemma_fmul_bound_scaled(
                hit.normal.y as int,
                2 * crate::geometry::vec3::dot_spec(unit_dir, hit.normal),
                2,
                36,
            );
            lemma_fmul_bound_scaled(
                hit.normal.z as int,
                2 * crate::geometry::vec3::dot_spec(unit_dir, hit.normal),
                2,
                36,
            );
        }
        let scatter_dir = if cannot_refract || reflectance > draw {
            unit_dir.reflect(hit.normal)
        } else {
            unit_dir.refract(hit.normal, eta_ratio)
        };

        let scattered = Ray::new(hit.point, scatter_dir);

        Some((scattered, attenuation))
    }
}

} // verus!
