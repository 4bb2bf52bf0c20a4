//! The sphere primitive and its ray intersection.

use vstd::prelude::*;

use std::sync::Arc;

use crate::fixed::div_t;
use crate::fixed::fdiv;
use crate::fixed::fdiv_spec;
use crate::fixed::fmul;
use crate::fixed::fmul_spec;
use crate::fixed::iabs;
use crate::fixed::isqrt;
use crate::fixed::lemma_fmul_bound;
use crate::fixed::lemma_mul_le;
use crate::fixed::lemma_root_lt;
use crate::fixed::lemma_sqrt_val;
use crate::fixed::lemma_tdiv_le;
use crate::fixed::sqrt_spec;
use crate::fixed::tdiv;
use crate::fixed::SCALE;
use crate::geometry::ray::at_spec;
use crate::geometry::ray::ray_wf;
use crate::geometry::ray::Ray;
use crate::geometry::ray::T_MAX;
use crate::geometry::vec3::dot_spec;
use crate::geometry::vec3::len_sq_spec;
use crate::geometry::vec3::Vec3;
use crate::geometry::vec3::WORLD_MAX;
use crate::geometry::Point;
use crate::material::mat_wf;
use crate::material::Material;
use crate::object::bbox::box_wf;
use crate::object::bbox::BoundingBox;
use crate::object::bbox::Span;
use crate::object::visible::hit_wf;
use crate::object::visible::VisibleHit;
use crate::object::visible::NORMAL_MAX;

verus! {

/// A sphere: a center, a radius and the material of its surface.
pub struct Sphere {
    pub center: Point<i64>,
    pub radius: i64,
    pub material: Arc<Material>,
}

/// A stored sphere has a positive radius and fits inside the world
/// bounds, and its material parameters are in range.
pub open spec fn sphere_wf(s: Sphere) -> bool {
    &&& 1 <= s.radius <= WORLD_MAX
    &&& iabs(s.center.0.x as int) + s.radius <= WORLD_MAX
    &&& iabs(s.center.0.y as int) + s.radius <= WORLD_MAX
    &&& iabs(s.center.0.z as int) + s.radius <= WORLD_MAX
    &&& mat_wf(*s.material)
}

/// The tight axis-aligned box around the sphere: the center offset by
/// the radius on each axis.
pub open spec fn sphere_bbox_spec(s: Sphere) -> BoundingBox {
    BoundingBox {
        x: Span {
            start: (s.center.0.x - s.radius) as i64,
            end: (s.center.0.x + s.radius) as i64,
        },
        y: Span {
            start: (s.center.0.y - s.radius) as i64,
            end: (s.center.0.y + s.radius) as i64,
        },
        z: Span {
            start: (s.center.0.z - s.radius) as i64,
            end: (s.center.0.z + s.radius) as i64,
        },
    }
}

/// The vector from the sphere's center to the ray's origin.
pub open spec fn sphere_offset(s: Sphere, r: Ray) -> Vec3<i64> {
    Vec3 {
        x: (r.origin.0.x - s.center.0.x) as i64,
        y: (r.origin.0.y - s.center.0.y) as i64,
        z: (r.origin.0.z - s.center.0.z) as i64,
    }
}

/// The coefficients of the intersection quadratic `a t^2 + 2 half_b t + c`.
pub open spec fn sphere_quadratic(s: Sphere, r: Ray) -> (int, int, int) {
    let offset = sphere_offset(s, r);
    (
        len_sq_spec(r.direction),
        dot_spec(r.direction, offset),
        len_sq_spec(offset) - fmul_spec(s.radius as int, s.radius as int),
    )
}

/// The parameter at which the ray strikes the sphere within the queried
/// interval: the smaller quadratic root if it qualifies, else the larger,
/// else nothing. A root past the representable parameter range does not
/// qualify, nor does any root of a ray with a degenerate direction.
pub open spec fn sphere_root_spec(s: Sphere, r: Ray, tmin: int, tmax: int) -> Option<int> {
    let (a, half_b, c) = sphere_quadratic(s, r);
    let disc = half_b * half_b - a * c;
    if a == 0 || disc < 0 {
        None
    } else {
        let sq = sqrt_spec(disc);
        let minus = tdiv((-half_b - sq) * SCALE, a);
        let plus = tdiv((-half_b + sq) * SCALE, a);
        if tmin <= minus < tmax && iabs(minus) <= T_MAX {
            Some(minus)
        } else if tmin <= plus < tmax && iabs(plus) <= T_MAX {
            Some(plus)
        } else {
            None
        }
    }
}

/// One component of the point the ray reaches at parameter `t`.
pub open spec fn sphere_point_at(s: Sphere, r: Ray, t: int, axis: int) -> int {
    if axis == 0 {
        at_spec(r.origin.0.x as int, r.direction.x as int, t)
    } else if axis == 1 {
        at_spec(r.origin.0.y as int, r.direction.y as int, t)
    } else {
        at_spec(r.origin.0.z as int, r.direction.z as int, t)
    }
}

/// One component of the outward normal at parameter `t`: the offset from
/// the center, divided by the radius.
pub open spec fn sphere_normal_at(s: Sphere, r: Ray, t: int, axis: int) -> int {
    let c = if axis == 0 {
        s.center.0.x as int
    } else if axis == 1 {
        s.center.0.y as int
    } else {
        s.center.0.z as int
    };
    fdiv_spec(sphere_point_at(s, r, t, axis) - c, s.radius as int)
}

/// The struck point and its normal are representable: the point lies in
/// the world bounds and the normal within the normal bounds.
pub open spec fn sphere_hit_ok(s: Sphere, r: Ray, t: int) -> bool {
    &&& iabs(sphere_point_at(s, r, t, 0)) <= WORLD_MAX
    &&& iabs(sphere_point_at(s, r, t, 1)) <= WORLD_MAX
    &&& iabs(sphere_point_at(s, r, t, 2)) <= WORLD_MAX
    &&& iabs(sphere_normal_at(s, r, t, 0)) <= NORMAL_MAX
    &&& iabs(sphere_normal_at(s, r, t, 1)) <= NORMAL_MAX
    &&& iabs(sphere_normal_at(s, r, t, 2)) <= NORMAL_MAX
}

/// Where the ray strikes the sphere, if it does so representably.
pub open spec fn sphere_bounce_spec(s: Sphere, r: Ray, tmin: int, tmax: int) -> Option<int> {
    match sphere_root_spec(s, r, tmin, tmax) {
        None => None,
        Some(t) => if sphere_hit_ok(s, r, t) {
            Some(t)
        } else {
            None
        },
    }
}

/// Shrinking the upper end of the queried interval loses nothing: a hit
/// found under the shrunk interval is the full interval's hit as well,
/// and a miss under the shrunk interval means the full interval's hit,
/// if any, lies at or past the shrunk end.
pub proof fn lemma_sphere_bounce_narrow(s: Sphere, r: Ray, tmin: int, u: int, tmax: int)
    requires
        u <= tmax,
    ensures
        match sphere_bounce_spec(s, r, tmin, u) {
            Some(t) => sphere_bounce_spec(s, r, tmin, tmax) == Some(t),
            None => sphere_bounce_spec(s, r, tmin, tmax) is None || sphere_bounce_spec(
                s,
                r,
                tmin,
                tmax,
            )->Some_0 >= u,
        },
{
    let (a, half_b, c) = sphere_quadratic(s, r);
    let disc = half_b * half_b - a * c;
    if a != 0 && disc >= 0 {
        crate::fixed::lemma_fsq_nonneg(r.direction.x as int);
        crate::fixed::lemma_fsq_nonneg(r.direction.y as int);
        crate::fixed::lemma_fsq_nonneg(r.direction.z as int);
        crate::fixed::lemma_sqrt_props(disc);
        let sq = sqrt_spec(disc);
        assert((-half_b - sq) * SCALE <= (-half_b + sq) * SCALE) by (nonlinear_arith)
            requires
                sq >= 0,
                SCALE >= 1,
        ;
        crate::fixed::lemma_tdiv_mono((-half_b - sq) * SCALE, (-half_b + sq) * SCALE, a);
    }
}

/// Past the representable parameter range the query interval stops
/// mattering: every admissible hit lies at or below the parameter cap.
pub proof fn lemma_sphere_bounce_saturated(s: Sphere, r: Ray, tmin: int, u: int)
    requires
        u >= T_MAX + 1,
    ensures
        sphere_bounce_spec(s, r, tmin, u) == sphere_bounce_spec(s, r, tmin, T_MAX + 1),
{
}

impl Sphere {
    pub fn new(center: Point<i64>, radius: i64, material: Arc<Material>) -> (s: Sphere)
        requires
            1 <= radius <= WORLD_MAX,
            iabs(center.0.x as int) + radius <= WORLD_MAX,
            iabs(center.0.y as int) + radius <= WORLD_MAX,
            iabs(center.0.z as int) + radius <= WORLD_MAX,
            mat_wf(*material),
        ensures
            s.center == center,
            s.radius == radius,
            s.material == material,
            sphere_wf(s),
    {
        Sphere { center, radius, material }
    }

    /// The tight box around the sphere: the center offset by the radius
    /// on each axis.
    pub fn bbox(&self) -> (b: BoundingBox)
        requires
            sphere_wf(*self),
        ensures
            b == sphere_bbox_spec(*self),
            b.x == (Span {
                start: (self.center.0.x - self.radius) as i64,
                end: (self.center.0.x + self.radius) as i64,
            }),
            b.y == (Span {
                start: (self.center.0.y - self.radius) as i64,
                end: (self.center.0.y + self.radius) as i64,
            }),
            b.z == (Span {
                start: (self.center.0.z - self.radius) as i64,
                end: (self.center.0.z + self.radius) as i64,
            }),
            box_wf(b),
    {
        BoundingBox::new(
            Span { start: self.center.0.x - self.radius, end: self.center.0.x + self.radius },
            Span { start: self.center.0.y - self.radius, end: self.center.0.y + self.radius },
            Span { start: self.center.0.z - self.radius, end: self.center.0.z + self.radius },
        )
    }

    /// The size heuristic of the sphere, proportional to the square of
    /// its radius.
    pub fn surface_area(&self) -> (r: i64)
        requires
            sphere_wf(*self),
        ensures
            r == 4 * fmul_spec(self.radius as int, self.radius as int),
    {
        proof {
            lemma_fmul_bound(
                self.radius as int,
                self.radius as int,
                WORLD_MAX as int,
                WORLD_MAX as int,
            );
            crate::fixed::lemma_fsq_nonneg(self.radius as int);
        }
        4 * fmul(self.radius, self.radius)
    }

    /// The centroid of the sphere is its center.
    pub fn centroid(&self) -> (c: Point<i64>)
        ensures
            c == self.center,
    {
        self.center
    }

    /// Intersects the ray with the sphere over the half-open parameter
    /// interval, preferring the nearer quadratic root.
    pub fn bounce(&self, r: Ray, tmin: i64, tmax: i64) -> (res: Option<VisibleHit>)
        requires
            sphere_wf(*self),
            ray_wf(r),
        ensures
            match res {
                Some(h) => {
                    &&& sphere_bounce_spec(*self, r, tmin as int, tmax as int) == Some(h.t as int)
                    &&& h.point.0.x == sphere_point_at(*self, r, h.t as int, 0)
                    &&& h.point.0.y == sphere_point_at(*self, r, h.t as int, 1)
                    &&& h.point.0.z == sphere_point_at(*self, r, h.t as int, 2)
                    &&& h.material == self.material
                    &&& ({
                        let n = Vec3 {
                            x: sphere_normal_at(*self, r, h.t as int, 0) as i64,
                            y: sphere_normal_at(*self, r, h.t as int, 1) as i64,
                            z: sphere_normal_at(*self, r, h.t as int, 2) as i64,
                        };
                        &&& h.front_face == (dot_spec(r.direction, n) < 0)
                        &&& h.normal == if h.front_face {
                            n
                        } else {
                            Vec3 { x: (-n.x) as i64, y: (-n.y) as i64, z: (-n.z) as i64 }
                        }
                    })
                    &&& hit_wf(h)
                },
                None => sphere_bounce_spec(*self, r, tmin as int, tmax as int) is None,
            },
    {
        let direction = r.direction();
        let ray_origin = r.origin();

        let offset = Vec3::new(
            ray_origin.0.x - self.center.0.x,
            ray_origin.0.y - self.center.0.y,
            ray_origin.0.z - self.center.0.z,
        );

        proof {
            lemma_fmul_bound(
                self.radius as int,
                self.radius as int,
                WORLD_MAX as int,
                WORLD_MAX as int,
            );
            crate::fixed::lemma_fsq_nonneg(self.radius as int);
        }
        let a = direction.len_sq();
        let half_b = direction.dot(offset);
        let c = offset.len_sq() - fmul(self.radius, self.radius);

        if a == 0 {
            return None;
        }
        proof {
            lemma_mul_le(half_b as int, half_b as int, 0x200_0000_0000_0000, 0x200_0000_0000_0000);
            lemma_mul_le(a as int, c as int, 0x200_0000_0000_0000, 0x200_0000_0000_0000);
        }
        let disc: i128 = (half_b as i128) * (half_b as i128) - (a as i128) * (c as i128);
        if disc < 0 {
            return None;
        }

        let sq_u = isqrt(disc as u128);
        proof {
            lemma_sqrt_val(disc as int, sq_u as int);
            lemma_root_lt(sq_u as int, disc as int, 0x400_0000_0000_0000);
        }
        let sq: i128 = sq_u as i128;

        proof {
            lemma_mul_le(
                -(half_b as int) - sq_u as int,
                SCALE as int,
                0x600_0000_0000_0000,
                SCALE as int,
            );
            lemma_mul_le(
                -(half_b as int) + sq_u as int,
                SCALE as int,
                0x600_0000_0000_0000,
                SCALE as int,
            );
            lemma_tdiv_le((-(half_b as int) - sq_u as int) * SCALE, a as int);
            lemma_tdiv_le((-(half_b as int) + sq_u as int) * SCALE, a as int);
        }
        let minus_root: i128 = div_t((-(half_b as i128) - sq) * (SCALE as i128), a as i128);
        let plus_root: i128 = div_t((-(half_b as i128) + sq) * (SCALE as i128), a as i128);

        let tm = tmin as i128;
        let tx = tmax as i128;
        let bound = T_MAX as i128;

        let root128: i128 = if tm <= minus_root && minus_root < tx && -bound <= minus_root
            && minus_root <= bound {
            minus_root
        } else if tm <= plus_root && plus_root < tx && -bound <= plus_root && plus_root <= bound {
            plus_root
        } else {
            return None;
        };
        let root = root128 as i64;

        let hit_point = r.at(root);
        if hit_point.0.x > WORLD_MAX || hit_point.0.x < -WORLD_MAX || hit_point.0.y > WORLD_MAX
            || hit_point.0.y < -WORLD_MAX || hit_point.0.z > WORLD_MAX || hit_point.0.z
            < -WORLD_MAX {
            return None;
        }

        proof {
            lemma_div_requirements(hit_point.0.x as int, self.center.0.x as int, self.radius as int);
            lemma_div_requirements(hit_point.0.y as int, self.center.0.y as int, self.radius as int);
            lemma_div_requirements(hit_point.0.z as int, self.center.0.z as int, self.radius as int);
        }
        let normal = Vec3::new(
            fdiv(hit_point.0.x - self.center.0.x, self.radius),
            fdiv(hit_point.0.y - self.center.0.y, self.radius),
            fdiv(hit_point.0.z - self.center.0.z, self.radius),
        );
        if normal.x > NORMAL_MAX || normal.x < -NORMAL_MAX || normal.y > NORMAL_MAX || normal.y
            < -NORMAL_MAX || normal.z > NORMAL_MAX || normal.z < -NORMAL_MAX {
            return None;
        }

        Some(VisibleHit::new(r, hit_point, normal, root, crate::material::share(&self.material)))
    }
}

/// The division forming a normal component stays representable.
proof fn lemma_div_requirements(p: int, c: int, radius: int)
    requires
        iabs(p) <= WORLD_MAX as int,
        iabs(c) <= WORLD_MAX as int,
        1 <= radius,
    ensures
        iabs(fdiv_spec(p - c, radius)) <= i64::MAX as int,
{
    lemma_mul_le(p - c, SCALE as int, 2 * WORLD_MAX, SCALE as int);
    lemma_tdiv_le((p - c) * SCALE, radius);
}

} // verus!
