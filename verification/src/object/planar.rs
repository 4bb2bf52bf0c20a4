//! Flat primitives: infinite planes and triangles.

use vstd::prelude::*;

use std::sync::Arc;

use crate::fixed::div_t;
use crate::fixed::fmul;
use crate::fixed::fmul_spec;
use crate::fixed::iabs;
use crate::fixed::isqrt;
use crate::fixed::lemma_div_mono;
use crate::fixed::lemma_fmul_bound;
use vstd::arithmetic::div_mod::lemma_fundamental_div_mod_converse;
use crate::fixed::lemma_mul_le;
use crate::fixed::lemma_root_lt;
use crate::fixed::lemma_sqrt_val;
use crate::fixed::lemma_tdiv_le;
use crate::fixed::sqrt_spec;
use crate::fixed::tdiv;
use crate::fixed::SCALE;
use crate::geometry::ray::at_spec;
use crate::geometry::ray::ray_wf;
use crate::geometry::ray::Ray;
use crate::geometry::ray::T_MAX;
use crate::geometry::vec3::cross_x_spec;
use crate::geometry::vec3::cross_y_spec;
use crate::geometry::vec3::cross_z_spec;
use crate::geometry::vec3::dot_spec;
use crate::geometry::vec3::len_sq_spec;
use crate::geometry::vec3::vbounded;
use crate::geometry::vec3::Vec3;
use crate::geometry::vec3::WORLD_MAX;
use crate::geometry::Point;
use crate::material::mat_wf;
use crate::material::share;
use crate::material::Material;
use crate::object::bbox::box_wf;
use crate::object::bbox::BoundingBox;
use crate::object::bbox::Span;
use crate::object::visible::hit_wf;
use crate::object::visible::VisibleHit;
use crate::object::visible::NORMAL_MAX;

verus! {

/// An unbounded plane: a point on it, its unit normal, and a material.
/// It has no finite bounding box, so it lives outside the acceleration
/// tree.
pub struct InfinitePlane {
    pub normal: Vec3<i64>,
    pub origin: Point<i64>,
    pub material: Arc<Material>,
}

/// A stored plane has a bounded origin, a normalized normal and a
/// well-formed material.
pub open spec fn plane_wf(p: InfinitePlane) -> bool {
    &&& vbounded(p.origin.0, WORLD_MAX as int)
    &&& vbounded(p.normal, NORMAL_MAX as int)
    &&& mat_wf(*p.material)
}

/// The parameter at which a ray crosses the plane, from the plane
/// equation; a parallel ray never crosses.
pub open spec fn plane_raw_t(p: InfinitePlane, r: Ray) -> Option<int> {
    let denom = dot_spec(p.normal, r.direction);
    if denom == 0 {
        None
    } else {
        let diff = Vec3 {
            x: (p.origin.0.x - r.origin.0.x) as i64,
            y: (p.origin.0.y - r.origin.0.y) as i64,
            z: (p.origin.0.z - r.origin.0.z) as i64,
        };
        Some(tdiv(dot_spec(p.normal, diff) * SCALE, denom))
    }
}

/// The crossing point at `t` lies within the world bounds.
pub open spec fn plane_hit_ok(r: Ray, t: int) -> bool {
    &&& iabs(at_spec(r.origin.0.x as int, r.direction.x as int, t)) <= WORLD_MAX
    &&& iabs(at_spec(r.origin.0.y as int, r.direction.y as int, t)) <= WORLD_MAX
    &&& iabs(at_spec(r.origin.0.z as int, r.direction.z as int, t)) <= WORLD_MAX
}

/// Where a ray strikes the plane within the queried interval, if the
/// crossing is representable.
pub open spec fn plane_bounce_spec(p: InfinitePlane, r: Ray, tmin: int, tmax: int) -> Option<int> {
    match plane_raw_t(p, r) {
        None => None,
        Some(t) => if tmin <= t < tmax && iabs(t) <= T_MAX && plane_hit_ok(r, t) {
            Some(t)
        } else {
            None
        },
    }
}

impl InfinitePlane {
    /// Builds a plane from a point on it and any direction out of it at
    /// least one unit long; the direction is normalized.
    pub fn new(origin: Point<i64>, normal: Vec3<i64>, material: Arc<Material>) -> (p:
        InfinitePlane)
        requires
            vbounded(origin.0, WORLD_MAX as int),
            vbounded(normal, WORLD_MAX as int),
            len_sq_spec(normal) >= SCALE,
            mat_wf(*material),
        ensures
            p.origin == origin,
            p.material == material,
            p.normal == (Vec3 {
                x: crate::fixed::fdiv_spec(
                    normal.x as int,
                    crate::geometry::vec3::len_spec(normal),
                ) as i64,
                y: crate::fixed::fdiv_spec(
                    normal.y as int,
                    crate::geometry::vec3::len_spec(normal),
                ) as i64,
                z: crate::fixed::fdiv_spec(
                    normal.z as int,
                    crate::geometry::vec3::len_spec(normal),
                ) as i64,
            }),
            plane_wf(p),
    {
        let normal = normal.unit();
        Self { origin, normal, material }
    }

    /// Intersects the ray with the plane over the half-open parameter
    /// interval.
    pub fn bounce(&self, r: Ray, tmin: i64, tmax: i64) -> (res: Option<VisibleHit>)
        requires
            plane_wf(*self),
            ray_wf(r),
        ensures
            match res {
                Some(h) => {
                    &&& plane_bounce_spec(*self, r, tmin as int, tmax as int) == Some(h.t as int)
                    &&& h.point.0.x == at_spec(r.origin.0.x as int, r.direction.x as int, h.t as int)
                    &&& h.point.0.y == at_spec(r.origin.0.y as int, r.direction.y as int, h.t as int)
                    &&& h.point.0.z == at_spec(r.origin.0.z as int, r.direction.z as int, h.t as int)
                    &&& h.material == self.material
                    &&& h.front_face == (dot_spec(r.direction, self.normal) < 0)
                    &&& h.normal == if h.front_face {
                        self.normal
                    } else {
                        Vec3 {
                            x: (-self.normal.x) as i64,
                            y: (-self.normal.y) as i64,
                            z: (-self.normal.z) as i64,
                        }
                    }
                    &&& hit_wf(h)
                },
                None => plane_bounce_spec(*self, r, tmin as int, tmax as int) is None,
            },
    {
        let denom = self.normal.dot(r.direction());

        // The ray direction is parallel to the plane.
        if denom == 0 {
            return None;
        }

        let diff = Vec3::new(
            self.origin.0.x - r.origin.0.x,
            self.origin.0.y - r.origin.0.y,
            self.origin.0.z - r.origin.0.z,
        );
        proof {
            crate::geometry::vec3::lemma_dot_bound_scaled(self.normal, diff, 2, 4295);
            lemma_mul_le(dot_spec(self.normal, diff), SCALE as int, 25770 * SCALE, SCALE as int);
            lemma_tdiv_le(dot_spec(self.normal, diff) * SCALE, denom as int);
        }
        let numer = self.normal.dot(diff);

        let t128: i128 = div_t((numer as i128) * (SCALE as i128), denom as i128);

        let tm = tmin as i128;
        let tx = tmax as i128;
        let bound = T_MAX as i128;
        if !(tm <= t128 && t128 < tx && -bound <= t128 && t128 <= bound) {
            return None;
        }
        let t = t128 as i64;

        let hit_point = r.at(t);
        if hit_point.0.x > WORLD_MAX || hit_point.0.x < -WORLD_MAX || hit_point.0.y > WORLD_MAX
            || hit_point.0.y < -WORLD_MAX || hit_point.0.z > WORLD_MAX || hit_point.0.z
            < -WORLD_MAX {
            return None;
        }

        Some(VisibleHit::new(r, hit_point, self.normal, t, share(&self.material)))
    }
}

/// A triangle: three vertices, the unit normal of their plane, and a
/// material. A degenerate triangle — one whose vertices are collinear at
/// the stored resolution — never reports a hit.
pub struct Tri {
    pub a: Point<i64>,
    pub b: Point<i64>,
    pub c: Point<i64>,
    pub normal: Vec3<i64>,
    pub degenerate: bool,
    pub material: Arc<Material>,
}

/// The first edge vector of a triangle.
pub open spec fn tri_e1(t: Tri) -> Vec3<i64> {
    Vec3 {
        x: (t.b.0.x - t.a.0.x) as i64,
        y: (t.b.0.y - t.a.0.y) as i64,
        z: (t.b.0.z - t.a.0.z) as i64,
    }
}

/// The second edge vector of a triangle.
pub open spec fn tri_e2(t: Tri) -> Vec3<i64> {
    Vec3 {
        x: (t.c.0.x - t.a.0.x) as i64,
        y: (t.c.0.y - t.a.0.y) as i64,
        z: (t.c.0.z - t.a.0.z) as i64,
    }
}

/// The cross product of the triangle's edges, the unnormalized normal.
pub open spec fn tri_cross(t: Tri) -> (int, int, int) {
    (
        cross_x_spec(tri_e1(t), tri_e2(t)),
        cross_y_spec(tri_e1(t), tri_e2(t)),
        cross_z_spec(tri_e1(t), tri_e2(t)),
    )
}

/// The raw squared magnitude of the edge cross product.
pub open spec fn tri_cross_sq(t: Tri) -> int {
    let (cx, cy, cz) = tri_cross(t);
    cx * cx + cy * cy + cz * cz
}

/// The triangle's vertices are collinear at the stored resolution: the
/// edge cross product is too short to normalize.
pub open spec fn tri_degenerate(t: Tri) -> bool {
    tri_cross_sq(t) < SCALE * SCALE
}

/// One component of the triangle's unit normal.
pub open spec fn tri_normal_comp(t: Tri, c: int) -> int {
    tdiv(c * SCALE, sqrt_spec(tri_cross_sq(t)))
}

/// A stored triangle has bounded vertices, its normal and degeneracy
/// flag agree with its vertices, and its material is well-formed.
pub open spec fn tri_wf(t: Tri) -> bool {
    &&& vbounded(t.a.0, WORLD_MAX as int)
    &&& vbounded(t.b.0, WORLD_MAX as int)
    &&& vbounded(t.c.0, WORLD_MAX as int)
    &&& t.degenerate == tri_degenerate(t)
    &&& if t.degenerate {
        t.normal == (Vec3 { x: 0i64, y: 0i64, z: 0i64 })
    } else {
        t.normal == (Vec3 {
            x: tri_normal_comp(t, tri_cross(t).0) as i64,
            y: tri_normal_comp(t, tri_cross(t).1) as i64,
            z: tri_normal_comp(t, tri_cross(t).2) as i64,
        })
    }
    &&& vbounded(t.normal, NORMAL_MAX as int)
    &&& mat_wf(*t.material)
}

/// The smaller of two scalars.
pub open spec fn smin(a: int, b: int) -> int {
    if a <= b {
        a
    } else {
        b
    }
}

/// The larger of two scalars.
pub open spec fn smax(a: int, b: int) -> int {
    if a >= b {
        a
    } else {
        b
    }
}

/// The tight axis-aligned box around the triangle's vertices: per axis,
/// exactly the smallest and largest vertex coordinates.
pub open spec fn tri_bbox_spec(t: Tri) -> BoundingBox {
    BoundingBox {
        x: Span {
            start: smin(smin(t.a.0.x as int, t.b.0.x as int), t.c.0.x as int) as i64,
            end: smax(smax(t.a.0.x as int, t.b.0.x as int), t.c.0.x as int) as i64,
        },
        y: Span {
            start: smin(smin(t.a.0.y as int, t.b.0.y as int), t.c.0.y as int) as i64,
            end: smax(smax(t.a.0.y as int, t.b.0.y as int), t.c.0.y as int) as i64,
        },
        z: Span {
            start: smin(smin(t.a.0.z as int, t.b.0.z as int), t.c.0.z as int) as i64,
            end: smax(smax(t.a.0.z as int, t.b.0.z as int), t.c.0.z as int) as i64,
        },
    }
}

/// The determinant, barycentric numerators and parameter numerator of
/// the Möller-Trumbore intersection of a ray with the triangle.
pub open spec fn tri_mt(t: Tri, r: Ray) -> (int, int, int, int) {
    let e1 = tri_e1(t);
    let e2 = tri_e2(t);
    let p = Vec3 {
        x: cross_x_spec(r.direction, e2) as i64,
        y: cross_y_spec(r.direction, e2) as i64,
        z: cross_z_spec(r.direction, e2) as i64,
    };
    let tv = Vec3 {
        x: (r.origin.0.x - t.a.0.x) as i64,
        y: (r.origin.0.y - t.a.0.y) as i64,
        z: (r.origin.0.z - t.a.0.z) as i64,
    };
    let q = Vec3 {
        x: cross_x_spec(tv, e1) as i64,
        y: cross_y_spec(tv, e1) as i64,
        z: cross_z_spec(tv, e1) as i64,
    };
    (dot_spec(p, e1), dot_spec(p, tv), dot_spec(q, r.direction), dot_spec(q, e2))
}

/// Where a ray strikes the triangle within the queried interval: the
/// Möller-Trumbore test, double sided, rejecting barycentric coordinates
/// outside the triangle and unrepresentable hits.
pub open spec fn tri_bounce_spec(t: Tri, r: Ray, tmin: int, tmax: int) -> Option<int> {
    let (det, u_num, v_num, t_num) = tri_mt(t, r);
    if tri_degenerate(t) || det == 0 {
        None
    } else {
        let u = tdiv(u_num * SCALE, det);
        let v = tdiv(v_num * SCALE, det);
        let tt = tdiv(t_num * SCALE, det);
        if u < 0 || u > SCALE || v < 0 || u + v > SCALE {
            None
        } else if tmin <= tt < tmax && iabs(tt) <= T_MAX && plane_hit_ok(r, tt) {
            Some(tt)
        } else {
            None
        }
    }
}

/// Shrinking the upper end of the queried interval loses nothing: a hit
/// found under the shrunk interval is the full interval's hit as well,
/// and a miss under the shrunk interval means the full interval's hit,
/// if any, lies at or past the shrunk end.
pub proof fn lemma_tri_bounce_narrow(t: Tri, r: Ray, tmin: int, u: int, tmax: int)
    requires
        u <= tmax,
    ensures
        match tri_bounce_spec(t, r, tmin, u) {
            Some(tt) => tri_bounce_spec(t, r, tmin, tmax) == Some(tt),
            None => tri_bounce_spec(t, r, tmin, tmax) is None || tri_bounce_spec(
                t,
                r,
                tmin,
                tmax,
            )->Some_0 >= u,
        },
{
}

/// Past the representable parameter range the query interval stops
/// mattering: every admissible hit lies at or below the parameter cap.
pub proof fn lemma_tri_bounce_saturated(t: Tri, r: Ray, tmin: int, u: int)
    requires
        u >= T_MAX + 1,
    ensures
        tri_bounce_spec(t, r, tmin, u) == tri_bounce_spec(t, r, tmin, T_MAX + 1),
{
}

impl Tri {
    /// Builds a triangle, normalizing the cross product of its edges
    /// into its plane normal; collinear vertices mark it degenerate.
    pub fn new(a: Point<i64>, b: Point<i64>, c: Point<i64>, material: Arc<Material>) -> (t: Tri)
        requires
            vbounded(a.0, WORLD_MAX as int),
            vbounded(b.0, WORLD_MAX as int),
            vbounded(c.0, WORLD_MAX as int),
            mat_wf(*material),
        ensures
            t.a == a,
            t.b == b,
            t.c == c,
            t.material == material,
            tri_wf(t),
    {
        let e1 = Vec3::new(b.0.x - a.0.x, b.0.y - a.0.y, b.0.z - a.0.z);
        let e2 = Vec3::new(c.0.x - a.0.x, c.0.y - a.0.y, c.0.z - a.0.z);
        let cr = e1.cross(e2);
        proof {
            lemma_mul_le(cr.x as int, cr.x as int, 0x4000_0000_0000, 0x4000_0000_0000);
            lemma_mul_le(cr.y as int, cr.y as int, 0x4000_0000_0000, 0x4000_0000_0000);
            lemma_mul_le(cr.z as int, cr.z as int, 0x4000_0000_0000, 0x4000_0000_0000);
            lemma_sq_nonneg(cr.x as int);
            lemma_sq_nonneg(cr.y as int);
            lemma_sq_nonneg(cr.z as int);
        }
        let csq: i128 = (cr.x as i128) * (cr.x as i128) + (cr.y as i128) * (cr.y as i128) + (
        cr.z as i128) * (cr.z as i128);
        proof {
            assert(SCALE as int * SCALE as int == 1000000000000) by (nonlinear_arith)
                requires
                    SCALE == 1000000,
            ;
        }
        if csq < 1000000000000 {
            Tri { a, b, c, normal: Vec3::new(0, 0, 0), degenerate: true, material }
        } else {
            let len_u = isqrt(csq as u128);
            proof {
                lemma_sqrt_val(csq as int, len_u as int);
                lemma_root_lt(len_u as int, csq as int, 0x1_0000_0000_0000);
                lemma_norm_comp(cr.x as int, cr.y as int, cr.z as int, csq as int, len_u as int);
                lemma_norm_comp(cr.y as int, cr.x as int, cr.z as int, csq as int, len_u as int);
                lemma_norm_comp(cr.z as int, cr.y as int, cr.x as int, csq as int, len_u as int);
            }
            let len: i128 = len_u as i128;
            let nx = div_t((cr.x as i128) * (SCALE as i128), len) as i64;
            let ny = div_t((cr.y as i128) * (SCALE as i128), len) as i64;
            let nz = div_t((cr.z as i128) * (SCALE as i128), len) as i64;
            Tri { a, b, c, normal: Vec3::new(nx, ny, nz), degenerate: false, material }
        }
    }

    /// The tight box around the triangle's vertices.
    pub fn bbox(&self) -> (bx: BoundingBox)
        requires
            tri_wf(*self),
        ensures
            box_wf(bx),
            bx == tri_bbox_spec(*self),
            bx.x.start <= self.a.0.x <= bx.x.end && bx.x.start <= self.b.0.x <= bx.x.end
                && bx.x.start <= self.c.0.x <= bx.x.end,
            bx.y.start <= self.a.0.y <= bx.y.end && bx.y.start <= self.b.0.y <= bx.y.end
                && bx.y.start <= self.c.0.y <= bx.y.end,
            bx.z.start <= self.a.0.z <= bx.z.end && bx.z.start <= self.b.0.z <= bx.z.end
                && bx.z.start <= self.c.0.z <= bx.z.end,
    {
        BoundingBox::new(
            Span {
                start: min3(self.a.0.x, self.b.0.x, self.c.0.x),
                end: max3(self.a.0.x, self.b.0.x, self.c.0.x),
            },
            Span {
                start: min3(self.a.0.y, self.b.0.y, self.c.0.y),
                end: max3(self.a.0.y, self.b.0.y, self.c.0.y),
            },
            Span {
                start: min3(self.a.0.z, self.b.0.z, self.c.0.z),
                end: max3(self.a.0.z, self.b.0.z, self.c.0.z),
            },
        )
    }

    /// The area heuristic of the triangle: half the magnitude of the
    /// edge cross product.
    pub fn surface_area(&self) -> (r: i64)
        requires
            tri_wf(*self),
        ensures
            r == tdiv(sqrt_spec(tri_cross_sq(*self)), 2),
    {
        let e1 = Vec3::new(self.b.0.x - self.a.0.x, self.b.0.y - self.a.0.y, self.b.0.z - self.a.0.z);
        let e2 = Vec3::new(self.c.0.x - self.a.0.x, self.c.0.y - self.a.0.y, self.c.0.z - self.a.0.z);
        let cr = e1.cross(e2);
        proof {
            lemma_mul_le(cr.x as int, cr.x as int, 0x4000_0000_0000, 0x4000_0000_0000);
            lemma_mul_le(cr.y as int, cr.y as int, 0x4000_0000_0000, 0x4000_0000_0000);
            lemma_mul_le(cr.z as int, cr.z as int, 0x4000_0000_0000, 0x4000_0000_0000);
            lemma_sq_nonneg(cr.x as int);
            lemma_sq_nonneg(cr.y as int);
            lemma_sq_nonneg(cr.z as int);
        }
        let csq: i128 = (cr.x as i128) * (cr.x as i128) + (cr.y as i128) * (cr.y as i128) + (
        cr.z as i128) * (cr.z as i128);
        let len_u = isqrt(csq as u128);
        proof {
            lemma_sqrt_val(csq as int, len_u as int);
            lemma_root_lt(len_u as int, csq as int, 0x1_0000_0000_0000);
            lemma_tdiv_le(len_u as int, 2);
        }
        div_t(len_u as i128, 2) as i64
    }

    /// The centroid of the triangle: the mean of its vertices.
    pub fn centroid(&self) -> (p: Point<i64>)
        requires
            tri_wf(*self),
        ensures
            p.0.x == tdiv(self.a.0.x + self.b.0.x + self.c.0.x, 3),
            p.0.y == tdiv(self.a.0.y + self.b.0.y + self.c.0.y, 3),
            p.0.z == tdiv(self.a.0.z + self.b.0.z + self.c.0.z, 3),
            vbounded(p.0, WORLD_MAX as int),
    {
        proof {
            lemma_centroid_axis((self.a.0.x + self.b.0.x + self.c.0.x) as int);
            lemma_centroid_axis((self.a.0.y + self.b.0.y + self.c.0.y) as int);
            lemma_centroid_axis((self.a.0.z + self.b.0.z + self.c.0.z) as int);
        }
        Point(
            Vec3::new(
                div_t(self.a.0.x as i128 + self.b.0.x as i128 + self.c.0.x as i128, 3) as i64,
                div_t(self.a.0.y as i128 + self.b.0.y as i128 + self.c.0.y as i128, 3) as i64,
                div_t(self.a.0.z as i128 + self.b.0.z as i128 + self.c.0.z as i128, 3) as i64,
            ),
        )
    }

    /// Intersects the ray with the triangle over the half-open parameter
    /// interval: the Möller-Trumbore algorithm, double sided.
    pub fn bounce(&self, r: Ray, tmin: i64, tmax: i64) -> (res: Option<VisibleHit>)
        requires
            tri_wf(*self),
            ray_wf(r),
        ensures
            match res {
                Some(h) => {
                    &&& tri_bounce_spec(*self, r, tmin as int, tmax as int) == Some(h.t as int)
                    &&& h.point.0.x == at_spec(r.origin.0.x as int, r.direction.x as int, h.t as int)
                    &&& h.point.0.y == at_spec(r.origin.0.y as int, r.direction.y as int, h.t as int)
                    &&& h.point.0.z == at_spec(r.origin.0.z as int, r.direction.z as int, h.t as int)
                    &&& h.material == self.material
                    &&& h.front_face == (dot_spec(r.direction, self.normal) < 0)
                    &&& h.normal == if h.front_face {
                        self.normal
                    } else {
                        Vec3 {
                            x: (-self.normal.x) as i64,
                            y: (-self.normal.y) as i64,
                            z: (-self.normal.z) as i64,
                        }
                    }
                    &&& hit_wf(h)
                },
                None => tri_bounce_spec(*self, r, tmin as int, tmax as int) is None,
            },
    {
        if self.degenerate {
            return None;
        }

        let e1 = Vec3::new(self.b.0.x - self.a.0.x, self.b.0.y - self.a.0.y, self.b.0.z - self.a.0.z);
        let e2 = Vec3::new(self.c.0.x - self.a.0.x, self.c.0.y - self.a.0.y, self.c.0.z - self.a.0.z);

        let p = r.direction().cross(e2);

        proof {
            lemma_mt_bounds(p.x as int, e1.x as int);
            lemma_mt_bounds(p.y as int, e1.y as int);
            lemma_mt_bounds(p.z as int, e1.z as int);
        }
        let det = fmul(p.x, e1.x) + fmul(p.y, e1.y) + fmul(p.z, e1.z);

        if det == 0 {
            return None;
        }

        let t_vec = Vec3::new(
            r.origin.0.x - self.a.0.x,
            r.origin.0.y - self.a.0.y,
            r.origin.0.z - self.a.0.z,
        );
        let q = t_vec.cross(e1);

        proof {
            lemma_mt_bounds(p.x as int, t_vec.x as int);
            lemma_mt_bounds(p.y as int, t_vec.y as int);
            lemma_mt_bounds(p.z as int, t_vec.z as int);
            lemma_mt_bounds(q.x as int, r.direction.x as int);
            lemma_mt_bounds(q.y as int, r.direction.y as int);
            lemma_mt_bounds(q.z as int, r.direction.z as int);
            lemma_mt_bounds(q.x as int, e2.x as int);
            lemma_mt_bounds(q.y as int, e2.y as int);
            lemma_mt_bounds(q.z as int, e2.z as int);
        }
        let u_num = fmul(p.x, t_vec.x) + fmul(p.y, t_vec.y) + fmul(p.z, t_vec.z);
        let v_num = fmul(q.x, r.direction.x) + fmul(q.y, r.direction.y) + fmul(q.z, r.direction.z);
        let t_num = fmul(q.x, e2.x) + fmul(q.y, e2.y) + fmul(q.z, e2.z);

        proof {
            lemma_mt_div(u_num as int, det as int);
            lemma_mt_div(v_num as int, det as int);
            lemma_mt_div(t_num as int, det as int);
        }
        let u = div_t((u_num as i128) * (SCALE as i128), det as i128);
        let v = div_t((v_num as i128) * (SCALE as i128), det as i128);
        let tt = div_t((t_num as i128) * (SCALE as i128), det as i128);

        let s = SCALE as i128;
        if u < 0 || u > s || v < 0 || u + v > s {
            return None;
        }

        let tm = tmin as i128;
        let tx = tmax as i128;
        let bound = T_MAX as i128;
        if !(tm <= tt && tt < tx && -bound <= tt && tt <= bound) {
            return None;
        }
        let t_hit = tt as i64;

        let hit_point = r.at(t_hit);
        if hit_point.0.x > WORLD_MAX || hit_point.0.x < -WORLD_MAX || hit_point.0.y > WORLD_MAX
            || hit_point.0.y < -WORLD_MAX || hit_point.0.z > WORLD_MAX || hit_point.0.z
            < -WORLD_MAX {
            return None;
        }

        Some(VisibleHit::new(r, hit_point, self.normal, t_hit, share(&self.material)))
    }
}

/// The smallest of three scalars.
fn min3(a: i64, b: i64, c: i64) -> (r: i64)
    ensures
        r == smin(smin(a as int, b as int), c as int),
{
    let m = if a <= b {
        a
    } else {
        b
    };
    if m <= c {
        m
    } else {
        c
    }
}

/// The largest of three scalars.
fn max3(a: i64, b: i64, c: i64) -> (r: i64)
    ensures
        r == smax(smax(a as int, b as int), c as int),
{
    let m = if a >= b {
        a
    } else {
        b
    };
    if m >= c {
        m
    } else {
        c
    }
}

/// The mean of three bounded coordinates is bounded.
proof fn lemma_centroid_axis(sum: int)
    requires
        iabs(sum) <= 3 * WORLD_MAX,
    ensures
        iabs(tdiv(sum, 3)) <= WORLD_MAX,
        iabs(tdiv(sum, 3)) <= iabs(sum),
{
    lemma_tdiv_le(sum, 3);
    crate::fixed::lemma_div_le(iabs(sum), 3);
    lemma_div_mono(iabs(sum), 3 * WORLD_MAX, 3);
    lemma_fundamental_div_mod_converse(3 * WORLD_MAX, 3, WORLD_MAX as int, 0);
}

/// A square is nonnegative.
proof fn lemma_sq_nonneg(a: int)
    ensures
        a * a >= 0,
{
    assert(a * a >= 0) by (nonlinear_arith);
}

/// A cross-product component divided by the cross-product length is at
/// most one unit.
proof fn lemma_norm_comp(ci: int, cj: int, ck: int, csq: int, len: int)
    requires
        csq == ci * ci + cj * cj + ck * ck,
        csq >= SCALE * SCALE,
        len >= 0,
        len * len <= csq < (len + 1) * (len + 1),
    ensures
        iabs(tdiv(ci * SCALE, len)) <= SCALE,
        len >= 1,
{
    lemma_sq_nonneg(cj);
    lemma_sq_nonneg(ck);
    assert(len >= 1) by (nonlinear_arith)
        requires
            csq >= SCALE * SCALE,
            SCALE >= 1,
            csq < (len + 1) * (len + 1),
            len >= 0,
    ;
    assert(iabs(ci) <= len) by (nonlinear_arith)
        requires
            ci * ci <= csq,
            csq < (len + 1) * (len + 1),
            len >= 0,
    ;
    crate::fixed::lemma_abs_mul(ci, SCALE as int);
    crate::fixed::lemma_div_le(iabs(ci * SCALE), len);
    assert(iabs(ci) * SCALE <= SCALE * len) by (nonlinear_arith)
        requires
            iabs(ci) <= len,
            SCALE >= 0,
    ;
    lemma_div_mono(iabs(ci) * SCALE, SCALE * len, len);
    lemma_fundamental_div_mod_converse(SCALE * len, len, SCALE as int, 0);
}

/// The fixed-point products of the intersection numerators stay in
/// range.
proof fn lemma_mt_bounds(a: int, b: int)
    requires
        iabs(a) <= 0x4000_0000_0000,
        iabs(b) <= 0x1_0000_0000,
    ensures
        iabs(fmul_spec(a, b)) <= 0x600_0000_0000_0000,
{
    lemma_fmul_bound(a, b, 0x4000_0000_0000, 0x1_0000_0000);
    lemma_div_mono(
        0x4000_0000_0000int * 0x1_0000_0000int,
        (SCALE as int) * 0x600_0000_0000_0000int,
        SCALE as int,
    );
    crate::fixed::lemma_scale_cancel(0x600_0000_0000_0000);
}

/// The barycentric and parameter divisions stay representable.
proof fn lemma_mt_div(num: int, det: int)
    requires
        det != 0,
        iabs(num) <= 0x2000_0000_0000_0000,
    ensures
        iabs(tdiv(num * SCALE, det)) <= 0x2000_0000_0000_0000 * (SCALE as int),
{
    lemma_mul_le(num, SCALE as int, 0x2000_0000_0000_0000, SCALE as int);
    lemma_tdiv_le(num * SCALE, det);
}

} // verus!
