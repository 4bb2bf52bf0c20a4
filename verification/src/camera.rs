//! The camera: turns viewport coordinates into primary rays.

use vstd::prelude::*;

use crate::fixed::div_t;
use crate::fixed::fdiv_spec;
use crate::fixed::fmul;
use crate::fixed::fmul_spec;
use crate::fixed::lemma_fmul_bound_scaled;
use crate::fixed::lemma_tdiv_le;
use crate::fixed::tdiv;
use crate::fixed::SCALE;
use crate::geometry::ray::ray_wf;
use crate::geometry::ray::Ray;
use crate::geometry::vec3::cross_x_spec;
use crate::geometry::vec3::cross_y_spec;
use crate::geometry::vec3::cross_z_spec;
use crate::geometry::vec3::len_spec;
use crate::geometry::vec3::len_sq_spec;
use crate::geometry::vec3::vbounded;
use crate::geometry::vec3::Vec3;
use crate::geometry::Point;
use crate::rng::rand_range;

verus! {

/// The largest magnitude of a camera position coordinate: the camera's
/// scale budget, sized so that every primary ray the widest accepted
/// viewport can produce stays inside the world bounds.
pub const CAM_MAX: i64 = 256 * 1000000;

/// The components of `v`, each divided by its truncated length.
pub open spec fn unit_of(v: Vec3<i64>) -> Vec3<i64> {
    Vec3 {
        x: fdiv_spec(v.x as int, len_spec(v)) as i64,
        y: fdiv_spec(v.y as int, len_spec(v)) as i64,
        z: fdiv_spec(v.z as int, len_spec(v)) as i64,
    }
}

/// The unit vector from the target back toward the eye; a degenerate
/// pair — eye and target less than one unit apart — falls back to the
/// axis the default camera looks against.
pub open spec fn rv_unit_spec(look_from: Point<i64>, look_at: Point<i64>) -> Vec3<i64> {
    let d = Vec3 {
        x: (look_from.0.x - look_at.0.x) as i64,
        y: (look_from.0.y - look_at.0.y) as i64,
        z: (look_from.0.z - look_at.0.z) as i64,
    };
    if len_sq_spec(d) < SCALE {
        Vec3 { x: 0i64, y: 0i64, z: SCALE as i64 }
    } else {
        unit_of(d)
    }
}

/// The unit horizontal frame axis: the up vector crossed with the
/// reverse view direction; a cross too short to normalize — the up
/// vector nearly parallel to the view — falls back to the first axis.
pub open spec fn uh_spec(view_up: Vec3<i64>, rvu: Vec3<i64>) -> Vec3<i64> {
    let c = Vec3 {
        x: cross_x_spec(view_up, rvu) as i64,
        y: cross_y_spec(view_up, rvu) as i64,
        z: cross_z_spec(view_up, rvu) as i64,
    };
    if len_sq_spec(c) < SCALE {
        Vec3 { x: SCALE as i64, y: 0i64, z: 0i64 }
    } else {
        unit_of(c)
    }
}

/// The vertical frame axis: the reverse view direction crossed with the
/// horizontal axis.
pub open spec fn uv_spec(rvu: Vec3<i64>, uh: Vec3<i64>) -> Vec3<i64> {
    Vec3 {
        x: cross_x_spec(rvu, uh) as i64,
        y: cross_y_spec(rvu, uh) as i64,
        z: cross_z_spec(rvu, uh) as i64,
    }
}

/// A camera: the eye point, the lower-left viewport corner, the two
/// viewport spanning vectors, and the lens data for depth of field.
pub struct Camera {
    pub origin: Point<i64>,
    pub lower_left_corner: Point<i64>,
    pub vertical: Vec3<i64>,
    pub horizontal: Vec3<i64>,
    pub lens_radius: i64,
    pub vertical_axis: Vec3<i64>,
    pub horizontal_axis: Vec3<i64>,
}

/// The bounds every stored camera satisfies, sized so that every primary
/// ray stays within the world bounds.
pub open spec fn cam_wf(c: Camera) -> bool {
    &&& vbounded(c.origin.0, CAM_MAX as int)
    &&& vbounded(c.horizontal, 512 * SCALE)
    &&& vbounded(c.vertical, 512 * SCALE)
    &&& vbounded(c.lower_left_corner.0, 800 * SCALE)
    &&& 0 <= c.lens_radius <= SCALE
    &&& vbounded(c.horizontal_axis, 2 * SCALE)
    &&& vbounded(c.vertical_axis, 8 * SCALE)
}

/// The whole construction of a camera from its parameters, step by step.
pub open spec fn cam_spec(
    look_from: Point<i64>,
    look_at: Point<i64>,
    view_up: Vec3<i64>,
    tan_half_vfov: i64,
    aspect_ratio: i64,
    aperture: i64,
    focus_dist: i64,
) -> Camera {
    let rvu = rv_unit_spec(look_from, look_at);
    let uh = uh_spec(view_up, rvu);
    let uv = uv_spec(rvu, uh);
    let vh: int = 2 * tan_half_vfov;
    let vw = fmul_spec(vh, aspect_ratio as int);
    let hf = fmul_spec(vw, focus_dist as int);
    let vf = fmul_spec(vh, focus_dist as int);
    let horizontal = Vec3 {
        x: fmul_spec(hf, uh.x as int) as i64,
        y: fmul_spec(hf, uh.y as int) as i64,
        z: fmul_spec(hf, uh.z as int) as i64,
    };
    let vertical = Vec3 {
        x: fmul_spec(vf, uv.x as int) as i64,
        y: fmul_spec(vf, uv.y as int) as i64,
        z: fmul_spec(vf, uv.z as int) as i64,
    };
    let llc = Vec3 {
        x: (look_from.0.x - tdiv(horizontal.x as int, 2) - tdiv(vertical.x as int, 2) - fmul_spec(
            rvu.x as int,
            focus_dist as int,
        )) as i64,
        y: (look_from.0.y - tdiv(horizontal.y as int, 2) - tdiv(vertical.y as int, 2) - fmul_spec(
            rvu.y as int,
            focus_dist as int,
        )) as i64,
        z: (look_from.0.z - tdiv(horizontal.z as int, 2) - tdiv(vertical.z as int, 2) - fmul_spec(
            rvu.z as int,
            focus_dist as int,
        )) as i64,
    };
    Camera {
        origin: look_from,
        lower_left_corner: Point(llc),
        vertical,
        horizontal,
        lens_radius: tdiv(aperture as int, 2) as i64,
        vertical_axis: uv,
        horizontal_axis: uh,
    }
}

impl Camera {
    /// Computes the view frame: the reverse view direction, the
    /// horizontal axis and the vertical axis, all normalized as far as
    /// the fixed-point arithmetic allows.
    #[verifier::rlimit(100)]
    fn view_frame(look_from: Point<i64>, look_at: Point<i64>, view_up: Vec3<i64>) -> (f: (
        Vec3<i64>,
        Vec3<i64>,
        Vec3<i64>,
    ))
        requires
            vbounded(look_from.0, CAM_MAX as int),
            vbounded(look_at.0, CAM_MAX as int),
            vbounded(view_up, CAM_MAX as int),
        ensures
            f.0 == rv_unit_spec(look_from, look_at),
            f.1 == uh_spec(view_up, f.0),
            f.2 == uv_spec(f.0, f.1),
            vbounded(f.0, 2 * SCALE),
            vbounded(f.1, 2 * SCALE),
            vbounded(f.2, 8 * SCALE),
    {
        let rv = Vec3::new(
            look_from.0.x - look_at.0.x,
            look_from.0.y - look_at.0.y,
            look_from.0.z - look_at.0.z,
        );
        let rv_lsq = rv.len_sq();
        let rvu = if rv_lsq < SCALE {
            Vec3::new(0, 0, SCALE)
        } else {
            rv.unit()
        };

        proof {
            lemma_fmul_bound_scaled(view_up.y as int, rvu.z as int, 256, 2);
            lemma_fmul_bound_scaled(view_up.z as int, rvu.y as int, 256, 2);
            lemma_fmul_bound_scaled(view_up.z as int, rvu.x as int, 256, 2);
            lemma_fmul_bound_scaled(view_up.x as int, rvu.z as int, 256, 2);
            lemma_fmul_bound_scaled(view_up.x as int, rvu.y as int, 256, 2);
            lemma_fmul_bound_scaled(view_up.y as int, rvu.x as int, 256, 2);
        }
        let crossv = view_up.cross(rvu);
        let cross_lsq = crossv.len_sq();
        let uh = if cross_lsq < SCALE {
            Vec3::new(SCALE, 0, 0)
        } else {
            crossv.unit()
        };

        proof {
            lemma_fmul_bound_scaled(rvu.y as int, uh.z as int, 2, 2);
            lemma_fmul_bound_scaled(rvu.z as int, uh.y as int, 2, 2);
            lemma_fmul_bound_scaled(rvu.z as int, uh.x as int, 2, 2);
            lemma_fmul_bound_scaled(rvu.x as int, uh.z as int, 2, 2);
            lemma_fmul_bound_scaled(rvu.x as int, uh.y as int, 2, 2);
            lemma_fmul_bound_scaled(rvu.y as int, uh.x as int, 2, 2);
        }
        let uv = rvu.cross(uh);

        (rvu, uh, uv)
    }

    /// Builds a camera looking from one point at another, with the given
    /// up direction, the tangent of half the vertical field of view, the
    /// width-to-height ratio of the viewport, and the aperture and focus
    /// distance of the lens.
    #[verifier::rlimit(100)]
    pub fn new(
        look_from: Point<i64>,
        look_at: Point<i64>,
        view_up: Vec3<i64>,
        tan_half_vfov: i64,
        aspect_ratio: i64,
        aperture: i64,
        focus_dist: i64,
    ) -> (c: Camera)
        requires
            vbounded(look_from.0, CAM_MAX as int),
            vbounded(look_at.0, CAM_MAX as int),
            vbounded(view_up, CAM_MAX as int),
            0 <= tan_half_vfov <= 2 * SCALE,
            0 < aspect_ratio <= 4 * SCALE,
            0 <= aperture <= 2 * SCALE,
            0 < focus_dist <= 16 * SCALE,
        ensures
            c == cam_spec(
                look_from,
                look_at,
                view_up,
                tan_half_vfov,
                aspect_ratio,
                aperture,
                focus_dist,
            ),
            cam_wf(c),
    {
        let frame = Camera::view_frame(look_from, look_at, view_up);
        let rvu = frame.0;
        let uh = frame.1;
        let uv = frame.2;

        let vh = 2 * tan_half_vfov;
        proof {
            lemma_fmul_bound_scaled(vh as int, aspect_ratio as int, 4, 4);
            lemma_fmul_bound_scaled(
                fmul_spec(vh as int, aspect_ratio as int),
                focus_dist as int,
                16,
                16,
            );
            lemma_fmul_bound_scaled(vh as int, focus_dist as int, 4, 16);
        }
        let vw = fmul(vh, aspect_ratio);
        let hf = fmul(vw, focus_dist);
        let vf = fmul(vh, focus_dist);

        proof {
            lemma_fmul_bound_scaled(hf as int, uh.x as int, 256, 2);
            lemma_fmul_bound_scaled(hf as int, uh.y as int, 256, 2);
            lemma_fmul_bound_scaled(hf as int, uh.z as int, 256, 2);
            lemma_fmul_bound_scaled(vf as int, uv.x as int, 64, 8);
            lemma_fmul_bound_scaled(vf as int, uv.y as int, 64, 8);
            lemma_fmul_bound_scaled(vf as int, uv.z as int, 64, 8);
        }
        let horizontal = Vec3::new(fmul(hf, uh.x), fmul(hf, uh.y), fmul(hf, uh.z));
        let vertical = Vec3::new(fmul(vf, uv.x), fmul(vf, uv.y), fmul(vf, uv.z));

        proof {
            lemma_tdiv_le(horizontal.x as int, 2);
            lemma_tdiv_le(horizontal.y as int, 2);
            lemma_tdiv_le(horizontal.z as int, 2);
            lemma_tdiv_le(vertical.x as int, 2);
            lemma_tdiv_le(vertical.y as int, 2);
            lemma_tdiv_le(vertical.z as int, 2);
            lemma_fmul_bound_scaled(rvu.x as int, focus_dist as int, 2, 16);
            lemma_fmul_bound_scaled(rvu.y as int, focus_dist as int, 2, 16);
            lemma_fmul_bound_scaled(rvu.z as int, focus_dist as int, 2, 16);
            lemma_tdiv_le(aperture as int, 2);
        }
        let llc = Vec3::new(
            look_from.0.x - div_t(horizontal.x as i128, 2) as i64 - div_t(vertical.x as i128, 2)
                as i64 - fmul(rvu.x, focus_dist),
            look_from.0.y - div_t(horizontal.y as i128, 2) as i64 - div_t(vertical.y as i128, 2)
                as i64 - fmul(rvu.y, focus_dist),
            look_from.0.z - div_t(horizontal.z as i128, 2) as i64 - div_t(vertical.z as i128, 2)
                as i64 - fmul(rvu.z, focus_dist),
        );

        Camera {
            origin: look_from,
            lower_left_corner: Point(llc),
            vertical,
            horizontal,
            lens_radius: div_t(aperture as i128, 2) as i64,
            vertical_axis: uv,
            horizontal_axis: uh,
        }
    }

    /// A camera at the origin looking down the third axis with a square
    /// right-angle viewport and no depth of field.
    pub fn default_camera() -> (c: Camera)
        ensures
            cam_wf(c),
    {
        Camera::new(
            Point::new(0, 0, 0),
            Point::new(0, 0, -SCALE),
            Vec3::new(0, SCALE, 0),
            SCALE,
            SCALE,
            0,
            SCALE,
        )
    }

    /// Samples a point on the lens disk.
    fn random_in_unit_disk(rng: &mut rand::rngs::StdRng) -> (v: Vec3<i64>)
        ensures
            vbounded(v, SCALE as int),
            v.z == 0,
    {
        let mut tries: u64 = 0;
        while tries < 64
            invariant
                true,
            decreases 64 - tries,
        {
            let x = rand_range(rng, -SCALE, SCALE);
            let y = rand_range(rng, -SCALE, SCALE);
            let cand = Vec3::new(x, y, 0);
            let lsq = cand.len_sq();
            if lsq < SCALE {
                return cand;
            }
            tries = tries + 1;
        }
        Vec3::new(0, 0, 0)
    }

    /// The primary ray through viewport coordinates `(u, v)`, each a
    /// fraction of one unit, jittered across the lens when the aperture
    /// is open. With the lens closed the ray is exactly the viewport
    /// ray: from the eye toward the viewport point.
    #[verifier::rlimit(60)]
    pub fn ray_at(&self, rng: &mut rand::rngs::StdRng, u: i64, v: i64) -> (r: Ray)
        requires
            cam_wf(*self),
            0 <= u <= SCALE,
            0 <= v <= SCALE,
        ensures
            ray_wf(r),
            self.lens_radius == 0 ==> r.origin == self.origin,
            self.lens_radius == 0 ==> r.direction == (Vec3 {
                x: (fmul_spec(self.horizontal.x as int, u as int) + fmul_spec(
                    self.vertical.x as int,
                    v as int,
                ) + self.lower_left_corner.0.x - self.origin.0.x) as i64,
                y: (fmul_spec(self.horizontal.y as int, u as int) + fmul_spec(
                    self.vertical.y as int,
                    v as int,
                ) + self.lower_left_corner.0.y - self.origin.0.y) as i64,
                z: (fmul_spec(self.horizontal.z as int, u as int) + fmul_spec(
                    self.vertical.z as int,
                    v as int,
                ) + self.lower_left_corner.0.z - self.origin.0.z) as i64,
            }),
    {
        let disk = Camera::random_in_unit_disk(rng);
        proof {
            lemma_fmul_bound_scaled(disk.x as int, self.lens_radius as int, 1, 1);
            lemma_fmul_bound_scaled(disk.y as int, self.lens_radius as int, 1, 1);
        }
        let rdx = fmul(disk.x, self.lens_radius);
        let rdy = fmul(disk.y, self.lens_radius);
        proof {
            lemma_fmul_bound_scaled(self.horizontal_axis.x as int, rdx as int, 2, 1);
            lemma_fmul_bound_scaled(self.horizontal_axis.y as int, rdx as int, 2, 1);
            lemma_fmul_bound_scaled(self.horizontal_axis.z as int, rdx as int, 2, 1);
            lemma_fmul_bound_scaled(self.vertical_axis.x as int, rdy as int, 8, 1);
            lemma_fmul_bound_scaled(self.vertical_axis.y as int, rdy as int, 8, 1);
            lemma_fmul_bound_scaled(self.vertical_axis.z as int, rdy as int, 8, 1);
            if self.lens_radius == 0 {
                lemma_zero_factor(disk.x as int);
                lemma_zero_factor(disk.y as int);
                lemma_zero_factor(self.horizontal_axis.x as int);
                lemma_zero_factor(self.horizontal_axis.y as int);
                lemma_zero_factor(self.horizontal_axis.z as int);
                lemma_zero_factor(self.vertical_axis.x as int);
                lemma_zero_factor(self.vertical_axis.y as int);
                lemma_zero_factor(self.vertical_axis.z as int);
            }
        }
        let offset = Vec3::new(
            fmul(self.horizontal_axis.x, rdx) + fmul(self.vertical_axis.x, rdy),
            fmul(self.horizontal_axis.y, rdx) + fmul(self.vertical_axis.y, rdy),
            fmul(self.horizontal_axis.z, rdx) + fmul(self.vertical_axis.z, rdy),
        );

        proof {
            lemma_fmul_bound_scaled(self.horizontal.x as int, u as int, 512, 1);
            lemma_fmul_bound_scaled(self.horizontal.y as int, u as int, 512, 1);
            lemma_fmul_bound_scaled(self.horizontal.z as int, u as int, 512, 1);
            lemma_fmul_bound_scaled(self.vertical.x as int, v as int, 512, 1);
            lemma_fmul_bound_scaled(self.vertical.y as int, v as int, 512, 1);
            lemma_fmul_bound_scaled(self.vertical.z as int, v as int, 512, 1);
        }
        Ray::new(
            Point(
                Vec3::new(
                    self.origin.0.x + offset.x,
                    self.origin.0.y + offset.y,
                    self.origin.0.z + offset.z,
                ),
            ),
            Vec3::new(
                fmul(self.horizontal.x, u) + fmul(self.vertical.x, v) + self.lower_left_corner.0.x
                    - self.origin.0.x - offset.x,
                fmul(self.horizontal.y, u) + fmul(self.vertical.y, v) + self.lower_left_corner.0.y
                    - self.origin.0.y - offset.y,
                fmul(self.horizontal.z, u) + fmul(self.vertical.z, v) + self.lower_left_corner.0.z
                    - self.origin.0.z - offset.z,
            ),
        )
    }
}

impl Default for Camera {
    /// The default camera: the [`Camera::default_camera`] frame.
    fn default() -> (c: Camera)
        ensures
            cam_wf(c),
    {
        Camera::default_camera()
    }
}

/// A product with a zero factor is zero.
proof fn lemma_zero_factor(a: int)
    ensures
        fmul_spec(a, 0) == 0,
        fmul_spec(0, a) == 0,
{
    assert(a * 0 == 0) by (nonlinear_arith);
    assert(0 * a == 0) by (nonlinear_arith);
    crate::fixed::lemma_div_le(0, SCALE as int);
}

} // verus!
