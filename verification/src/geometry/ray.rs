//! Rays: an origin and a direction, parameterized by a scalar.

use vstd::prelude::*;

use crate::fixed::fmul;
use crate::fixed::fmul_spec;
use crate::fixed::iabs;
use crate::fixed::lemma_fmul_bound;
use crate::geometry::point::Point;
use crate::geometry::vec3::vbounded;
use crate::geometry::vec3::Vec3;
use crate::geometry::vec3::WORLD_MAX;

verus! {

/// The largest magnitude a ray parameter may have.
pub const T_MAX: i64 = 0x2000_0000_0000;

/// A ray: all points `origin + t * direction` for scalar parameters `t`.
#[derive(Debug, Copy, Clone, PartialEq)]
pub struct Ray {
    pub origin: Point<i64>,
    pub direction: Vec3<i64>,
}

/// Origin and direction components small enough for the intersection
/// arithmetic.
pub open spec fn ray_wf(r: Ray) -> bool {
    vbounded(r.origin.0, WORLD_MAX as int) && vbounded(r.direction, WORLD_MAX as int)
}

/// The point reached by `r` at parameter `t`, one component.
pub open spec fn at_spec(origin: int, direction: int, t: int) -> int {
    origin + fmul_spec(direction, t)
}

impl Ray {
    pub fn new(origin: Point<i64>, direction: Vec3<i64>) -> (r: Ray)
        ensures
            r.origin == origin,
            r.direction == direction,
    {
        Ray { origin, direction }
    }

    pub fn origin(self) -> (p: Point<i64>)
        ensures
            p == self.origin,
    {
        self.origin
    }

    pub fn direction(self) -> (d: Vec3<i64>)
        ensures
            d == self.direction,
    {
        self.direction
    }

    /// Evaluates the point along the ray at parameter `t`.
    pub fn at(self, t: i64) -> (p: Point<i64>)
        requires
            ray_wf(self),
            iabs(t as int) <= T_MAX as int,
        ensures
            p.0.x == at_spec(self.origin.0.x as int, self.direction.x as int, t as int),
            p.0.y == at_spec(self.origin.0.y as int, self.direction.y as int, t as int),
            p.0.z == at_spec(self.origin.0.z as int, self.direction.z as int, t as int),
    {
        proof {
            lemma_fmul_bound(self.direction.x as int, t as int, WORLD_MAX as int, T_MAX as int);
            lemma_fmul_bound(self.direction.y as int, t as int, WORLD_MAX as int, T_MAX as int);
            lemma_fmul_bound(self.direction.z as int, t as int, WORLD_MAX as int, T_MAX as int);
        }
        Point(
            Vec3::new(
                self.origin.0.x + fmul(self.direction.x, t),
                self.origin.0.y + fmul(self.direction.y, t),
                self.origin.0.z + fmul(self.direction.z, t),
            ),
        )
    }
}

} // verus!
