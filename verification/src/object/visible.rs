//! Hit records and the list of objects kept outside the acceleration tree.

use vstd::prelude::*;

use std::sync::Arc;

use crate::fixed::iabs;
use crate::fixed::SCALE;
use crate::geometry::ray::ray_wf;
use crate::geometry::ray::Ray;
use crate::geometry::ray::T_MAX;
use crate::geometry::vec3::dot_spec;
use crate::geometry::vec3::vbounded;
use crate::geometry::vec3::Vec3;
use crate::geometry::vec3::WORLD_MAX;
use crate::geometry::Point;
use crate::material::mat_wf;
use crate::material::Material;

verus! {

/// The largest magnitude the components of a stored surface normal may
/// have: normals are normalized, so they stay within a couple of units.
pub const NORMAL_MAX: i64 = 2 * SCALE;

/// The record of a ray striking a surface: where, how far along the ray,
/// the surface normal turned against the ray, and the struck material.
pub struct VisibleHit {
    pub point: Point<i64>,
    pub normal: Vec3<i64>,
    pub t: i64,
    pub material: Arc<Material>,
    pub front_face: bool,
}

/// The bounds every hit record satisfies, so that its consumers can do
/// arithmetic on it.
pub open spec fn hit_wf(h: VisibleHit) -> bool {
    &&& vbounded(h.point.0, WORLD_MAX as int)
    &&& vbounded(h.normal, NORMAL_MAX as int)
    &&& iabs(h.t as int) <= T_MAX as int
    &&& mat_wf(*h.material)
}

impl VisibleHit {
    /// Builds a hit record, orienting the normal against the incoming ray
    /// and recording on which side the ray struck.
    pub fn new(r: Ray, point: Point<i64>, normal: Vec3<i64>, t: i64, material: Arc<Material>) -> (h:
        VisibleHit)
        requires
            ray_wf(r),
            vbounded(point.0, WORLD_MAX as int),
            vbounded(normal, NORMAL_MAX as int),
            iabs(t as int) <= T_MAX as int,
            mat_wf(*material),
        ensures
            h.point == point,
            h.t == t,
            h.material == material,
            h.front_face == (dot_spec(r.direction, normal) < 0),
            h.normal == if h.front_face {
                normal
            } else {
                Vec3 { x: (-normal.x) as i64, y: (-normal.y) as i64, z: (-normal.z) as i64 }
            },
            hit_wf(h),
    {
        let front_face = r.direction().dot(normal) < 0;
        let oriented = if front_face {
            normal
        } else {
            Vec3::new(-normal.x, -normal.y, -normal.z)
        };
        VisibleHit { point, normal: oriented, t, material, front_face }
    }
}

/// The objects that stay outside the acceleration tree, because they
/// have no finite bounding box: the infinite planes of the scene.
pub struct VisibleList {
    pub objects: Vec<crate::object::planar::InfinitePlane>,
}

/// Every stored object is well-formed.
pub open spec fn list_wf(l: VisibleList) -> bool {
    forall|i: int|
        0 <= i < l.objects@.len() ==> crate::object::planar::plane_wf(#[trigger] l.objects@[i])
}

impl VisibleList {
    pub fn new() -> (l: VisibleList)
        ensures
            l.objects@.len() == 0,
            list_wf(l),
    {
        Self { objects: Vec::new() }
    }

    /// Builds a list holding the given objects.
    pub fn from_list(objects: Vec<crate::object::planar::InfinitePlane>) -> (l: VisibleList)
        requires
            forall|i: int|
                0 <= i < objects@.len() ==> crate::object::planar::plane_wf(
                    #[trigger] objects@[i],
                ),
        ensures
            l.objects@ == objects@,
            list_wf(l),
    {
        let mut list = Self::new();
        list.add_all(objects);
        list
    }

    pub fn add(&mut self, object: crate::object::planar::InfinitePlane)
        requires
            crate::object::planar::plane_wf(object),
            list_wf(*old(self)),
        ensures
            final(self).objects@ == old(self).objects@.push(object),
            list_wf(*final(self)),
    {
        self.objects.push(object);
    }

    pub fn add_all(&mut self, objects: Vec<crate::object::planar::InfinitePlane>)
        requires
            list_wf(*old(self)),
            forall|i: int|
                0 <= i < objects@.len() ==> crate::object::planar::plane_wf(
                    #[trigger] objects@[i],
                ),
        ensures
            final(self).objects@ == old(self).objects@ + objects@,
            list_wf(*final(self)),
    {
        let mut incoming = objects;
        self.objects.append(&mut incoming);
    }

    /// Returns the closest hit among all objects in the list: any hit
    /// returned comes from one of the objects, and no object hits
    /// strictly closer.
    pub fn bounce(&self, r: Ray, tmin: i64, tmax: i64) -> (res: Option<VisibleHit>)
        requires
            list_wf(*self),
            ray_wf(r),
        ensures
            match res {
                Some(h) => {
                    &&& hit_wf(h)
                    &&& exists|i: int|
                        0 <= i < self.objects@.len() && #[trigger] crate::object::planar::plane_bounce_spec(
                            self.objects@[i],
                            r,
                            tmin as int,
                            tmax as int,
                        ) == Some(h.t as int) && h.material == self.objects@[i].material
                    &&& forall|j: int|
                        0 <= j < self.objects@.len() ==> match #[trigger] crate::object::planar::plane_bounce_spec(
                            self.objects@[j],
                            r,
                            tmin as int,
                            tmax as int,
                        ) {
                            None => true,
                            Some(tj) => tj >= h.t as int,
                        }
                },
                None => forall|j: int|
                    0 <= j < self.objects@.len() ==> #[trigger] crate::object::planar::plane_bounce_spec(
                        self.objects@[j],
                        r,
                        tmin as int,
                        tmax as int,
                    ) is None,
            },
    {
        let mut best: Option<VisibleHit> = None;
        let mut closest_t: i64 = tmax;
        let mut k: usize = 0;
        let n = self.objects.len();
        while k < n
            invariant
                list_wf(*self),
                ray_wf(r),
                k <= n,
                n == self.objects@.len(),
                match best {
                    Some(h) => {
                        &&& hit_wf(h)
                        &&& h.t == closest_t
                        &&& exists|i: int|
                            0 <= i < k && #[trigger] crate::object::planar::plane_bounce_spec(
                                self.objects@[i],
                                r,
                                tmin as int,
                                tmax as int,
                            ) == Some(h.t as int) && h.material == self.objects@[i].material
                        &&& forall|j: int|
                            0 <= j < k ==> match #[trigger] crate::object::planar::plane_bounce_spec(
                                self.objects@[j],
                                r,
                                tmin as int,
                                tmax as int,
                            ) {
                                None => true,
                                Some(tj) => tj >= h.t as int,
                            }
                    },
                    None => closest_t == tmax && forall|j: int|
                        0 <= j < k ==> #[trigger] crate::object::planar::plane_bounce_spec(
                            self.objects@[j],
                            r,
                            tmin as int,
                            tmax as int,
                        ) is None,
                },
            decreases n - k,
        {
            let hit = self.objects[k].bounce(r, tmin, closest_t);
            if let Some(record) = hit {
                closest_t = record.t;
                best = Some(record);
            }
            k = k + 1;
        }
        best
    }
}

} // verus!
