//! The bounding-volume hierarchy: a binary tree over the primitives,
//! built by surface-area-heuristic binning, traversed nearest-first.

use vstd::prelude::*;
use vstd::multiset::Multiset;
use vstd::seq_lib::lemma_multiset_commutative;

use std::sync::Arc;

use crate::fixed::div_t;
use crate::fixed::iabs;
use crate::fixed::lemma_tdiv_le;
use crate::fixed::SCALE;
use crate::geometry::ray::ray_wf;
use crate::geometry::ray::Ray;
use crate::geometry::ray::T_MAX;
use crate::geometry::vec3::vbounded;
use crate::geometry::vec3::WORLD_MAX;
use crate::geometry::Point;
use crate::object::bbox::box_hit_spec;
use crate::object::bbox::box_wf;
use crate::object::bbox::BoundingBox;
use crate::object::bbox::Span;
use crate::object::planar::tri_bounce_spec;
use crate::object::planar::tri_wf;
use crate::object::planar::Tri;
use crate::object::sphere::sphere_bounce_spec;
use crate::object::sphere::sphere_wf;
use crate::object::sphere::Sphere;
use crate::object::visible::hit_wf;
use crate::object::visible::VisibleHit;

verus! {

/// How many uniform cut points are considered per axis while splitting.
pub const NUM_BUCKETS: i64 = 10;

/// The cost charged for descending an inner node, against the cost of
/// testing primitives directly; a quarter unit, in raw scale steps.
pub const COST_TRAVERSAL: i64 = 250000;

/// At or below this many primitives a node may stay a leaf.
pub const MAX_PRIMS_PER_NODE: usize = 4;

/// A primitive of the scene: one of the finite shapes that can enter the
/// tree.
pub enum Primitive {
    Sphere(Sphere),
    Tri(Tri),
}

/// The well-formedness of the underlying shape.
pub open spec fn prim_wf(p: Primitive) -> bool {
    match p {
        Primitive::Sphere(s) => sphere_wf(s),
        Primitive::Tri(t) => tri_wf(t),
    }
}

/// Where a ray strikes the primitive within the queried interval.
pub open spec fn prim_bounce_spec(p: Primitive, r: Ray, tmin: int, tmax: int) -> Option<int> {
    match p {
        Primitive::Sphere(s) => sphere_bounce_spec(s, r, tmin, tmax),
        Primitive::Tri(t) => tri_bounce_spec(t, r, tmin, tmax),
    }
}

/// The tight bounding box of the primitive.
pub open spec fn prim_bbox_spec(p: Primitive) -> BoundingBox {
    match p {
        Primitive::Sphere(s) => crate::object::sphere::sphere_bbox_spec(s),
        Primitive::Tri(t) => crate::object::planar::tri_bbox_spec(t),
    }
}

/// The centroid of the primitive: a sphere's center, or the mean of a
/// triangle's vertices.
pub open spec fn prim_centroid_spec(p: Primitive) -> (int, int, int) {
    match p {
        Primitive::Sphere(s) => (s.center.0.x as int, s.center.0.y as int, s.center.0.z as int),
        Primitive::Tri(t) => (
            crate::fixed::tdiv(t.a.0.x + t.b.0.x + t.c.0.x, 3),
            crate::fixed::tdiv(t.a.0.y + t.b.0.y + t.c.0.y, 3),
            crate::fixed::tdiv(t.a.0.z + t.b.0.z + t.c.0.z, 3),
        ),
    }
}

/// The primitive has a hit at `h.t` for this ray and lower bound, under
/// some upper bound: the hit is genuine, not invented by the traversal.
pub open spec fn genuine_hit(p: Primitive, r: Ray, tmin: int, h: VisibleHit) -> bool {
    exists|u: int| #[trigger] prim_bounce_spec(p, r, tmin, u) == Some(h.t as int)
}

/// A reported hit parameter lies inside the interval it was queried for.
pub proof fn lemma_prim_hit_in_range(p: Arc<Primitive>, r: Ray, tmin: int, tmax: int, t: int)
    requires
        prim_bounce_spec(*p, r, tmin, tmax) == Some(t),
    ensures
        tmin <= t < tmax,
        iabs(t) <= T_MAX,
{
    match *p {
        Primitive::Sphere(s) => {
            assert(sphere_bounce_spec(s, r, tmin, tmax) == Some(t));
        },
        Primitive::Tri(tr) => {
            assert(tri_bounce_spec(tr, r, tmin, tmax) == Some(t));
        },
    }
}

/// Whatever the query returns lies inside the queried interval.
pub proof fn lemma_prim_bounce_in_range(p: Arc<Primitive>, r: Ray, tmin: int, tmax: int)
    ensures
        match prim_bounce_spec(*p, r, tmin, tmax) {
            Some(t) => tmin <= t < tmax && iabs(t) <= T_MAX,
            None => true,
        },
{
    match *p {
        Primitive::Sphere(s) => {
            assert(prim_bounce_spec(*p, r, tmin, tmax) == sphere_bounce_spec(s, r, tmin, tmax));
        },
        Primitive::Tri(t) => {
            assert(prim_bounce_spec(*p, r, tmin, tmax) == tri_bounce_spec(t, r, tmin, tmax));
        },
    }
}

/// The genuineness of a hit, through a reference.
spec fn genuine_hit_at(p: &Arc<Primitive>, r: Ray, tmin: int, h: VisibleHit) -> bool {
    genuine_hit(**p, r, tmin, h)
}

/// The capped-interval query result, through a reference.
spec fn capped_bounce_at(p: &Arc<Primitive>, r: Ray, tmin: int) -> Option<int> {
    prim_bounce_spec(**p, r, tmin, T_MAX + 1)
}

/// A genuine hit has a finite characterization: some interval reports
/// it exactly when the interval up to just past the parameter cap does.
pub proof fn lemma_genuine_iff(p: Arc<Primitive>, r: Ray, tmin: int, h: VisibleHit)
    ensures
        genuine_hit(*p, r, tmin, h) <==> prim_bounce_spec(*p, r, tmin, T_MAX + 1) == Some(
            h.t as int,
        ),
{
    if genuine_hit_at(&p, r, tmin, h) {
        let u = choose|u: int| #[trigger] prim_bounce_spec(*p, r, tmin, u) == Some(h.t as int);
        if u <= T_MAX + 1 {
            lemma_prim_bounce_narrow(p, r, tmin, u, T_MAX + 1);
        } else {
            match *p {
                Primitive::Sphere(s) => {
                    crate::object::sphere::lemma_sphere_bounce_saturated(s, r, tmin, u);
                },
                Primitive::Tri(t) => {
                    crate::object::planar::lemma_tri_bounce_saturated(t, r, tmin, u);
                },
            }
        }
    }
    if capped_bounce_at(&p, r, tmin) == Some(h.t as int) {
        assert(genuine_hit(*p, r, tmin, h)) by {
            assert(prim_bounce_spec(*p, r, tmin, T_MAX + 1) == Some(h.t as int));
        }
    }
}

/// Somewhere in the list a genuine hit exists exactly when somewhere in
/// the list the capped interval reports it.
pub proof fn lemma_genuine_exists_finite(
    prims: Seq<Arc<Primitive>>,
    r: Ray,
    tmin: int,
    h: VisibleHit,
)
    requires
        exists|i: int| 0 <= i < prims.len() && genuine_hit(*#[trigger] prims[i], r, tmin, h),
    ensures
        exists|i: int|
            0 <= i < prims.len() && #[trigger] prim_bounce_spec(*prims[i], r, tmin, T_MAX + 1)
                == Some(h.t as int),
{
    let i = choose|i: int| 0 <= i < prims.len() && genuine_hit(*#[trigger] prims[i], r, tmin, h);
    lemma_genuine_iff(prims[i], r, tmin, h);
    assert(prim_bounce_spec(*prims[i], r, tmin, T_MAX + 1) == Some(h.t as int));
}

/// Shrinking the upper end of the queried interval loses nothing: a hit
/// found under the shrunk interval is the full interval's hit as well,
/// and a miss under the shrunk interval means the full interval's hit,
/// if any, lies at or past the shrunk end.
pub proof fn lemma_prim_bounce_narrow(p: Arc<Primitive>, r: Ray, tmin: int, u: int, tmax: int)
    requires
        u <= tmax,
    ensures
        match prim_bounce_spec(*p, r, tmin, u) {
            Some(t) => prim_bounce_spec(*p, r, tmin, tmax) == Some(t),
            None => prim_bounce_spec(*p, r, tmin, tmax) is None || prim_bounce_spec(
                *p,
                r,
                tmin,
                tmax,
            )->Some_0 >= u,
        },
{
    match *p {
        Primitive::Sphere(s) => {
            crate::object::sphere::lemma_sphere_bounce_narrow(s, r, tmin, u, tmax);
        },
        Primitive::Tri(t) => {
            crate::object::planar::lemma_tri_bounce_narrow(t, r, tmin, u, tmax);
        },
    }
}

/// `res` is the nearest hit among `prims` over the queried interval: a
/// hit comes from one of them and none of them hits strictly closer,
/// while a miss means none of them hits at all.
pub open spec fn nearest_of(
    prims: Seq<Arc<Primitive>>,
    r: Ray,
    tmin: int,
    tmax: int,
    res: Option<VisibleHit>,
) -> bool {
    match res {
        Some(h) => {
            &&& exists|i: int|
                0 <= i < prims.len() && #[trigger] prim_bounce_spec(*prims[i], r, tmin, tmax)
                    == Some(h.t as int)
            &&& forall|j: int|
                0 <= j < prims.len() ==> match #[trigger] prim_bounce_spec(
                    *prims[j],
                    r,
                    tmin,
                    tmax,
                ) {
                    None => true,
                    Some(tj) => tj >= h.t as int,
                }
        },
        None => forall|j: int|
            0 <= j < prims.len() ==> #[trigger] prim_bounce_spec(*prims[j], r, tmin, tmax) is None,
    }
}

impl Primitive {
    /// The bounding box of the shape.
    pub fn bbox(&self) -> (b: BoundingBox)
        requires
            prim_wf(*self),
        ensures
            box_wf(b),
            b == prim_bbox_spec(*self),
    {
        match self {
            Primitive::Sphere(s) => s.bbox(),
            Primitive::Tri(t) => t.bbox(),
        }
    }

    /// The size heuristic of the shape.
    pub fn surface_area(&self) -> (r: i64)
        requires
            prim_wf(*self),
    {
        match self {
            Primitive::Sphere(s) => s.surface_area(),
            Primitive::Tri(t) => t.surface_area(),
        }
    }

    /// The centroid of the shape, always within the world bounds.
    pub fn centroid(&self) -> (c: Point<i64>)
        requires
            prim_wf(*self),
        ensures
            vbounded(c.0, WORLD_MAX as int),
            (c.0.x as int, c.0.y as int, c.0.z as int) == prim_centroid_spec(*self),
    {
        match self {
            Primitive::Sphere(s) => {
                let c = s.centroid();
                proof {
                    assert(iabs(c.0.x as int) <= WORLD_MAX && iabs(c.0.y as int) <= WORLD_MAX
                        && iabs(c.0.z as int) <= WORLD_MAX);
                }
                c
            },
            Primitive::Tri(t) => t.centroid(),
        }
    }

    /// Where the ray strikes the shape within the half-open interval.
    pub fn bounce(&self, r: Ray, tmin: i64, tmax: i64) -> (res: Option<VisibleHit>)
        requires
            prim_wf(*self),
            ray_wf(r),
        ensures
            match res {
                Some(h) => prim_bounce_spec(*self, r, tmin as int, tmax as int) == Some(h.t as int)
                    && hit_wf(h),
                None => prim_bounce_spec(*self, r, tmin as int, tmax as int) is None,
            },
    {
        match self {
            Primitive::Sphere(s) => s.bounce(r, tmin, tmax),
            Primitive::Tri(t) => t.bounce(r, tmin, tmax),
        }
    }
}

/// The three coordinate axes.
pub enum Axis {
    X,
    Y,
    Z,
}

/// The coordinate a centroid triple has on one axis.
pub open spec fn axis_coord(axis: Axis, c: (int, int, int)) -> int {
    match axis {
        Axis::X => c.0,
        Axis::Y => c.1,
        Axis::Z => c.2,
    }
}

/// The geometric soundness of slab pruning, for one ray and interval:
/// at every node of the subtree, whenever a primitive beneath the node
/// has a hit, the node's own box test reports an entry no later than
/// that hit. The box-test arithmetic truncates, so this is stated as a
/// hypothesis of one query rather than derived from `node_covers`.
pub open spec fn boxes_see(n: BvhNode, r: Ray, tmin: int, tmax: int) -> bool
    decreases n,
{
    &&& forall|i: int|
        0 <= i < node_prims(n).len() ==> match #[trigger] prim_bounce_spec(
            *node_prims(n)[i],
            r,
            tmin,
            tmax,
        ) {
            None => true,
            Some(t) => box_hit_spec(n.node_box(), r, tmin, tmax) is Some && box_hit_spec(
                n.node_box(),
                r,
                tmin,
                tmax,
            )->Some_0 <= t,
        }
    &&& match n {
        BvhNode::Inner(inr) => boxes_see(*inr.left, r, tmin, tmax) && boxes_see(
            *inr.right,
            r,
            tmin,
            tmax,
        ),
        BvhNode::Leaf(_) => true,
    }
}

/// The box-seeing hypothesis, through a reference.
pub open spec fn boxes_see_ref(n: &BvhNode, r: Ray, tmin: int, tmax: int) -> bool {
    boxes_see(*n, r, tmin, tmax)
}

/// A subtree whose own box enters the ray no earlier than `bound` holds
/// no hit before `bound`, under the box-seeing hypothesis.
proof fn lemma_side_pruned(n: BvhNode, r: Ray, tmin: int, tmax: int, bound: int)
    requires
        boxes_see(n, r, tmin, tmax),
        box_hit_spec(n.node_box(), r, tmin, tmax) is Some,
        box_hit_spec(n.node_box(), r, tmin, tmax)->Some_0 >= bound,
    ensures
        forall|j: int|
            0 <= j < node_prims(n).len() ==> match #[trigger] prim_bounce_spec(
                *node_prims(n)[j],
                r,
                tmin,
                tmax,
            ) {
                None => true,
                Some(tj) => tj >= bound,
            },
{
}

/// A subtree whose own box the ray misses holds no hit at all, under
/// the box-seeing hypothesis.
proof fn lemma_side_blind(n: BvhNode, r: Ray, tmin: int, tmax: int)
    requires
        boxes_see(n, r, tmin, tmax),
        box_hit_spec(n.node_box(), r, tmin, tmax) is None,
    ensures
        forall|j: int|
            0 <= j < node_prims(n).len() ==> #[trigger] prim_bounce_spec(
                *node_prims(n)[j],
                r,
                tmin,
                tmax,
            ) is None,
{
    assert forall|j: int|
        0 <= j < node_prims(n).len() implies #[trigger] prim_bounce_spec(
        *node_prims(n)[j],
        r,
        tmin,
        tmax,
    ) is None by {
        assert(match prim_bounce_spec(*node_prims(n)[j], r, tmin, tmax) {
            None => true,
            Some(t) => box_hit_spec(n.node_box(), r, tmin, tmax) is Some && box_hit_spec(
                n.node_box(),
                r,
                tmin,
                tmax,
            )->Some_0 <= t,
        });
    }
}

/// Joining per-child knowledge at an inner node: a result that one
/// child produced and that no primitive of either child beats is the
/// nearest over the node's primitives, and two childless sides make a
/// miss.
proof fn lemma_nearest_combine(n: BvhNode, r: Ray, tmin: int, tmax: int, res: Option<VisibleHit>)
    requires
        n is Inner,
        match res {
            Some(h) => {
                &&& forall|j: int|
                    0 <= j < node_prims(*n->Inner_0.left).len() ==> match #[trigger] prim_bounce_spec(
                        *node_prims(*n->Inner_0.left)[j],
                        r,
                        tmin,
                        tmax,
                    ) {
                        None => true,
                        Some(tj) => tj >= h.t as int,
                    }
                &&& forall|j: int|
                    0 <= j < node_prims(*n->Inner_0.right).len() ==> match #[trigger] prim_bounce_spec(
                        *node_prims(*n->Inner_0.right)[j],
                        r,
                        tmin,
                        tmax,
                    ) {
                        None => true,
                        Some(tj) => tj >= h.t as int,
                    }
                &&& ((exists|i: int|
                    0 <= i < node_prims(*n->Inner_0.left).len() && #[trigger] prim_bounce_spec(
                        *node_prims(*n->Inner_0.left)[i],
                        r,
                        tmin,
                        tmax,
                    ) == Some(h.t as int)) || (exists|i: int|
                    0 <= i < node_prims(*n->Inner_0.right).len() && #[trigger] prim_bounce_spec(
                        *node_prims(*n->Inner_0.right)[i],
                        r,
                        tmin,
                        tmax,
                    ) == Some(h.t as int)))
            },
            None => {
                &&& forall|j: int|
                    0 <= j < node_prims(*n->Inner_0.left).len()
                        ==> #[trigger] prim_bounce_spec(
                        *node_prims(*n->Inner_0.left)[j],
                        r,
                        tmin,
                        tmax,
                    ) is None
                &&& forall|j: int|
                    0 <= j < node_prims(*n->Inner_0.right).len()
                        ==> #[trigger] prim_bounce_spec(
                        *node_prims(*n->Inner_0.right)[j],
                        r,
                        tmin,
                        tmax,
                    ) is None
            },
        },
    ensures
        nearest_of(node_prims(n), r, tmin, tmax, res),
{
    lemma_child_prims(n);
    let left = node_prims(*n->Inner_0.left);
    let right = node_prims(*n->Inner_0.right);
    let all = node_prims(n);
    match res {
        Some(h) => {
            assert forall|j: int|
                0 <= j < all.len() implies (match #[trigger] prim_bounce_spec(
                *all[j],
                r,
                tmin,
                tmax,
            ) {
                None => true,
                Some(tj) => tj >= h.t as int,
            }) by {
                if j < left.len() {
                    assert(all[j] == left[j]);
                } else {
                    assert(all[j] == right[j - left.len()]);
                }
            }
            if exists|i: int|
                0 <= i < left.len() && #[trigger] prim_bounce_spec(*left[i], r, tmin, tmax)
                    == Some(h.t as int) {
                let i = choose|i: int|
                    0 <= i < left.len() && #[trigger] prim_bounce_spec(*left[i], r, tmin, tmax)
                        == Some(h.t as int);
                assert(all[i] == left[i]);
                assert(prim_bounce_spec(*all[i], r, tmin, tmax) == Some(h.t as int));
            } else {
                let i = choose|i: int|
                    0 <= i < right.len() && #[trigger] prim_bounce_spec(*right[i], r, tmin, tmax)
                        == Some(h.t as int);
                assert(all[left.len() + i] == right[i]);
                assert(prim_bounce_spec(*all[left.len() + i], r, tmin, tmax) == Some(h.t as int));
            }
        },
        None => {
            assert forall|j: int|
                0 <= j < all.len() implies #[trigger] prim_bounce_spec(
                *all[j],
                r,
                tmin,
                tmax,
            ) is None by {
                if j < left.len() {
                    assert(all[j] == left[j]);
                } else {
                    assert(all[j] == right[j - left.len()]);
                }
            }
        },
    }
}

impl Axis {
    /// The coordinate of a point on this axis.
    fn of(&self, p: &Point<i64>) -> (r: i64)
        ensures
            r == match *self {
                Axis::X => p.0.x,
                Axis::Y => p.0.y,
                Axis::Z => p.0.z,
            },
    {
        match self {
            Axis::X => p.0.x,
            Axis::Y => p.0.y,
            Axis::Z => p.0.z,
        }
    }
}

/// The smallest centroid coordinate of the primitives on one axis.
pub open spec fn axis_min(prims: Seq<Arc<Primitive>>, axis: Axis) -> int
    decreases prims.len(),
{
    if prims.len() <= 1 {
        axis_coord(axis, prim_centroid_spec(*prims[0]))
    } else {
        let rest = axis_min(prims.drop_last(), axis);
        let c = axis_coord(axis, prim_centroid_spec(*prims.last()));
        if c < rest {
            c
        } else {
            rest
        }
    }
}

/// The largest centroid coordinate of the primitives on one axis.
pub open spec fn axis_max(prims: Seq<Arc<Primitive>>, axis: Axis) -> int
    decreases prims.len(),
{
    if prims.len() <= 1 {
        axis_coord(axis, prim_centroid_spec(*prims[0]))
    } else {
        let rest = axis_max(prims.drop_last(), axis);
        let c = axis_coord(axis, prim_centroid_spec(*prims.last()));
        if c > rest {
            c
        } else {
            rest
        }
    }
}

/// How many primitives have their centroid coordinate below the
/// threshold on the axis.
pub open spec fn count_below(prims: Seq<Arc<Primitive>>, axis: Axis, thr: int) -> int
    decreases prims.len(),
{
    if prims.len() == 0 {
        0
    } else {
        count_below(prims.drop_last(), axis, thr) + if axis_coord(
            axis,
            prim_centroid_spec(*prims.last()),
        ) < thr {
            1int
        } else {
            0int
        }
    }
}

/// The union of the boxes of the primitives below the threshold.
pub open spec fn boxfold_below(prims: Seq<Arc<Primitive>>, axis: Axis, thr: int) -> BoundingBox
    decreases prims.len(),
{
    if prims.len() == 0 {
        BoundingBox {
            x: Span { start: WORLD_MAX as i64, end: (-WORLD_MAX) as i64 },
            y: Span { start: WORLD_MAX as i64, end: (-WORLD_MAX) as i64 },
            z: Span { start: WORLD_MAX as i64, end: (-WORLD_MAX) as i64 },
        }
    } else {
        let rest = boxfold_below(prims.drop_last(), axis, thr);
        if axis_coord(axis, prim_centroid_spec(*prims.last())) < thr {
            crate::object::bbox::box_union_spec(rest, prim_bbox_spec(*prims.last()))
        } else {
            rest
        }
    }
}

/// The union of the boxes of the primitives at or above the threshold.
pub open spec fn boxfold_above(prims: Seq<Arc<Primitive>>, axis: Axis, thr: int) -> BoundingBox
    decreases prims.len(),
{
    if prims.len() == 0 {
        BoundingBox {
            x: Span { start: WORLD_MAX as i64, end: (-WORLD_MAX) as i64 },
            y: Span { start: WORLD_MAX as i64, end: (-WORLD_MAX) as i64 },
            z: Span { start: WORLD_MAX as i64, end: (-WORLD_MAX) as i64 },
        }
    } else {
        let rest = boxfold_above(prims.drop_last(), axis, thr);
        if axis_coord(axis, prim_centroid_spec(*prims.last())) < thr {
            rest
        } else {
            crate::object::bbox::box_union_spec(rest, prim_bbox_spec(*prims.last()))
        }
    }
}

/// The candidate cut point `s` of the centroid range: one of the
/// equal-width bucket boundaries.
pub open spec fn split_threshold_spec(cmin: int, extent: int, s: int) -> int {
    cmin + crate::fixed::tdiv((s + 1) * extent, NUM_BUCKETS as int)
}

/// The heuristic cost of cutting at a threshold: the traversal charge
/// plus each side's primitive count times its box size.
pub open spec fn split_cost_spec(prims: Seq<Arc<Primitive>>, axis: Axis, thr: int) -> int {
    COST_TRAVERSAL + count_below(prims, axis, thr) * crate::object::bbox::surface_area_spec(
        boxfold_below(prims, axis, thr),
    ) + (prims.len() - count_below(prims, axis, thr)) * crate::object::bbox::surface_area_spec(
        boxfold_above(prims, axis, thr),
    )
}

/// The cut separates the set: each side keeps at least one primitive.
pub open spec fn split_separates(prims: Seq<Arc<Primitive>>, axis: Axis, thr: int) -> bool {
    0 < count_below(prims, axis, thr) < prims.len()
}

/// No bucket-boundary cut on this axis separates the set: the centroid
/// range is a single point, or every candidate cut leaves a side empty.
pub open spec fn axis_no_cut(prims: Seq<Arc<Primitive>>, axis: Axis) -> bool {
    let cmin = axis_min(prims, axis);
    let extent = axis_max(prims, axis) - cmin;
    extent == 0 || forall|s: int|
        0 <= s < NUM_BUCKETS - 1 ==> !split_separates(
            prims,
            axis,
            #[trigger] split_threshold_spec(cmin, extent, s),
        )
}

/// Every leaf holds at most the leaf cap of primitives, except the
/// defensive fallback: a set that no candidate cut on any axis can
/// separate stays one larger leaf.
pub open spec fn leaves_capped(n: BvhNode) -> bool
    decreases n,
{
    match n {
        BvhNode::Inner(i) => leaves_capped(*i.left) && leaves_capped(*i.right),
        BvhNode::Leaf(l) => l.primitives@.len() <= MAX_PRIMS_PER_NODE || (axis_no_cut(
            l.primitives@,
            Axis::X,
        ) && axis_no_cut(l.primitives@, Axis::Y) && axis_no_cut(l.primitives@, Axis::Z)),
    }
}

/// A chosen partition plane: the axis, the centroid threshold, and the
/// heuristic cost it was picked for.
pub struct Split {
    pub axis: Axis,
    pub threshold: i64,
    pub cost: i128,
}

/// A node of the tree.
pub enum BvhNode {
    Inner(BvhInner),
    Leaf(BvhLeaf),
}

/// An inner node: a box covering its subtree, the split that formed it,
/// and two children.
pub struct BvhInner {
    pub bbox: BoundingBox,
    pub split: Split,
    pub left: Box<BvhNode>,
    pub right: Box<BvhNode>,
}

/// A leaf: a box and the primitives tested directly.
pub struct BvhLeaf {
    pub bbox: BoundingBox,
    pub primitives: Vec<Arc<Primitive>>,
}

/// Every primitive in the subtree rooted at `n`, in tree order.
pub open spec fn node_prims(n: BvhNode) -> Seq<Arc<Primitive>>
    decreases n,
{
    match n {
        BvhNode::Inner(i) => node_prims(*i.left) + node_prims(*i.right),
        BvhNode::Leaf(l) => l.primitives@,
    }
}

/// Boxes and primitives of the subtree are well-formed.
pub open spec fn node_wf(n: BvhNode) -> bool
    decreases n,
{
    match n {
        BvhNode::Inner(i) => box_wf(i.bbox) && node_wf(*i.left) && node_wf(*i.right),
        BvhNode::Leaf(l) => box_wf(l.bbox) && forall|i: int|
            0 <= i < l.primitives@.len() ==> prim_wf(*#[trigger] l.primitives@[i]),
    }
}

/// All primitives in a list are well-formed.
pub open spec fn prims_wf(s: Seq<Arc<Primitive>>) -> bool {
    forall|i: int| 0 <= i < s.len() ==> prim_wf(*#[trigger] s[i])
}

/// Every node's box contains the bounding box of every primitive in its
/// subtree: the invariant that justifies pruning a subtree whose box a
/// ray misses.
pub open spec fn node_covers(n: BvhNode) -> bool
    decreases n,
{
    &&& forall|p: Arc<Primitive>|
        #[trigger] node_prims(n).to_multiset().count(p) > 0
            ==> crate::object::bbox::box_contains(n.node_box(), prim_bbox_spec(*p))
    &&& match n {
        BvhNode::Inner(i) => node_covers(*i.left) && node_covers(*i.right),
        BvhNode::Leaf(_) => true,
    }
}

/// Considers the candidate cut points on one axis and returns the
/// cheapest: `None` exactly when no bucket-boundary cut separates the
/// set; otherwise a cut at one of the equal-width bucket boundaries of
/// the centroid range that separates the set, carrying its exact
/// heuristic cost, with no considered separating cut cheaper.
#[verifier::rlimit(100)]
fn find_best_split(prims: &Vec<Arc<Primitive>>, axis: Axis) -> (res: Option<Split>)
    requires
        prims_wf(prims@),
        prims@.len() >= 1,
        prims@.len() <= 0x1000_0000,
    ensures
        res is Some ==> exists|i: int, j: int|
            0 <= i < prims@.len() && 0 <= j < prims@.len() && axis_coord(
                axis,
                #[trigger] prim_centroid_spec(*prims@[i]),
            ) != axis_coord(axis, #[trigger] prim_centroid_spec(*prims@[j])),
        res matches Some(sp) ==> {
            let cmin = axis_min(prims@, axis);
            let extent = axis_max(prims@, axis) - cmin;
            &&& sp.axis == axis
            &&& extent > 0
            &&& exists|s: int|
                0 <= s < NUM_BUCKETS - 1 && sp.threshold == #[trigger] split_threshold_spec(
                    cmin,
                    extent,
                    s,
                )
            &&& split_separates(prims@, axis, sp.threshold as int)
            &&& sp.cost == split_cost_spec(prims@, axis, sp.threshold as int)
            &&& forall|s: int|
                0 <= s < NUM_BUCKETS - 1 && split_separates(
                    prims@,
                    axis,
                    #[trigger] split_threshold_spec(cmin, extent, s),
                ) ==> sp.cost <= split_cost_spec(
                    prims@,
                    axis,
                    split_threshold_spec(cmin, extent, s),
                )
        },
        res is None ==> {
            let cmin = axis_min(prims@, axis);
            let extent = axis_max(prims@, axis) - cmin;
            extent == 0 || forall|s: int|
                0 <= s < NUM_BUCKETS - 1 ==> !split_separates(
                    prims@,
                    axis,
                    #[trigger] split_threshold_spec(cmin, extent, s),
                )
        },
{
    let n = prims.len();

    let mut cmin: i64 = axis.of(&prims[0].centroid());
    let mut cmax: i64 = cmin;
    let ghost mut imin: int = 0;
    let ghost mut imax: int = 0;
    proof {
        assert(prims@.take(1).len() == 1);
        assert(prims@.take(1)[0] == prims@[0]);
    }
    let mut k: usize = 1;
    while k < n
        invariant
            prims_wf(prims@),
            n == prims@.len(),
            1 <= k <= n,
            -WORLD_MAX <= cmin <= WORLD_MAX,
            -WORLD_MAX <= cmax <= WORLD_MAX,
            cmin <= cmax,
            0 <= imin < n,
            0 <= imax < n,
            cmin == axis_coord(axis, prim_centroid_spec(*prims@[imin])),
            cmax == axis_coord(axis, prim_centroid_spec(*prims@[imax])),
            cmin == axis_min(prims@.take(k as int), axis),
            cmax == axis_max(prims@.take(k as int), axis),
        decreases n - k,
    {
        let c = axis.of(&prims[k].centroid());
        proof {
            assert(prims@.take(k as int + 1).drop_last() =~= prims@.take(k as int));
            assert(prims@.take(k as int + 1).last() == prims@[k as int]);
        }
        if c < cmin {
            cmin = c;
            proof {
                imin = k as int;
            }
        }
        if c > cmax {
            cmax = c;
            proof {
                imax = k as int;
            }
        }
        k = k + 1;
    }
    proof {
        assert(prims@.take(n as int) =~= prims@);
    }

    let extent = cmax - cmin;
    if extent == 0 {
        return None;
    }

    let mut best: Option<(i64, i128)> = None;

    let mut split_idx: i64 = 0;
    while split_idx < NUM_BUCKETS - 1
        invariant
            prims_wf(prims@),
            n == prims@.len(),
            n <= 0x1000_0000,
            0 <= split_idx <= NUM_BUCKETS - 1,
            -WORLD_MAX <= cmin <= WORLD_MAX,
            -WORLD_MAX <= cmax <= WORLD_MAX,
            0 < extent == cmax - cmin,
            cmin == axis_min(prims@, axis),
            cmax == axis_max(prims@, axis),
            match best {
                Some(bc) => {
                    &&& iabs(bc.0 as int) <= 2 * WORLD_MAX
                    &&& exists|s: int|
                        0 <= s < split_idx && bc.0 == #[trigger] split_threshold_spec(
                            cmin as int,
                            extent as int,
                            s,
                        )
                    &&& split_separates(prims@, axis, bc.0 as int)
                    &&& bc.1 == split_cost_spec(prims@, axis, bc.0 as int)
                    &&& forall|s: int|
                        0 <= s < split_idx && split_separates(
                            prims@,
                            axis,
                            #[trigger] split_threshold_spec(cmin as int, extent as int, s),
                        ) ==> bc.1 <= split_cost_spec(
                            prims@,
                            axis,
                            split_threshold_spec(cmin as int, extent as int, s),
                        )
                },
                None => forall|s: int|
                    0 <= s < split_idx ==> !split_separates(
                        prims@,
                        axis,
                        #[trigger] split_threshold_spec(cmin as int, extent as int, s),
                    ),
            },
        decreases NUM_BUCKETS - split_idx,
    {
        proof {
            crate::fixed::lemma_mul_le(
                (split_idx + 1) as int,
                extent as int,
                NUM_BUCKETS as int,
                2 * WORLD_MAX,
            );
            lemma_tdiv_le((split_idx + 1) as int * extent, NUM_BUCKETS as int);
            crate::fixed::lemma_mul_sign((split_idx + 1) as int, extent as int);
            assert((split_idx + 1) as int * extent <= NUM_BUCKETS as int * extent)
                by (nonlinear_arith)
                requires
                    0 <= split_idx + 1 <= NUM_BUCKETS,
                    extent >= 0,
            ;
            crate::fixed::lemma_div_mono(
                (split_idx + 1) as int * extent,
                NUM_BUCKETS as int * extent,
                NUM_BUCKETS as int,
            );
            vstd::arithmetic::div_mod::lemma_fundamental_div_mod_converse(
                NUM_BUCKETS as int * extent,
                NUM_BUCKETS as int,
                extent as int,
                0,
            );
        }
        let offset = div_t(
            ((split_idx + 1) as i128) * (extent as i128),
            NUM_BUCKETS as i128,
        ) as i64;
        let threshold = cmin + offset;
        proof {
            assert(threshold == split_threshold_spec(
                cmin as int,
                extent as int,
                split_idx as int,
            ));
        }

        let mut left_count: i128 = 0;
        let mut right_count: i128 = 0;
        let mut left_box = BoundingBox::empty();
        let mut right_box = BoundingBox::empty();
        proof {
            assert(prims@.take(0).len() == 0);
        }
        let mut j: usize = 0;
        while j < n
            invariant
                prims_wf(prims@),
                n == prims@.len(),
                n <= 0x1000_0000,
                0 <= j <= n,
                0 <= left_count <= j,
                0 <= right_count <= j,
                box_wf(left_box),
                box_wf(right_box),
                left_count == count_below(prims@.take(j as int), axis, threshold as int),
                right_count == j - left_count,
                left_box == boxfold_below(prims@.take(j as int), axis, threshold as int),
                right_box == boxfold_above(prims@.take(j as int), axis, threshold as int),
            decreases n - j,
        {
            let c = prims[j].centroid();
            let b = prims[j].bbox();
            proof {
                assert(prims@.take(j as int + 1).drop_last() =~= prims@.take(j as int));
                assert(prims@.take(j as int + 1).last() == prims@[j as int]);
            }
            if axis.of(&c) < threshold {
                left_count = left_count + 1;
                left_box = left_box.union(&b);
            } else {
                right_count = right_count + 1;
                right_box = right_box.union(&b);
            }
            j = j + 1;
        }
        proof {
            assert(prims@.take(n as int) =~= prims@);
        }

        if left_count > 0 && right_count > 0 {
            let left_sa = left_box.surface_area();
            let right_sa = right_box.surface_area();
            proof {
                crate::fixed::lemma_mul_le(
                    left_count as int,
                    left_sa as int,
                    0x1000_0000,
                    0x1000_0000_0000_0000,
                );
                crate::fixed::lemma_mul_le(
                    right_count as int,
                    right_sa as int,
                    0x1000_0000,
                    0x1000_0000_0000_0000,
                );
            }
            let split_cost: i128 = (COST_TRAVERSAL as i128) + left_count * (left_sa as i128)
                + right_count * (right_sa as i128);
            proof {
                assert(split_cost == split_cost_spec(prims@, axis, threshold as int));
            }
            let better = match best {
                Some((_, c)) => split_cost < c,
                None => true,
            };
            if better {
                best = Some((threshold, split_cost));
            }
        }
        split_idx = split_idx + 1;
    }

    match best {
        Some((threshold, cost)) => Some(Split { axis, threshold, cost }),
        None => None,
    }
}

/// Splits the primitives by comparing each centroid against the
/// threshold on the chosen axis; together the two sides hold exactly the
/// primitives given.
fn partition(items: Vec<Arc<Primitive>>, axis: &Axis, threshold: i64) -> (lr: (
    Vec<Arc<Primitive>>,
    Vec<Arc<Primitive>>,
))
    requires
        prims_wf(items@),
    ensures
        lr.0@.to_multiset().add(lr.1@.to_multiset()) == items@.to_multiset(),
        lr.0@.len() + lr.1@.len() == items@.len(),
        lr.0@.len() == count_below(items@, *axis, threshold as int),
        prims_wf(lr.0@),
        prims_wf(lr.1@),
        forall|i: int|
            0 <= i < lr.0@.len() ==> axis_coord(
                *axis,
                prim_centroid_spec(*#[trigger] lr.0@[i]),
            ) < threshold,
        forall|i: int|
            0 <= i < lr.1@.len() ==> axis_coord(
                *axis,
                prim_centroid_spec(*#[trigger] lr.1@[i]),
            ) >= threshold,
{
    let mut rest = items;
    let mut left: Vec<Arc<Primitive>> = Vec::new();
    let mut right: Vec<Arc<Primitive>> = Vec::new();
    let ghost orig = rest@;
    proof {
        broadcast use vstd::seq_lib::group_to_multiset_ensures;
        broadcast use vstd::multiset::group_multiset_axioms;

        assert(left@.to_multiset().add(right@.to_multiset()).add(rest@.to_multiset())
            =~= orig.to_multiset());
        assert(orig.take(rest@.len() as int) =~= rest@);
    }
    while rest.len() > 0
        invariant
            prims_wf(rest@),
            prims_wf(left@),
            prims_wf(right@),
            left@.to_multiset().add(right@.to_multiset()).add(rest@.to_multiset())
                == orig.to_multiset(),
            left@.len() + right@.len() + rest@.len() == orig.len(),
            rest@ == orig.take(rest@.len() as int),
            left@.len() == count_below(orig, *axis, threshold as int) - count_below(
                rest@,
                *axis,
                threshold as int,
            ),
            forall|i: int|
                0 <= i < left@.len() ==> axis_coord(
                    *axis,
                    prim_centroid_spec(*#[trigger] left@[i]),
                ) < threshold,
            forall|i: int|
                0 <= i < right@.len() ==> axis_coord(
                    *axis,
                    prim_centroid_spec(*#[trigger] right@[i]),
                ) >= threshold,
        decreases rest@.len(),
    {
        let ghost before = rest@;
        let ghost left_before = left@;
        let ghost right_before = right@;
        let popped = rest.pop();
        match popped {
            None => {
            },
            Some(p) => {
                proof {
                    broadcast use vstd::seq_lib::group_to_multiset_ensures;
                    broadcast use vstd::multiset::group_multiset_axioms;

                    assert(before =~= rest@.push(p));
                    assert(before.to_multiset() =~= rest@.to_multiset().insert(p));
                    assert(orig.take(rest@.len() as int) =~= rest@) by {
                        assert(before.drop_last() =~= rest@);
                        assert(orig.take(before.len() as int).drop_last() =~= orig.take(
                            rest@.len() as int,
                        ));
                    }
                    assert(before.last() == p);
                    assert(prims_wf(rest@)) by {
                        assert forall|i: int| 0 <= i < rest@.len() implies prim_wf(
                            *#[trigger] rest@[i],
                        ) by {
                            assert(rest@[i] == before[i]);
                        }
                    }
                    assert(prim_wf(*p)) by {
                        assert(before[before.len() - 1] == p);
                    }
                }
                let c = p.centroid();
                if axis.of(&c) < threshold {
                    left.push(p);
                } else {
                    right.push(p);
                }
                proof {
                    broadcast use vstd::seq_lib::group_to_multiset_ensures;
                    broadcast use vstd::multiset::group_multiset_axioms;

                    assert(left@.to_multiset().add(right@.to_multiset()).add(rest@.to_multiset())
                        =~= orig.to_multiset());
                    assert(prims_wf(left@)) by {
                        assert forall|i: int| 0 <= i < left@.len() implies prim_wf(
                            *#[trigger] left@[i],
                        ) by {
                            if i < left_before.len() {
                                assert(left@[i] == left_before[i]);
                            }
                        }
                    }
                    assert(prims_wf(right@)) by {
                        assert forall|i: int| 0 <= i < right@.len() implies prim_wf(
                            *#[trigger] right@[i],
                        ) by {
                            if i < right_before.len() {
                                assert(right@[i] == right_before[i]);
                            }
                        }
                    }
                    assert forall|i: int|
                        0 <= i < left@.len() implies axis_coord(
                        *axis,
                        prim_centroid_spec(*#[trigger] left@[i]),
                    ) < threshold by {
                        if i < left_before.len() {
                            assert(left@[i] == left_before[i]);
                        }
                    }
                    assert forall|i: int|
                        0 <= i < right@.len() implies axis_coord(
                        *axis,
                        prim_centroid_spec(*#[trigger] right@[i]),
                    ) >= threshold by {
                        if i < right_before.len() {
                            assert(right@[i] == right_before[i]);
                        }
                    }
                }
            },
        }
    }
    proof {
        broadcast use vstd::seq_lib::group_to_multiset_ensures;
        broadcast use vstd::multiset::group_multiset_axioms;

        assert(rest@.to_multiset() =~= Multiset::<Arc<Primitive>>::empty());
        assert(left@.to_multiset().add(right@.to_multiset()) =~= orig.to_multiset());
    }
    (left, right)
}

impl BvhNode {
    /// Tests the ray against the node's own box.
    fn intersect(&self, r: Ray, tmin: i64, tmax: i64) -> (res: Option<i64>)
        requires
            node_wf(*self),
            ray_wf(r),
        ensures
            match res {
                Some(t) => box_hit_spec(self.node_box(), r, tmin as int, tmax as int) == Some(
                    t as int,
                ),
                None => box_hit_spec(self.node_box(), r, tmin as int, tmax as int) is None,
            },
    {
        match self {
            BvhNode::Inner(inner) => inner.bbox.hit(r, tmin, tmax),
            BvhNode::Leaf(leaf) => leaf.bbox.hit(r, tmin, tmax),
        }
    }

    /// The node's own bounding box.
    pub open spec fn node_box(&self) -> BoundingBox {
        match *self {
            BvhNode::Inner(i) => i.bbox,
            BvhNode::Leaf(l) => l.bbox,
        }
    }

    /// Builds the subtree for the given primitives: finds the cheapest
    /// cut over the three axes, and either splits and recurses or stores
    /// a leaf. A cut that fails to separate the set falls back to a
    /// leaf, so construction always terminates.
    fn build(primitives: Vec<Arc<Primitive>>) -> (n: BvhNode)
        requires
            prims_wf(primitives@),
            primitives@.len() <= 0x1000_0000,
        ensures
            node_wf(n),
            node_prims(n).to_multiset() == primitives@.to_multiset(),
            node_covers(n),
            leaves_capped(n),
        decreases primitives@.len(),
    {
        let mut containing = BoundingBox::empty();
        let count = primitives.len();
        let mut k: usize = 0;
        while k < count
            invariant
                prims_wf(primitives@),
                count == primitives@.len(),
                0 <= k <= count,
                box_wf(containing),
                forall|j: int|
                    0 <= j < k ==> crate::object::bbox::box_contains(
                        containing,
                        prim_bbox_spec(*#[trigger] primitives@[j]),
                    ),
            decreases count - k,
        {
            let ghost prev = containing;
            let b = primitives[k].bbox();
            containing = containing.union(&b);
            proof {
                crate::object::bbox::lemma_union_smallest(prev, b);
                assert forall|j: int|
                    0 <= j < k + 1 implies crate::object::bbox::box_contains(
                    containing,
                    prim_bbox_spec(*#[trigger] primitives@[j]),
                ) by {
                    if j < k {
                        assert(crate::object::bbox::box_contains(
                            prev,
                            prim_bbox_spec(*primitives@[j]),
                        ));
                    } else {
                        assert(prim_bbox_spec(*primitives@[j]) == b);
                    }
                }
            }
            k = k + 1;
        }
        let ghost all = primitives@;
        proof {
            lemma_seq_cover_to_multiset(all, containing);
        }

        if count == 0 {
            proof {
                broadcast use vstd::seq_lib::group_to_multiset_ensures;

            }
            return BvhNode::Leaf(BvhLeaf { bbox: containing, primitives });
        }

        let split_x = find_best_split(&primitives, Axis::X);
        let split_y = find_best_split(&primitives, Axis::Y);
        let split_z = find_best_split(&primitives, Axis::Z);

        // Choose the axis with the lowest cost; all three may be empty.
        let best = pick_cheaper(pick_cheaper(split_x, split_y), split_z);

        proof {
            crate::fixed::lemma_mul_le(count as int, SCALE as int, 0x1000_0000, SCALE as int);
        }
        let leaf_cost: i128 = (count as i128) * (SCALE as i128);
        match best {
            Some(split) => {
                if split.cost < leaf_cost || count > MAX_PRIMS_PER_NODE {
                    let ghost orig = primitives@;
                    proof {
                        assert(split_separates(orig, split.axis, split.threshold as int));
                    }
                    let (left, right) = partition(primitives, &split.axis, split.threshold);
                    if left.len() == 0 {
                        // The chosen cut separates the set, so this
                        // defensive fallback can never be taken.
                        proof {
                            assert(false);
                        }
                        BvhNode::Leaf(BvhLeaf { bbox: containing, primitives: right })
                    } else if right.len() == 0 {
                        proof {
                            assert(false);
                        }
                        BvhNode::Leaf(BvhLeaf { bbox: containing, primitives: left })
                    } else {
                        let left_child = BvhNode::build(left);
                        let right_child = BvhNode::build(right);
                        proof {
                            lemma_multiset_commutative(
                                node_prims(left_child),
                                node_prims(right_child),
                            );
                        }
                        BvhNode::Inner(
                            BvhInner {
                                bbox: containing,
                                split,
                                left: Box::new(left_child),
                                right: Box::new(right_child),
                            },
                        )
                    }
                } else {
                    BvhNode::Leaf(BvhLeaf { bbox: containing, primitives })
                }
            },
            None => BvhNode::Leaf(BvhLeaf { bbox: containing, primitives }),
        }
    }

    /// Walks the subtree for the nearest hit: children are visited
    /// nearer box first, and the farther child is only entered when the
    /// best hit so far does not already beat its box entry. Any hit
    /// returned is a genuine hit of one of the subtree's primitives
    /// inside the queried interval, and a leaf whose box the ray enters
    /// answers with exactly the nearest hit among its primitives.
    #[verifier::rlimit(100)]
    fn bounce(&self, r: Ray, tmin: i64, tmax: i64) -> (res: Option<VisibleHit>)
        requires
            node_wf(*self),
            ray_wf(r),
        ensures
            match res {
                Some(h) => {
                    &&& hit_wf(h)
                    &&& tmin <= h.t < tmax
                    &&& exists|i: int|
                        0 <= i < node_prims(*self).len() && genuine_hit(
                            *#[trigger] node_prims(*self)[i],
                            r,
                            tmin as int,
                            h,
                        )
                },
                None => true,
            },
            (*self) is Leaf && box_hit_spec(self.node_box(), r, tmin as int, tmax as int) is Some
                ==> nearest_of(node_prims(*self), r, tmin as int, tmax as int, res),
            boxes_see(*self, r, tmin as int, tmax as int) ==> nearest_of(
                node_prims(*self),
                r,
                tmin as int,
                tmax as int,
                res,
            ),
        decreases *self,
    {
        if self.intersect(r, tmin, tmax).is_none() {
            proof {
                if boxes_see_ref(self, r, tmin as int, tmax as int) {
                    lemma_side_blind(*self, r, tmin as int, tmax as int);
                }
            }
            return None;
        }

        match self {
            BvhNode::Inner(inner) => {
                let left_t = inner.left.intersect(r, tmin, tmax);
                let right_t = inner.right.intersect(r, tmin, tmax);

                match (left_t, right_t) {
                    (Some(lt), Some(rt)) => {
                        let nearer_left = lt < rt;
                        let first: &BvhNode = if nearer_left {
                            &*inner.left
                        } else {
                            &*inner.right
                        };
                        let second: &BvhNode = if nearer_left {
                            &*inner.right
                        } else {
                            &*inner.left
                        };
                        let second_t = if nearer_left {
                            rt
                        } else {
                            lt
                        };

                        let closest_hit = first.bounce(r, tmin, tmax);

                        match closest_hit {
                            Some(hit) => {
                                if hit.t >= second_t {
                                    match second.bounce(r, tmin, tmax) {
                                        Some(second_hit) => {
                                            if hit.t > second_hit.t {
                                                proof {
                                                    lemma_lift(
                                                        *self,
                                                        r,
                                                        tmin as int,
                                                        second_hit,
                                                    );
                                                    if boxes_see_ref(
                                                        self,
                                                        r,
                                                        tmin as int,
                                                        tmax as int,
                                                    ) {
                                                        lemma_nearest_combine(
                                                            *self,
                                                            r,
                                                            tmin as int,
                                                            tmax as int,
                                                            Some(second_hit),
                                                        );
                                                    }
                                                }
                                                Some(second_hit)
                                            } else {
                                                proof {
                                                    lemma_lift(*self, r, tmin as int, hit);
                                                    if boxes_see_ref(
                                                        self,
                                                        r,
                                                        tmin as int,
                                                        tmax as int,
                                                    ) {
                                                        lemma_nearest_combine(
                                                            *self,
                                                            r,
                                                            tmin as int,
                                                            tmax as int,
                                                            Some(hit),
                                                        );
                                                    }
                                                }
                                                Some(hit)
                                            }
                                        },
                                        None => {
                                            proof {
                                                lemma_lift(*self, r, tmin as int, hit);
                                                if boxes_see_ref(
                                                    self,
                                                    r,
                                                    tmin as int,
                                                    tmax as int,
                                                ) {
                                                    lemma_nearest_combine(
                                                        *self,
                                                        r,
                                                        tmin as int,
                                                        tmax as int,
                                                        Some(hit),
                                                    );
                                                }
                                            }
                                            Some(hit)
                                        },
                                    }
                                } else {
                                    // The best hit already beats the other
                                    // child's box entry; under the box-seeing
                                    // hypothesis nothing closer lies there.
                                    proof {
                                        lemma_lift(*self, r, tmin as int, hit);
                                        if boxes_see_ref(self, r, tmin as int, tmax as int) {
                                            if nearer_left {
                                                lemma_side_pruned(
                                                    *inner.right,
                                                    r,
                                                    tmin as int,
                                                    tmax as int,
                                                    second_t as int,
                                                );
                                            } else {
                                                lemma_side_pruned(
                                                    *inner.left,
                                                    r,
                                                    tmin as int,
                                                    tmax as int,
                                                    second_t as int,
                                                );
                                            }
                                            lemma_nearest_combine(
                                                *self,
                                                r,
                                                tmin as int,
                                                tmax as int,
                                                Some(hit),
                                            );
                                        }
                                    }
                                    Some(hit)
                                }
                            },
                            None => {
                                let res = second.bounce(r, tmin, tmax);
                                proof {
                                    if res is Some {
                                        lemma_lift(*self, r, tmin as int, res->Some_0);
                                    }
                                    if boxes_see_ref(self, r, tmin as int, tmax as int) {
                                        lemma_nearest_combine(
                                            *self,
                                            r,
                                            tmin as int,
                                            tmax as int,
                                            res,
                                        );
                                    }
                                }
                                res
                            },
                        }
                    },
                    (Some(_), None) => {
                        let res = inner.left.bounce(r, tmin, tmax);
                        proof {
                            if res is Some {
                                lemma_lift(*self, r, tmin as int, res->Some_0);
                            }
                            if boxes_see_ref(self, r, tmin as int, tmax as int) {
                                lemma_side_blind(*inner.right, r, tmin as int, tmax as int);
                                lemma_nearest_combine(*self, r, tmin as int, tmax as int, res);
                            }
                        }
                        res
                    },
                    (None, Some(_)) => {
                        let res = inner.right.bounce(r, tmin, tmax);
                        proof {
                            if res is Some {
                                lemma_lift(*self, r, tmin as int, res->Some_0);
                            }
                            if boxes_see_ref(self, r, tmin as int, tmax as int) {
                                lemma_side_blind(*inner.left, r, tmin as int, tmax as int);
                                lemma_nearest_combine(*self, r, tmin as int, tmax as int, res);
                            }
                        }
                        res
                    },
                    _ => {
                        proof {
                            if boxes_see_ref(self, r, tmin as int, tmax as int) {
                                lemma_side_blind(*inner.left, r, tmin as int, tmax as int);
                                lemma_side_blind(*inner.right, r, tmin as int, tmax as int);
                                lemma_nearest_combine(
                                    *self,
                                    r,
                                    tmin as int,
                                    tmax as int,
                                    None::<VisibleHit>,
                                );
                            }
                        }
                        None
                    },
                }
            },
            BvhNode::Leaf(leaf) => {
                let mut best: Option<VisibleHit> = None;
                let mut closest_t: i64 = tmax;
                let mut k: usize = 0;
                let n = leaf.primitives.len();
                while k < n
                    invariant
                        prims_wf(leaf.primitives@),
                        ray_wf(r),
                        k <= n,
                        n == leaf.primitives@.len(),
                        match best {
                            Some(h) => {
                                &&& hit_wf(h)
                                &&& tmin <= h.t < tmax
                                &&& h.t == closest_t
                                &&& exists|i: int|
                                    0 <= i < k && #[trigger] prim_bounce_spec(
                                        *leaf.primitives@[i],
                                        r,
                                        tmin as int,
                                        tmax as int,
                                    ) == Some(h.t as int)
                                &&& forall|j: int|
                                    0 <= j < k ==> match #[trigger] prim_bounce_spec(
                                        *leaf.primitives@[j],
                                        r,
                                        tmin as int,
                                        tmax as int,
                                    ) {
                                        None => true,
                                        Some(tj) => tj >= h.t as int,
                                    }
                            },
                            None => closest_t == tmax && forall|j: int|
                                0 <= j < k ==> #[trigger] prim_bounce_spec(
                                    *leaf.primitives@[j],
                                    r,
                                    tmin as int,
                                    tmax as int,
                                ) is None,
                        },
                    decreases n - k,
                {
                    let ghost old_closest = closest_t;
                    let hit = leaf.primitives[k].bounce(r, tmin, closest_t);
                    proof {
                        lemma_prim_bounce_narrow(
                            leaf.primitives@[k as int],
                            r,
                            tmin as int,
                            old_closest as int,
                            tmax as int,
                        );
                    }
                    match hit {
                        Some(record) => {
                            proof {
                                lemma_prim_hit_in_range(
                                    leaf.primitives@[k as int],
                                    r,
                                    tmin as int,
                                    old_closest as int,
                                    record.t as int,
                                );
                                assert(prim_bounce_spec(
                                    *leaf.primitives@[k as int],
                                    r,
                                    tmin as int,
                                    old_closest as int,
                                ) == Some(record.t as int));
                            }
                            closest_t = record.t;
                            best = Some(record);
                        },
                        None => {
                            proof {
                                lemma_prim_bounce_in_range(
                                    leaf.primitives@[k as int],
                                    r,
                                    tmin as int,
                                    tmax as int,
                                );
                            }
                        },
                    }
                    k = k + 1;
                }
                proof {
                    assert(node_prims(*self) =~= leaf.primitives@);
                    if best is Some {
                        let h = best->Some_0;
                        let i = choose|i: int|
                            0 <= i < leaf.primitives@.len() && #[trigger] prim_bounce_spec(
                                *leaf.primitives@[i],
                                r,
                                tmin as int,
                                tmax as int,
                            ) == Some(h.t as int);
                        assert(genuine_hit(*leaf.primitives@[i], r, tmin as int, h));
                    }
                }
                best
            },
        }
    }
}

/// A box containing every primitive's box of a sequence contains every
/// primitive's box of its multiset.
proof fn lemma_seq_cover_to_multiset(prims: Seq<Arc<Primitive>>, bx: BoundingBox)
    requires
        forall|j: int|
            0 <= j < prims.len() ==> crate::object::bbox::box_contains(
                bx,
                prim_bbox_spec(*#[trigger] prims[j]),
            ),
    ensures
        forall|p: Arc<Primitive>|
            #[trigger] prims.to_multiset().count(p) > 0 ==> crate::object::bbox::box_contains(
                bx,
                prim_bbox_spec(*p),
            ),
{
    broadcast use vstd::seq_lib::group_to_multiset_ensures;

    assert forall|p: Arc<Primitive>|
        #[trigger] prims.to_multiset().count(p) > 0 implies crate::object::bbox::box_contains(
        bx,
        prim_bbox_spec(*p),
    ) by {
        assert(prims.contains(p));
        let j = choose|j: int| 0 <= j < prims.len() && prims[j] == p;
        assert(crate::object::bbox::box_contains(bx, prim_bbox_spec(*prims[j])));
    }
}

/// The primitives of an inner node are those of its children, laid side
/// by side.
proof fn lemma_child_prims(n: BvhNode)
    requires
        n is Inner,
    ensures
        node_prims(n) == node_prims(*n->Inner_0.left) + node_prims(*n->Inner_0.right),
        forall|i: int|
            0 <= i < node_prims(*n->Inner_0.left).len() ==> node_prims(n)[i] == node_prims(
                *n->Inner_0.left,
            )[i],
        forall|i: int|
            0 <= i < node_prims(*n->Inner_0.right).len() ==> node_prims(n)[node_prims(
                *n->Inner_0.left,
            ).len() + i] == node_prims(*n->Inner_0.right)[i],
{
}

/// A hit genuine for one of a node's children is genuine for the node.
proof fn lemma_lift(n: BvhNode, r: Ray, tmin: int, h: VisibleHit)
    requires
        n is Inner,
        (exists|i: int|
            0 <= i < node_prims(*n->Inner_0.left).len() && genuine_hit(
                *#[trigger] node_prims(*n->Inner_0.left)[i],
                r,
                tmin,
                h,
            )) || (exists|i: int|
            0 <= i < node_prims(*n->Inner_0.right).len() && genuine_hit(
                *#[trigger] node_prims(*n->Inner_0.right)[i],
                r,
                tmin,
                h,
            )),
    ensures
        exists|i: int|
            0 <= i < node_prims(n).len() && genuine_hit(*#[trigger] node_prims(n)[i], r, tmin, h),
{
    lemma_child_prims(n);
    let left = node_prims(*n->Inner_0.left);
    let right = node_prims(*n->Inner_0.right);
    if exists|i: int| 0 <= i < left.len() && genuine_hit(*#[trigger] left[i], r, tmin, h) {
        let i = choose|i: int| 0 <= i < left.len() && genuine_hit(*#[trigger] left[i], r, tmin, h);
        assert(node_prims(n)[i] == left[i]);
        assert(genuine_hit(*node_prims(n)[i], r, tmin, h));
    } else {
        let i = choose|i: int|
            0 <= i < right.len() && genuine_hit(*#[trigger] right[i], r, tmin, h);
        assert(node_prims(n)[left.len() + i] == right[i]);
        assert(genuine_hit(*node_prims(n)[left.len() + i], r, tmin, h));
    }
}

/// The cheaper of two optional splits; one that exists beats one that
/// does not.
fn pick_cheaper(a: Option<Split>, b: Option<Split>) -> (r: Option<Split>)
    ensures
        r is Some <==> (a is Some || b is Some),
        r == a || r == b,
{
    match (a, b) {
        (Some(x), Some(y)) => {
            if x.cost <= y.cost {
                Some(x)
            } else {
                Some(y)
            }
        },
        (Some(x), None) => Some(x),
        (None, Some(y)) => Some(y),
        (None, None) => None,
    }
}

/// The acceleration tree over the scene's finite primitives.
pub struct BvhTree {
    pub root: BvhNode,
}

impl BvhTree {
    /// Builds a tree holding exactly the given primitives.
    pub fn build(primitives: Vec<Arc<Primitive>>) -> (t: BvhTree)
        requires
            prims_wf(primitives@),
            primitives@.len() <= 0x1000_0000,
        ensures
            node_wf(t.root),
            node_prims(t.root).to_multiset() == primitives@.to_multiset(),
            node_covers(t.root),
            leaves_capped(t.root),
    {
        let root = BvhNode::build(primitives);
        Self { root }
    }

    /// Queries the tree for the nearest hit along a ray: any hit
    /// returned is a genuine hit of one of the tree's primitives inside
    /// the queried interval; whenever the boxes of the tree see every
    /// hit beneath them for this ray, the answer is exactly the nearest
    /// hit, and a one-leaf tree needs no such hypothesis beyond its own
    /// box test.
    pub fn bounce(&self, r: Ray, tmin: i64, tmax: i64) -> (res: Option<VisibleHit>)
        requires
            node_wf(self.root),
            ray_wf(r),
        ensures
            match res {
                Some(h) => {
                    &&& hit_wf(h)
                    &&& tmin <= h.t < tmax
                    &&& exists|i: int|
                        0 <= i < node_prims(self.root).len() && genuine_hit(
                            *#[trigger] node_prims(self.root)[i],
                            r,
                            tmin as int,
                            h,
                        )
                },
                None => true,
            },
            self.root is Leaf && box_hit_spec(
                self.root.node_box(),
                r,
                tmin as int,
                tmax as int,
            ) is Some ==> nearest_of(node_prims(self.root), r, tmin as int, tmax as int, res),
            boxes_see(self.root, r, tmin as int, tmax as int) ==> nearest_of(
                node_prims(self.root),
                r,
                tmin as int,
                tmax as int,
                res,
            ),
    {
        self.root.bounce(r, tmin, tmax)
    }
}

} // verus!
