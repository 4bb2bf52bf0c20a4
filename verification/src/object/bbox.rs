//! Axis-aligned bounding boxes and the ray-slab intersection test.

use vstd::prelude::*;

use crate::fixed::div_t;
use crate::fixed::fmul;
use crate::fixed::fmul_spec;
use crate::fixed::iabs;
use crate::fixed::lemma_fmul_bound;
use crate::fixed::lemma_mul_le;
use crate::fixed::lemma_tdiv_le;
use crate::fixed::tdiv;
use crate::fixed::SCALE;
use crate::geometry::ray::ray_wf;
use crate::geometry::ray::Ray;
use crate::geometry::ray::T_MAX;
use crate::geometry::vec3::WORLD_MAX;

verus! {

/// A half-open interval of fixed-point scalars on one axis.
#[derive(Debug, Copy, Clone, PartialEq)]
pub struct Span {
    pub start: i64,
    pub end: i64,
}

/// A sentinel parameter beyond every ray parameter a slab test can
/// produce, standing in for an unbounded interval end.
pub const T_INF: i128 = 0x1000_0000_0000_0000;

/// The bounds of a span are stored scene coordinates.
pub open spec fn span_wf(s: Span) -> bool {
    iabs(s.start as int) <= WORLD_MAX && iabs(s.end as int) <= WORLD_MAX
}

/// `inner` lies within `outer`.
pub open spec fn span_contains(outer: Span, inner: Span) -> bool {
    outer.start <= inner.start && inner.end <= outer.end
}

/// The smallest span containing both arguments.
pub open spec fn span_union(a: Span, b: Span) -> Span {
    Span {
        start: if a.start <= b.start {
            a.start
        } else {
            b.start
        },
        end: if a.end >= b.end {
            a.end
        } else {
            b.end
        },
    }
}

/// An axis-aligned box: one interval for each coordinate axis. A collapsed
/// box, with `start` above `end`, serves as the identity of the union.
#[derive(Debug, Clone, Copy, PartialEq)]
pub struct BoundingBox {
    pub x: Span,
    pub y: Span,
    pub z: Span,
}

/// The bounds of a box are stored scene coordinates.
pub open spec fn box_wf(b: BoundingBox) -> bool {
    span_wf(b.x) && span_wf(b.y) && span_wf(b.z)
}

/// `inner` lies fully within `outer`.
pub open spec fn box_contains(outer: BoundingBox, inner: BoundingBox) -> bool {
    span_contains(outer.x, inner.x) && span_contains(outer.y, inner.y) && span_contains(
        outer.z,
        inner.z,
    )
}

/// The componentwise union of two boxes.
pub open spec fn box_union_spec(a: BoundingBox, b: BoundingBox) -> BoundingBox {
    BoundingBox { x: span_union(a.x, b.x), y: span_union(a.y, b.y), z: span_union(a.z, b.z) }
}

/// The union of two boxes contains both of them, and any box that
/// contains both of them contains the union: it is the smallest such box.
pub proof fn lemma_union_smallest(a: BoundingBox, b: BoundingBox)
    ensures
        box_contains(box_union_spec(a, b), a),
        box_contains(box_union_spec(a, b), b),
        forall|c: BoundingBox|
            box_contains(c, a) && box_contains(c, b) ==> box_contains(c, box_union_spec(a, b)),
{
}

/// The volume-style size heuristic of a box: the product of its three
/// extents. It orders candidate splits during tree construction and has no
/// other meaning.
pub open spec fn surface_area_spec(b: BoundingBox) -> int {
    fmul_spec(
        fmul_spec(b.x.end - b.x.start, b.y.end - b.y.start),
        b.z.end - b.z.start,
    )
}

/// The center of a box, one axis.
pub open spec fn centroid_spec(s: Span) -> int {
    tdiv(s.start + s.end, 2)
}

/// The parameter interval in which a ray crosses one axis-aligned slab, or
/// `None` if it never does. A ray running parallel to the slab is either
/// inside it for every parameter or outside it for every parameter.
pub open spec fn solve_axis_spec(origin: int, rate: int, s: Span) -> Option<(int, int)> {
    if rate == 0 {
        if s.start <= origin < s.end {
            Some((-T_INF as int, T_INF as int))
        } else {
            None
        }
    } else {
        let first = tdiv((s.start - origin) * SCALE, rate);
        let second = tdiv((s.end - origin) * SCALE, rate);
        if first <= second {
            Some((first, second))
        } else {
            Some((second, first))
        }
    }
}

/// The overlap of two parameter intervals; two that merely touch yield the
/// degenerate interval at the shared endpoint.
pub open spec fn intersection_spec(a: (int, int), b: (int, int)) -> Option<(int, int)> {
    if a.1 < b.0 || b.1 < a.0 {
        None
    } else {
        Some(
            (
                if a.0 >= b.0 {
                    a.0
                } else {
                    b.0
                },
                if a.1 <= b.1 {
                    a.1
                } else {
                    b.1
                },
            ),
        )
    }
}

/// Where a ray first meets a box within a queried parameter interval: the
/// start of the overlap of the three slab intervals and the query,
/// clamped into the representable parameter range.
pub open spec fn box_hit_spec(b: BoundingBox, r: Ray, tmin: int, tmax: int) -> Option<int> {
    let sx = solve_axis_spec(r.origin.0.x as int, r.direction.x as int, b.x);
    let sy = solve_axis_spec(r.origin.0.y as int, r.direction.y as int, b.y);
    let sz = solve_axis_spec(r.origin.0.z as int, r.direction.z as int, b.z);
    if sx is None || sy is None || sz is None {
        None
    } else {
        let cxy = intersection_spec(sx->Some_0, sy->Some_0);
        if cxy is None {
            None
        } else {
            let cxyz = intersection_spec(cxy->Some_0, sz->Some_0);
            if cxyz is None {
                None
            } else {
                let c = intersection_spec(cxyz->Some_0, (tmin, tmax));
                if c is None {
                    None
                } else {
                    let t = c->Some_0.0;
                    if t > T_MAX {
                        Some(T_MAX as int)
                    } else if t < -T_MAX {
                        Some(-T_MAX as int)
                    } else {
                        Some(t)
                    }
                }
            }
        }
    }
}

/// The exec-level parameter interval, with its invariant.
pub struct TSpan {
    pub lo: i128,
    pub hi: i128,
}

/// Solves one slab equation pair.
pub fn solve_axis(origin: i64, rate: i64, s: Span) -> (r: Option<TSpan>)
    requires
        iabs(origin as int) <= WORLD_MAX as int,
        iabs(rate as int) <= WORLD_MAX as int,
        span_wf(s),
    ensures
        match r {
            Some(ts) => solve_axis_spec(origin as int, rate as int, s) == Some(
                (ts.lo as int, ts.hi as int),
            ) && ts.lo <= ts.hi,
            None => solve_axis_spec(origin as int, rate as int, s) is None,
        },
{
    if rate == 0 {
        if s.start <= origin && origin < s.end {
            Some(TSpan { lo: -T_INF, hi: T_INF })
        } else {
            None
        }
    } else {
        proof {
            lemma_mul_le(s.start - origin as int, SCALE as int, 0x1_0000_0000, SCALE as int);
            lemma_mul_le(s.end - origin as int, SCALE as int, 0x1_0000_0000, SCALE as int);
            lemma_tdiv_le((s.start - origin) as int * SCALE, rate as int);
            lemma_tdiv_le((s.end - origin) as int * SCALE, rate as int);
        }
        let first: i128 = div_t((s.start as i128 - origin as i128) * (SCALE as i128), rate as i128);
        let second: i128 = div_t((s.end as i128 - origin as i128) * (SCALE as i128), rate as i128);
        if first <= second {
            Some(TSpan { lo: first, hi: second })
        } else {
            Some(TSpan { lo: second, hi: first })
        }
    }
}

/// Overlaps two parameter intervals.
pub fn intersection(a: &TSpan, b: &TSpan) -> (r: Option<TSpan>)
    ensures
        match r {
            Some(ts) => intersection_spec((a.lo as int, a.hi as int), (b.lo as int, b.hi as int))
                == Some((ts.lo as int, ts.hi as int)),
            None => intersection_spec(
                (a.lo as int, a.hi as int),
                (b.lo as int, b.hi as int),
            ) is None,
        },
{
    if a.hi < b.lo || b.hi < a.lo {
        None
    } else {
        let lo: i128 = if a.lo >= b.lo {
            a.lo
        } else {
            b.lo
        };
        let hi: i128 = if a.hi <= b.hi {
            a.hi
        } else {
            b.hi
        };
        Some(TSpan { lo, hi })
    }
}

impl BoundingBox {
    pub fn new(x: Span, y: Span, z: Span) -> (b: BoundingBox)
        ensures
            b == (BoundingBox { x, y, z }),
    {
        BoundingBox { x, y, z }
    }

    /// The interval the box spans on the first axis.
    pub fn x(&self) -> (s: Span)
        ensures
            s == self.x,
    {
        self.x
    }

    /// The interval the box spans on the second axis.
    pub fn y(&self) -> (s: Span)
        ensures
            s == self.y,
    {
        self.y
    }

    /// The interval the box spans on the third axis.
    pub fn z(&self) -> (s: Span)
        ensures
            s == self.z,
    {
        self.z
    }

    /// The collapsed box: the identity of the union.
    pub fn empty() -> (b: BoundingBox)
        ensures
            b.x == (Span { start: WORLD_MAX as i64, end: -WORLD_MAX as i64 }),
            b.y == (Span { start: WORLD_MAX as i64, end: -WORLD_MAX as i64 }),
            b.z == (Span { start: WORLD_MAX as i64, end: -WORLD_MAX as i64 }),
            box_wf(b),
    {
        let s = Span { start: WORLD_MAX, end: -WORLD_MAX };
        BoundingBox { x: s, y: s, z: s }
    }

    /// Computes the union of this box with another.
    pub fn union(&self, rhs: &BoundingBox) -> (b: BoundingBox)
        ensures
            b == box_union_spec(*self, *rhs),
    {
        BoundingBox {
            x: Span {
                start: if self.x.start <= rhs.x.start {
                    self.x.start
                } else {
                    rhs.x.start
                },
                end: if self.x.end >= rhs.x.end {
                    self.x.end
                } else {
                    rhs.x.end
                },
            },
            y: Span {
                start: if self.y.start <= rhs.y.start {
                    self.y.start
                } else {
                    rhs.y.start
                },
                end: if self.y.end >= rhs.y.end {
                    self.y.end
                } else {
                    rhs.y.end
                },
            },
            z: Span {
                start: if self.z.start <= rhs.z.start {
                    self.z.start
                } else {
                    rhs.z.start
                },
                end: if self.z.end >= rhs.z.end {
                    self.z.end
                } else {
                    rhs.z.end
                },
            },
        }
    }

    /// The size heuristic used to order candidate splits: the product of
    /// the three extents.
    pub fn surface_area(&self) -> (r: i64)
        requires
            box_wf(*self),
        ensures
            r == surface_area_spec(*self),
            iabs(r as int) <= 0x1000_0000_0000_0000,
    {
        let ex = self.x.end - self.x.start;
        let ey = self.y.end - self.y.start;
        let ez = self.z.end - self.z.start;
        proof {
            lemma_fmul_bound(ex as int, ey as int, 2 * WORLD_MAX, 2 * WORLD_MAX);
            lemma_fmul_bound(
                fmul_spec(ex as int, ey as int),
                ez as int,
                (2 * WORLD_MAX * (2 * WORLD_MAX)) / (SCALE as int),
                2 * WORLD_MAX,
            );
        }
        fmul(fmul(ex, ey), ez)
    }

    /// The center of the box.
    pub fn centroid(&self) -> (c: crate::geometry::Point<i64>)
        requires
            box_wf(*self),
        ensures
            c.0.x == centroid_spec(self.x),
            c.0.y == centroid_spec(self.y),
            c.0.z == centroid_spec(self.z),
    {
        proof {
            lemma_tdiv_le((self.x.start + self.x.end) as int, 2);
            lemma_tdiv_le((self.y.start + self.y.end) as int, 2);
            lemma_tdiv_le((self.z.start + self.z.end) as int, 2);
        }
        let cx = div_t(self.x.start as i128 + self.x.end as i128, 2) as i64;
        let cy = div_t(self.y.start as i128 + self.y.end as i128, 2) as i64;
        let cz = div_t(self.z.start as i128 + self.z.end as i128, 2) as i64;
        crate::geometry::Point(crate::geometry::Vec3::new(cx, cy, cz))
    }

    /// Tests the ray against the box: the three per-axis slab intervals
    /// and the queried interval are overlapped, and the entry parameter of
    /// the overlap is returned.
    pub fn hit(&self, r: Ray, tmin: i64, tmax: i64) -> (res: Option<i64>)
        requires
            ray_wf(r),
            box_wf(*self),
        ensures
            match res {
                Some(t) => box_hit_spec(*self, r, tmin as int, tmax as int) == Some(t as int)
                    && iabs(t as int) <= T_MAX as int,
                None => box_hit_spec(*self, r, tmin as int, tmax as int) is None,
            },
    {
        let t_range_x = solve_axis(r.origin.0.x, r.direction.x, self.x);
        let t_range_y = solve_axis(r.origin.0.y, r.direction.y, self.y);
        let t_range_z = solve_axis(r.origin.0.z, r.direction.z, self.z);

        let tx = match t_range_x {
            Some(t) => t,
            None => {
                return None;
            },
        };
        let ty = match t_range_y {
            Some(t) => t,
            None => {
                return None;
            },
        };
        let tz = match t_range_z {
            Some(t) => t,
            None => {
                return None;
            },
        };

        let cxy = match intersection(&tx, &ty) {
            Some(t) => t,
            None => {
                return None;
            },
        };
        let cxyz = match intersection(&cxy, &tz) {
            Some(t) => t,
            None => {
                return None;
            },
        };
        let query = TSpan { lo: tmin as i128, hi: tmax as i128 };
        let combined = match intersection(&cxyz, &query) {
            Some(t) => t,
            None => {
                return None;
            },
        };

        let t = combined.lo;
        if t > T_MAX as i128 {
            Some(T_MAX)
        } else if t < -T_MAX as i128 {
            Some(-T_MAX)
        } else {
            Some(t as i64)
        }
    }
}

} // verus!
