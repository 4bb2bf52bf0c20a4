use std::sync::Arc;

use rand::Rng;
use rand::SeedableRng;

use bounce::color::Color;
use bounce::fixed::SCALE;
use bounce::geometry::ray::T_MAX;
use bounce::geometry::Point;
use bounce::geometry::Ray;
use bounce::geometry::Vec3;
use bounce::material::Lambertian;
use bounce::material::Material;
use bounce::object::bbox::intersection;
use bounce::object::bbox::solve_axis;
use bounce::object::bbox::BoundingBox;
use bounce::object::bbox::Span;
use bounce::object::bbox::TSpan;
use bounce::object::bbox::T_INF;
use bounce::object::bvh::BvhNode;
use bounce::object::bvh::BvhTree;
use bounce::object::bvh::Primitive;
use bounce::object::InfinitePlane;
use bounce::object::Sphere;
use bounce::object::Tri;

fn gray() -> Arc<Material> {
    Arc::new(Material::Lambertian(Lambertian::new(Color::new(
        500_000, 500_000, 500_000,
    ))))
}

#[test]
fn bbox_solve_axis_basic() {
    let orig = 3_000_000;
    let rate = -2_000_000;

    let range = Span { start: -1_000_000, end: 3_000_000 };

    let solved = solve_axis(orig, rate, range);

    let ts = solved.unwrap();
    assert_eq!(ts.lo, 0);
    assert_eq!(ts.hi, 2_000_000);
}

#[test]
fn bbox_solve_axis_parallel_inside() {
    let orig = 1_000_000;
    let rate = 0;

    let range = Span { start: -1_000_000, end: 3_000_000 };

    let solved = solve_axis(orig, rate, range);

    let ts = solved.unwrap();
    assert_eq!(ts.lo, -T_INF);
    assert_eq!(ts.hi, T_INF);
}

#[test]
fn bbox_solve_axis_parallel_outside() {
    let orig = 8_000_000;
    let rate = 0;

    let range = Span { start: -8_300_000, end: 300_000 };

    let solved = solve_axis(orig, rate, range);

    assert!(solved.is_none());
}

#[test]
fn bbox_intersections() {
    let a = TSpan { lo: 0, hi: 2_000_000 };
    let b = TSpan { lo: -2_000_000, hi: 3_000_000 };

    let met = intersection(&a, &b).unwrap();
    assert_eq!(met.lo, 0);
    assert_eq!(met.hi, 2_000_000);
}

#[test]
fn union_contains_both() {
    let a = BoundingBox::new(
        Span { start: -1_000_000, end: 1_000_000 },
        Span { start: 0, end: 2_000_000 },
        Span { start: -3_000_000, end: -1_000_000 },
    );
    let b = BoundingBox::new(
        Span { start: 500_000, end: 4_000_000 },
        Span { start: -2_000_000, end: 1_000_000 },
        Span { start: -2_000_000, end: 5_000_000 },
    );
    let u = a.union(&b);
    assert_eq!(u.x(), Span { start: -1_000_000, end: 4_000_000 });
    assert_eq!(u.y(), Span { start: -2_000_000, end: 2_000_000 });
    assert_eq!(u.z(), Span { start: -3_000_000, end: 5_000_000 });
}

#[test]
fn box_hit_entry() {
    let b = BoundingBox::new(
        Span { start: -1_000_000, end: 1_000_000 },
        Span { start: -1_000_000, end: 1_000_000 },
        Span { start: -3_000_000, end: -1_000_000 },
    );
    let r = Ray::new(Point::new(0, 0, 0), Vec3::new(0, 0, -1_000_000));
    let t = b.hit(r, 0, T_MAX);
    assert_eq!(t, Some(1_000_000));
}

#[test]
fn sphere_center_ray_roots() {
    let s = Sphere::new(Point::new(0, 0, -2_000_000), 1_000_000, gray());
    let r = Ray::new(Point::new(0, 0, 0), Vec3::new(0, 0, -1_000_000));

    let near = s.bounce(r, 0, T_MAX).unwrap();
    assert_eq!(near.t, 1_000_000);
    // The normal at the near hit points from the center toward the hit.
    assert_eq!(near.normal.x(), 0);
    assert_eq!(near.normal.y(), 0);
    assert_eq!(near.normal.z(), SCALE);

    let far = s.bounce(r, 2_000_000, T_MAX).unwrap();
    assert_eq!(far.t, 3_000_000);
    assert_eq!(far.normal.x(), 0);
    assert_eq!(far.normal.y(), 0);
    // The outward normal at the far side is flipped to face the ray.
    assert_eq!(far.normal.z(), SCALE);
}

#[test]
fn sphere_miss() {
    let s = Sphere::new(Point::new(0, 0, -2_000_000), 1_000_000, gray());
    let r = Ray::new(Point::new(0, 0, 0), Vec3::new(0, 1_000_000, 0));
    assert!(s.bounce(r, 0, T_MAX).is_none());
}

#[test]
fn triangle_centroid_hit() {
    let t = Tri::new(
        Point::new(0, 0, -1_000_000),
        Point::new(2_000_000, 0, -1_000_000),
        Point::new(0, 2_000_000, -1_000_000),
        gray(),
    );
    let r = Ray::new(Point::new(0, 0, 0), Vec3::new(666_666, 666_666, -1_000_000));
    let hit = t.bounce(r, 0, T_MAX).unwrap();
    assert_eq!(hit.t, 1_000_000);
    assert_eq!(hit.point.0.z(), -1_000_000);
}

#[test]
fn triangle_outside_miss() {
    let t = Tri::new(
        Point::new(0, 0, -1_000_000),
        Point::new(2_000_000, 0, -1_000_000),
        Point::new(0, 2_000_000, -1_000_000),
        gray(),
    );
    // Aimed just beyond the first edge: the first barycentric
    // coordinate goes negative.
    let r = Ray::new(Point::new(0, 0, 0), Vec3::new(-10_000, 666_666, -1_000_000));
    assert!(t.bounce(r, 0, T_MAX).is_none());
}

#[test]
fn degenerate_triangle_never_hits() {
    let t = Tri::new(
        Point::new(0, 0, -1_000_000),
        Point::new(1_000_000, 0, -1_000_000),
        Point::new(2_000_000, 0, -1_000_000),
        gray(),
    );
    let r = Ray::new(Point::new(0, 0, 0), Vec3::new(0, 0, -1_000_000));
    assert!(t.bounce(r, 0, T_MAX).is_none());
}

#[test]
fn plane_hit_from_above() {
    let p = InfinitePlane::new(Point::new(0, 0, 0), Vec3::new(0, 2_000_000, 0), gray());
    let down = Ray::new(Point::new(0, 1_000_000, 0), Vec3::new(0, -1_000_000, 0));
    let hit = p.bounce(down, 0, T_MAX).unwrap();
    assert_eq!(hit.t, 1_000_000);
    assert_eq!(hit.point.0.y(), 0);
    // The stored normal is normalized and turned against the ray.
    assert_eq!(hit.normal.y(), SCALE);

    // A ray running parallel to the plane never crosses it.
    let along = Ray::new(Point::new(0, 1_000_000, 0), Vec3::new(1_000_000, 0, 0));
    assert!(p.bounce(along, 0, T_MAX).is_none());
}

#[test]
fn bvh_matches_linear_scan() {
    let mut rng = rand::rngs::StdRng::seed_from_u64(20_220_613);
    let material = gray();

    let mut prims: Vec<Arc<Primitive>> = Vec::new();
    for _ in 0..40 {
        let cx = rng.gen_range(-50_000_000i64..50_000_000);
        let cy = rng.gen_range(-50_000_000i64..50_000_000);
        let cz = rng.gen_range(-50_000_000i64..50_000_000);
        let radius = rng.gen_range(1_000_000i64..5_000_000);
        let s = Sphere::new(Point::new(cx, cy, cz), radius, Arc::clone(&material));
        prims.push(Arc::new(Primitive::Sphere(s)));
    }

    let tree = BvhTree::build(prims.iter().map(Arc::clone).collect());

    for _ in 0..80 {
        let ox = rng.gen_range(-80_000_000i64..80_000_000);
        let oy = rng.gen_range(-80_000_000i64..80_000_000);
        let oz = rng.gen_range(-80_000_000i64..80_000_000);
        let mut dx = rng.gen_range(-2_000_000i64..2_000_000);
        let dy = rng.gen_range(-2_000_000i64..2_000_000);
        let dz = rng.gen_range(-2_000_000i64..2_000_000);
        if dx == 0 && dy == 0 && dz == 0 {
            dx = 1_000_000;
        }
        let r = Ray::new(Point::new(ox, oy, oz), Vec3::new(dx, dy, dz));

        let from_tree = tree.bounce(r, 100, T_MAX).map(|h| h.t);

        let mut nearest: Option<i64> = None;
        for p in prims.iter() {
            if let Some(h) = p.bounce(r, 100, T_MAX) {
                nearest = match nearest {
                    Some(t) if t <= h.t => Some(t),
                    _ => Some(h.t),
                };
            }
        }

        assert_eq!(from_tree, nearest);
    }
}

fn largest_leaf(node: &BvhNode) -> usize {
    match node {
        BvhNode::Inner(inner) => largest_leaf(&inner.left).max(largest_leaf(&inner.right)),
        BvhNode::Leaf(leaf) => leaf.primitives.len(),
    }
}

#[test]
fn bvh_leaves_stay_small() {
    let mut rng = rand::rngs::StdRng::seed_from_u64(4_815_162_342);
    let material = gray();

    let mut prims: Vec<Arc<Primitive>> = Vec::new();
    for _ in 0..60 {
        let cx = rng.gen_range(-40_000_000i64..40_000_000);
        let cy = rng.gen_range(-40_000_000i64..40_000_000);
        let cz = rng.gen_range(-40_000_000i64..40_000_000);
        let s = Sphere::new(Point::new(cx, cy, cz), 1_000_000, Arc::clone(&material));
        prims.push(Arc::new(Primitive::Sphere(s)));
    }

    let tree = BvhTree::build(prims);
    // Distinct random centroids always admit a separating cut, so no
    // fallback leaf appears and every leaf respects the cap.
    assert!(largest_leaf(&tree.root) <= 4);

    // A pile of spheres sharing one centroid cannot be cut apart: the
    // builder must fall back to one leaf instead of recursing forever.
    let mut same: Vec<Arc<Primitive>> = Vec::new();
    for _ in 0..9 {
        let s = Sphere::new(Point::new(0, 0, 0), 1_000_000, Arc::clone(&material));
        same.push(Arc::new(Primitive::Sphere(s)));
    }
    let stacked = BvhTree::build(same);
    assert_eq!(largest_leaf(&stacked.root), 9);
}

#[test]
fn bvh_solve_axis_basic() {
    let solved = solve_axis(3_000_000, -2_000_000, Span { start: -1_000_000, end: 3_000_000 });

    let ts = solved.unwrap();
    assert_eq!(ts.lo, 0);
    assert_eq!(ts.hi, 2_000_000);
}

#[test]
fn bvh_solve_axis_parallel_inside() {
    let solved = solve_axis(1_000_000, 0, Span { start: -1_000_000, end: 3_000_000 });

    let ts = solved.unwrap();
    assert_eq!(ts.lo, -T_INF);
    assert_eq!(ts.hi, T_INF);
}

#[test]
fn bvh_solve_axis_parallel_outside() {
    let solved = solve_axis(8_000_000, 0, Span { start: -8_300_000, end: 300_000 });

    assert!(solved.is_none());
}

#[test]
fn bvh_intersections() {
    let a = TSpan { lo: 0, hi: 2_000_000 };
    let b = TSpan { lo: -2_000_000, hi: 3_000_000 };

    let met = intersection(&a, &b).unwrap();
    assert_eq!(met.lo, 0);
    assert_eq!(met.hi, 2_000_000);
}
