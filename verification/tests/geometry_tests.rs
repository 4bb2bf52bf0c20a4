use bounce::fixed::SCALE;
use bounce::geometry::Point;
use bounce::geometry::Ray;
use bounce::geometry::Vec3;

#[test]
fn test_creation() {
    let v = Vec3::new(2.1, -5.4, 0.0);

    assert_eq!(v.x(), 2.1);
    assert_eq!(v.y(), -5.4);
    assert_eq!(v.z(), 0.0);
}

#[test]
fn test_addition() {
    let mut a = Vec3::new(1.0, 2.0, 3.0);
    let b = Vec3::new(4.0, 5.0, 6.0);

    a = a + b;

    assert_eq!(a.x(), 5.0);
    assert_eq!(a.y(), 7.0);
    assert_eq!(a.z(), 9.0);
}

#[test]
fn test_subtraction() {
    let mut a = Vec3::new(1.0, 2.0, 3.0);
    let b = Vec3::new(4.0, 5.0, 6.0);

    a = a - b;

    assert_eq!(a.x(), -3.0);
    assert_eq!(a.y(), -3.0);
    assert_eq!(a.z(), -3.0);
}

#[test]
fn test_multiplication() {
    let mut a = Vec3::new(1.0, 2.0, 3.0);
    let b = Vec3::new(4.0, 5.0, 6.0);

    a = a * b;

    assert_eq!(a.x(), 4.0);
    assert_eq!(a.y(), 10.0);
    assert_eq!(a.z(), 18.0);
}

#[test]
fn test_division() {
    let mut a = Vec3::new(1.0, 2.0, 3.0);
    let b = Vec3::new(4.0, 5.0, 6.0);

    a = a / b;

    assert_eq!(a.x(), 1.0 / 4.0);
    assert_eq!(a.y(), 2.0 / 5.0);
    assert_eq!(a.z(), 3.0 / 6.0);
}

#[test]
fn test_negation() {
    let mut a = Vec3::new(1.0, 2.0, 3.0);

    a = -a;

    assert_eq!(a.x(), -1.0);
    assert_eq!(a.y(), -2.0);
    assert_eq!(a.z(), -3.0);
}

#[test]
fn test_dot_product() {
    let a = Vec3::new(1 * SCALE, 2 * SCALE, 3 * SCALE);
    let b = Vec3::new(4 * SCALE, 5 * SCALE, 6 * SCALE);

    let dot = a.dot(b);

    assert_eq!(dot, 32 * SCALE);
}

#[test]
fn test_cross_product() {
    let a = Vec3::new(1 * SCALE, 2 * SCALE, 3 * SCALE);
    let b = Vec3::new(4 * SCALE, 5 * SCALE, 6 * SCALE);

    let cross = a.cross(b);

    assert_eq!(cross.x(), -3 * SCALE);
    assert_eq!(cross.y(), 6 * SCALE);
    assert_eq!(cross.z(), -3 * SCALE);
    assert_eq!(cross.dot(a), 0);
    assert_eq!(cross.dot(b), 0);
}

#[test]
fn test_generic() {
    let a = Vec3::new(1, 2, 3);
    let b = Vec3::new(4, 5, 6);

    let c = a * b;
    assert_eq!(c, Vec3::new(4, 10, 18));
}

#[test]
fn test_point_from_vec3() {
    let v = Vec3::new(1.0, 2.0, 3.0);
    let p = Point::from(v);
    assert_eq!(p.0, v);
}

#[test]
fn test_vec3_from_point() {
    let p = Point::new(1.0, 2.0, 3.0);
    let v = Vec3::from(p);
    assert_eq!(v, p.0);
}

#[test]
fn test_point_math() {
    let p = Point::new(1.0, 2.0, 3.0);
    let q = Point::new(1.0, 2.0, 3.0);
    assert_eq!(p + q, Point::new(2.0, 4.0, 6.0));
    assert_eq!(p - q, Point::new(0.0, 0.0, 0.0));
    assert_eq!(p * q, Point::new(1.0, 4.0, 9.0));
    assert_eq!(p / q, Point::new(1.0, 1.0, 1.0));
    assert_eq!(-p, Point::new(-1.0, -2.0, -3.0));
}

#[test]
fn at_from_origin() {
    let r = Ray::new(Point::new(0, 0, 0), Vec3::new(2_300_000, -1_200_000, 5_300_000));

    let at = r.at(5_300_000);

    assert_eq!(at.0.x(), 12_190_000);
    assert_eq!(at.0.y(), -6_360_000);
    assert_eq!(at.0.z(), 28_090_000);
}

#[test]
fn at_from_non_origin() {
    let r = Ray::new(
        Point::new(1_000_000, 2_000_000, 3_000_000),
        Vec3::new(2_300_000, -1_200_000, 5_300_000),
    );

    let at = r.at(5_300_000);

    assert_eq!(at.0.x(), 13_190_000);
    assert_eq!(at.0.y(), -4_360_000);
    assert_eq!(at.0.z(), 31_090_000);
}

#[test]
fn zero_len_dir() {
    let r = Ray::new(Point::new(3_200_000, -2_300_000, 0), Vec3::new(0, 0, 0));

    let at = r.at(-1_000_000);

    assert_eq!(at.0.x(), 3_200_000);
    assert_eq!(at.0.y(), -2_300_000);
    assert_eq!(at.0.z(), 0);
}

#[test]
fn unit_has_near_unit_length() {
    let v = Vec3::new(3 * SCALE, 4 * SCALE, 12 * SCALE);
    let u = v.unit();
    let lsq = u.len_sq();
    // The truncated arithmetic may miss a perfect unit by a few steps.
    assert!((lsq - SCALE).abs() <= 8);
}

#[test]
fn dot_is_symmetric() {
    let a = Vec3::new(1_250_000, -2_500_000, 3_750_000);
    let b = Vec3::new(-4_000_000, 5_500_000, 6_250_000);
    assert_eq!(a.dot(b), b.dot(a));
}

#[test]
fn cross_is_antisymmetric() {
    let a = Vec3::new(1_250_000, -2_500_000, 3_750_000);
    let b = Vec3::new(-4_000_000, 5_500_000, 6_250_000);
    let ab = a.cross(b);
    let ba = b.cross(a);
    assert_eq!(ab.x(), -ba.x());
    assert_eq!(ab.y(), -ba.y());
    assert_eq!(ab.z(), -ba.z());
}

#[test]
fn reflect_axis_aligned() {
    let v = Vec3::new(SCALE, -SCALE, 0);
    let n = Vec3::new(0, SCALE, 0);
    let r = v.reflect(n);
    assert_eq!(r.x(), SCALE);
    assert_eq!(r.y(), SCALE);
    assert_eq!(r.z(), 0);

    // Reflecting again about the same normal brings the vector back, so
    // its length is certainly kept.
    let back = r.reflect(n);
    assert_eq!(back, v);
}
