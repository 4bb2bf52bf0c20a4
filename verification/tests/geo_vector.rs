use bounce::geo::Vec3;

#[test]
fn can_create() {
    let v = Vec3::new(2.1, -5.4, 0.0);

    assert_eq!(v.x, 2.1);
    assert_eq!(v.y, -5.4);
    assert_eq!(v.z, 0.0);
}

#[test]
fn it_adds() {
    let mut a = Vec3::new(1.0, 2.0, 3.0);
    let b = Vec3::new(4.0, 5.0, 6.0);

    a = a + b;

    assert_eq!(a.x, 5.0);
    assert_eq!(a.y, 7.0);
    assert_eq!(a.z, 9.0);

    println!("{:?}", b);
}

#[test]
fn it_subtracts() {
    let mut a = Vec3::new(1.0, 2.0, 3.0);
    let b = Vec3::new(4.0, 5.0, 6.0);

    a = a - b;

    assert_eq!(a.x, -3.0);
    assert_eq!(a.y, -3.0);
    assert_eq!(a.z, -3.0);
}

#[test]
fn it_multiplies() {
    let mut a = Vec3::new(1.0, 2.0, 3.0);
    let b = Vec3::new(4.0, 5.0, 6.0);

    a = a * b;

    assert_eq!(a.x, 4.0);
    assert_eq!(a.y, 10.0);
    assert_eq!(a.z, 18.0);
}

#[test]
fn it_divides() {
    let mut a = Vec3::new(1.0, 2.0, 3.0);
    let b = Vec3::new(4.0, 5.0, 6.0);

    a = a / b;

    assert_eq!(a.x, 1.0 / 4.0);
    assert_eq!(a.y, 2.0 / 5.0);
    assert_eq!(a.z, 3.0 / 6.0);
}

#[test]
fn it_negates() {
    let mut a = Vec3::new(1.0, 2.0, 3.0);

    a = -a;

    assert_eq!(a.x, -1.0);
    assert_eq!(a.y, -2.0);
    assert_eq!(a.z, -3.0);
}

#[test]
fn can_dot_product() {
    let a = Vec3::new(1.0, 2.0, 3.0);
    let b = Vec3::new(4.0, 5.0, 6.0);

    let dot = a.dot(&b);

    assert_eq!(dot, 32.0);
}

#[test]
fn works_with_i32() {
    let a = Vec3::new(1, 2, 3);
    let b = Vec3::new(4, 5, 6);

    let dot = a.dot(&b);

    assert_eq!(dot, 32);
}
