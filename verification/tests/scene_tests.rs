use bounce::color::Color;
use bounce::fixed::clamp;
use bounce::fixed::fdiv;
use bounce::fixed::fmul;
use bounce::fixed::fsqrt;
use bounce::fixed::isqrt;
use bounce::geometry::Point;
use bounce::geometry::Vec3;
use bounce::image::Image;
use bounce::material::Lambertian;
use bounce::material::Material;
use bounce::material::Metal;
use bounce::object::VisibleHit;
use bounce::rng::rng_from_seed;
use bounce::scene::Scene;
use bounce::sky::Day;
use bounce::sky::Sky;
use std::sync::Arc;

#[test]
fn visible_hit_comparison() {
    assert!(Some(5) > None);
    assert!(Some(-5) > None);
    assert!(None < Some(32));
    assert!(None::<f64> <= None);
    assert!(Some(23.453) > Some(-123.45));
}

#[test]
fn fixed_point_arithmetic() {
    assert_eq!(fmul(2_500_000, 2_000_000), 5_000_000);
    assert_eq!(fmul(-2_500_000, 2_000_000), -5_000_000);
    assert_eq!(fdiv(1_000_000, 3_000_000), 333_333);
    assert_eq!(fdiv(-1_000_000, 3_000_000), -333_333);
    assert_eq!(fsqrt(4_000_000), 2_000_000);
    assert_eq!(isqrt(10), 3);
    assert_eq!(clamp(7, 0, 5), 5);
    assert_eq!(clamp(-7, 0, 5), 0);
    assert_eq!(clamp(3, 0, 5), 3);
}

#[test]
fn day_sky_gradient() {
    let sky = Sky::Day(Day::new());
    let top = sky.at(Vec3::new(0, 1_000_000, 0));
    assert_eq!(top.r(), 500_000);
    assert_eq!(top.g(), 700_000);
    assert_eq!(top.b(), 1_000_000);
}

#[test]
fn default_camera_center_ray() {
    let cam = bounce::camera::Camera::default_camera();
    let mut rng = rng_from_seed(7);
    let r = cam.ray_at(&mut rng, 500_000, 500_000);
    assert_eq!(r.origin, Point::new(0, 0, 0));
    assert_eq!(r.direction, Vec3::new(0, 0, -1_000_000));
}

#[test]
fn lambertian_never_amplifies() {
    let albedo = Color::new(900_000, 500_000, 100_000);
    let mat = Lambertian::new(albedo);
    let ray = bounce::geometry::Ray::new(Point::new(0, 0, 0), Vec3::new(0, 0, -1_000_000));
    let hit = VisibleHit::new(
        ray,
        Point::new(0, 0, -1_000_000),
        Vec3::new(0, 0, 1_000_000),
        1_000_000,
        Arc::new(Material::Lambertian(Lambertian::new(albedo))),
    );
    let mut rng = rng_from_seed(11);
    let (_, attenuation) = mat.scatter(&mut rng, ray, &hit).unwrap();
    assert_eq!(attenuation, albedo);
    assert!(attenuation.r() <= 1_000_000);
    assert!(attenuation.g() <= 1_000_000);
    assert!(attenuation.b() <= 1_000_000);
}

#[test]
fn metal_never_amplifies() {
    let albedo = Color::new(1_000_000, 1_000_000, 1_000_000);
    let mat = Metal::new(albedo, 2_000_000);
    let ray = bounce::geometry::Ray::new(Point::new(0, 0, 0), Vec3::new(0, 0, -1_000_000));
    let hit = VisibleHit::new(
        ray,
        Point::new(0, 0, -1_000_000),
        Vec3::new(0, 0, 1_000_000),
        1_000_000,
        Arc::new(Material::Metal(Metal::new(albedo, 2_000_000))),
    );
    let mut rng = rng_from_seed(13);
    let scattered = mat.scatter(&mut rng, ray, &hit);
    let (_, attenuation) = scattered.unwrap();
    assert!(attenuation.r() <= 1_000_000);
    assert!(attenuation.g() <= 1_000_000);
    assert!(attenuation.b() <= 1_000_000);
}

#[test]
fn dielectric_scatters_or_dies() {
    let mat = bounce::material::Dielectric::new(1_500_000);
    let ray = bounce::geometry::Ray::new(Point::new(0, 0, 0), Vec3::new(0, 0, -1_000_000));
    let hit = VisibleHit::new(
        ray,
        Point::new(0, 0, -1_000_000),
        Vec3::new(0, 0, 1_000_000),
        1_000_000,
        Arc::new(Material::Dielectric(bounce::material::Dielectric::new(1_500_000))),
    );
    let mut rng = rng_from_seed(17);
    let (_, attenuation) = mat.scatter(&mut rng, ray, &hit).unwrap();
    // Glass never tints what passes through it.
    assert_eq!(attenuation, Color::new(1_000_000, 1_000_000, 1_000_000));

    // A direction too short to normalize is absorbed instead.
    let degenerate = bounce::geometry::Ray::new(Point::new(0, 0, 0), Vec3::new(0, 0, -100));
    assert!(mat.scatter(&mut rng, degenerate, &hit).is_none());
}

#[test]
fn zero_depth_renders_black() {
    let mut scene = Scene::new();
    let white = scene.diffuse_material(Color::new(1_000_000, 1_000_000, 1_000_000));
    scene.sphere(Point::new(0, 0, -1_000_000), 500_000, &white);
    let mut image = Image::new(8, 4, Color::black());
    scene.render_seeded(&mut image, 1, 0, 99);
    for idx in 0..(8 * 4) {
        let p = image.pixel(idx);
        assert_eq!(p.r(), 0);
        assert_eq!(p.g(), 0);
        assert_eq!(p.b(), 0);
    }
}

#[test]
fn mesh_rejects_bad_indices() {
    let mut scene = Scene::new();
    let mat = scene.diffuse_material(Color::new(500_000, 500_000, 500_000));
    let vertices = vec![
        Point::new(0, 0, -1_000_000),
        Point::new(1_000_000, 0, -1_000_000),
    ];
    let faces = vec![(1usize, 2usize, 3usize)];
    assert!(!scene.mesh(&vertices, &faces, &mat));

    let good_vertices = vec![
        Point::new(0, 0, -1_000_000),
        Point::new(1_000_000, 0, -1_000_000),
        Point::new(0, 1_000_000, -1_000_000),
    ];
    let good_faces = vec![(1usize, 2usize, 3usize)];
    assert!(scene.mesh(&good_vertices, &good_faces, &mat));
}

#[test]
fn random_draws_stay_in_range() {
    let mut rng = rng_from_seed(5);
    for _ in 0..200 {
        let v = Vec3::random(&mut rng, -5, 5);
        assert!(-5 <= v.x() && v.x() < 5);
        assert!(-5 <= v.y() && v.y() < 5);
        assert!(-5 <= v.z() && v.z() < 5);
    }
}

#[test]
fn scene_with_plane_renders_in_range() {
    let mut scene = Scene::new();
    let ground = scene.diffuse_material(Color::new(300_000, 600_000, 300_000));
    let ball = scene.metal_material(Color::new(900_000, 900_000, 900_000), 100_000);
    scene.plane(Point::new(0, 0, 0), Vec3::new(0, 1_000_000, 0), &ground);
    scene.sphere(Point::new(0, 1_000_000, -3_000_000), 1_000_000, &ball);
    scene.sky(Sky::Day(Day::new()));

    let mut image = Image::new(12, 8, Color::black());
    scene.render_seeded(&mut image, 2, 4, 7);
    for idx in 0..(12 * 8) {
        let p = image.pixel(idx);
        assert!(0 <= p.r() && p.r() <= 1_000_000);
        assert!(0 <= p.g() && p.g() <= 1_000_000);
        assert!(0 <= p.b() && p.b() <= 1_000_000);
    }
}

#[test]
fn pixels_see_the_scene() {
    // A sphere in front of the camera covers the center of the frame
    // but not its corners. At one bounce a diffuse hit ends the path in
    // black while a miss brings home the white background, so the image
    // must be dark exactly where the sphere is, whatever the jitter.
    let mut scene = Scene::new();
    let red = scene.diffuse_material(Color::new(1_000_000, 0, 0));
    scene.sphere(Point::new(0, 0, -1_000_000), 500_000, &red);

    let mut image = Image::new(21, 21, Color::black());
    scene.render_seeded(&mut image, 1, 1, 31_337);

    let center = image.pixel(10 * 21 + 10);
    assert_eq!(center, Color::black());
    let corner = image.pixel(0);
    assert_eq!(corner, Color::white());
}

#[test]
fn seeded_render_is_reproducible() {
    let mut scene = Scene::new();
    let diffuse = scene.diffuse_material(Color::new(100_000, 200_000, 500_000));
    let ground = scene.diffuse_material(Color::new(800_000, 800_000, 0));
    scene.sphere(Point::new(0, 0, -1_000_000), 500_000, &diffuse);
    scene.sphere(Point::new(0, -100_500_000, -1_000_000), 100_000_000, &ground);
    scene.sky(Sky::Day(Day::new()));

    let mut first = Image::new(20, 11, Color::black());
    scene.render_seeded(&mut first, 1, 1, 424_242);

    let mut second = Image::new(20, 11, Color::black());
    scene.render_seeded(&mut second, 1, 1, 424_242);

    for idx in 0..(20 * 11) {
        let a = first.pixel(idx);
        let b = second.pixel(idx);
        assert_eq!(a, b);
        assert!(0 <= a.r() && a.r() <= 1_000_000);
        assert!(0 <= a.g() && a.g() <= 1_000_000);
        assert!(0 <= a.b() && a.b() <= 1_000_000);
    }
}
