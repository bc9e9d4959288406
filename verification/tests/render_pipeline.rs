use rand::SeedableRng;
use raytracer::camera::Camera;
use raytracer::fixed::ONE;
use raytracer::hit::HittableList;
use raytracer::material::{Lambertian, Material};
use raytracer::ray::Ray;
use raytracer::render::{ray_color, render, render_scanline};
use raytracer::sphere::Sphere;
use raytracer::vec3::{Color, Vec3};

fn one_sphere_world() -> HittableList {
    let mut world = HittableList::new();
    world.add(Sphere::new(
        Vec3::new(0, 0, -ONE),
        ONE / 2,
        Material::Lambertian(Lambertian::new(Color::new(ONE / 2, ONE / 2, ONE / 2))),
    ));
    world
}

fn test_camera() -> Camera {
    Camera::new(
        Vec3::new(13 * ONE, 2 * ONE, 3 * ONE),
        Vec3::new(0, 0, 0),
        Vec3::new(0, ONE, 0),
        20 * ONE,
        116508, // 16:9
        6553,   // aperture 0.1
        10 * ONE,
    )
}

#[test]
fn ray_color_depth_zero_is_black() {
    let world = one_sphere_world();
    let mut rng = rand::rngs::StdRng::seed_from_u64(1);
    for dir in [
        Vec3::new(0, 0, -ONE),
        Vec3::new(0, ONE, 0),
        Vec3::new(ONE, -ONE, ONE),
    ] {
        let r = Ray::new(Vec3::new(0, 0, 0), dir);
        let c = ray_color(&r, &world, 0, &mut rng);
        assert_eq!(c, Color::new(0, 0, 0));
    }
}

#[test]
fn background_gradient_endpoints() {
    let world = HittableList::new();
    let mut rng = rand::rngs::StdRng::seed_from_u64(1);
    let up = Ray::new(Vec3::new(0, 0, 0), Vec3::new(0, ONE, 0));
    assert_eq!(
        ray_color(&up, &world, 10, &mut rng),
        Color::new(32768, 45875, ONE)
    );
    let down = Ray::new(Vec3::new(0, 0, 0), Vec3::new(0, -ONE, 0));
    assert_eq!(
        ray_color(&down, &world, 10, &mut rng),
        Color::new(ONE, ONE, ONE)
    );
    let level = Ray::new(Vec3::new(0, 0, 0), Vec3::new(0, 0, -ONE));
    assert_eq!(
        ray_color(&level, &world, 10, &mut rng),
        Color::new(49152, 55705, ONE)
    );
}

#[test]
fn camera_ninety_degree_viewport() {
    // At a ninety-degree vertical field of view the half-height is the
    // tangent of forty-five degrees: one, up to fixed-point rounding.
    let cam = Camera::new(
        Vec3::new(0, 0, 0),
        Vec3::new(0, 0, -ONE),
        Vec3::new(0, ONE, 0),
        90 * ONE,
        ONE,
        0,
        ONE,
    );
    // horizontal = u * focus * 2h with unit u along +x (or -x); its
    // length is within a few raw units of 2.0.
    let h_len = cam.horizontal.length();
    assert!((h_len - 2 * ONE).abs() <= 16, "h_len = {h_len}");
    let v_len = cam.vertical.length();
    assert!((v_len - 2 * ONE).abs() <= 16, "v_len = {v_len}");
}

#[test]
fn camera_rays_start_at_the_lens() {
    let cam = test_camera();
    let mut rng = rand::rngs::StdRng::seed_from_u64(5);
    for _ in 0..10 {
        let r = cam.get_ray(ONE / 2, ONE / 2, &mut rng);
        let offset = r.origin().sub(cam.origin);
        // The lens radius is aperture / 2; the jitter stays within it
        // (plus rounding).
        assert!(offset.length() <= cam.lens_radius + 64);
    }
}

#[test]
fn scanline_has_one_pixel_per_column() {
    let world = one_sphere_world();
    let cam = test_camera();
    let mut rng = rand::rngs::StdRng::seed_from_u64(9);
    let row = render_scanline(&cam, &world, 1, 8, 4, 2, 5, &mut rng);
    assert_eq!(row.len(), 8);
    for pixel in row {
        assert!(pixel.x() >= 0 && pixel.x() <= 2 * ONE);
        assert!(pixel.y() >= 0 && pixel.y() <= 2 * ONE);
        assert!(pixel.z() >= 0 && pixel.z() <= 2 * ONE);
    }
}

#[test]
fn render_is_deterministic_for_a_seed() {
    // A two-by-two image with one sphere and one sample per pixel,
    // rendered twice from the same seed, is identical.
    let world = one_sphere_world();
    let cam = test_camera();
    let first = render(&cam, &world, 2, 2, 1, 5, 42);
    let second = render(&cam, &world, 2, 2, 1, 5, 42);
    assert_eq!(first.len(), 4);
    assert_eq!(first, second);
}

#[test]
fn render_covers_every_pixel() {
    let world = one_sphere_world();
    let cam = test_camera();
    let image = render(&cam, &world, 3, 2, 1, 3, 7);
    assert_eq!(image.len(), 6);
    for pixel in image {
        assert!(pixel.x() >= 0 && pixel.x() <= ONE);
        assert!(pixel.y() >= 0 && pixel.y() <= ONE);
        assert!(pixel.z() >= 0 && pixel.z() <= ONE);
    }
}
