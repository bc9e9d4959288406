use raytracer::fixed::ONE;
use raytracer::hit::{Hittable, HittableList};
use raytracer::material::{Lambertian, Material};
use raytracer::ray::Ray;
use raytracer::sphere::Sphere;
use raytracer::vec3::{Color, Vec3};

fn gray() -> Material {
    Material::Lambertian(Lambertian::new(Color::new(ONE / 2, ONE / 2, ONE / 2)))
}

#[test]
fn ray_at_walks_the_line() {
    let r = Ray::new(Vec3::new(ONE, 0, 0), Vec3::new(0, 0, -ONE));
    assert_eq!(r.origin(), Vec3::new(ONE, 0, 0));
    assert_eq!(r.direction(), Vec3::new(0, 0, -ONE));
    assert_eq!(r.at(2 * ONE), Vec3::new(ONE, 0, -2 * ONE));
}

#[test]
fn sphere_hit_straight_ahead() {
    // A ray from the origin toward -z against a sphere centered one unit
    // down the axis with radius one half: the hit is at t = 0.5 with
    // outward normal +z.
    let sphere = Sphere::new(Vec3::new(0, 0, -ONE), ONE / 2, gray());
    let r = Ray::new(Vec3::new(0, 0, 0), Vec3::new(0, 0, -ONE));
    let rec = sphere.hit(&r, 65, 65536000).expect("hit expected");
    assert_eq!(rec.t, ONE / 2);
    assert_eq!(rec.p, Vec3::new(0, 0, -ONE / 2));
    assert_eq!(rec.normal, Vec3::new(0, 0, ONE));
    assert!(rec.front_face);
}

#[test]
fn sphere_miss_off_axis() {
    // The same ray against a far-off sphere reports no hit.
    let sphere = Sphere::new(Vec3::new(5 * ONE, 5 * ONE, 5 * ONE), ONE / 2, gray());
    let r = Ray::new(Vec3::new(0, 0, 0), Vec3::new(0, 0, -ONE));
    assert!(sphere.hit(&r, 65, 65536000).is_none());
}

#[test]
fn sphere_hit_respects_t_window() {
    let sphere = Sphere::new(Vec3::new(0, 0, -ONE), ONE / 2, gray());
    let r = Ray::new(Vec3::new(0, 0, 0), Vec3::new(0, 0, -ONE));
    // The near root is at 0.5 and the far root at 1.5; a window that
    // excludes both reports no hit, one that excludes only the near root
    // falls back to the far root.
    assert!(sphere.hit(&r, 65, ONE / 4).is_none());
    let far = sphere.hit(&r, ONE, 65536000).expect("far root expected");
    assert_eq!(far.t, 3 * ONE / 2);
    assert!(!far.front_face);
}

#[test]
fn front_face_convention_holds() {
    // Hits from outside and from inside the sphere: the stored normal
    // always opposes the ray direction.
    let sphere = Sphere::new(Vec3::new(0, 0, -ONE), ONE / 2, gray());
    let outside = Ray::new(Vec3::new(0, 0, 0), Vec3::new(0, 0, -ONE));
    let inside = Ray::new(Vec3::new(0, 0, -ONE), Vec3::new(0, 0, -ONE));
    for (ray, _) in [(outside, "outside"), (inside, "inside")] {
        if let Some(rec) = sphere.hit(&ray, 65, 65536000) {
            assert!(Vec3::dot(&ray.direction(), &rec.normal) <= 0);
        } else {
            panic!("expected a hit");
        }
    }
}

#[test]
fn list_hit_keeps_the_closest() {
    let mut world = HittableList::new();
    world.add(Sphere::new(Vec3::new(0, 0, -4 * ONE), ONE / 2, gray()));
    world.add(Sphere::new(Vec3::new(0, 0, -2 * ONE), ONE / 2, gray()));
    let r = Ray::new(Vec3::new(0, 0, 0), Vec3::new(0, 0, -ONE));
    let rec = world.hit(&r, 65, 65536000).expect("hit expected");
    // The nearer sphere (centered at -2) wins: t = 1.5.
    assert_eq!(rec.t, 3 * ONE / 2);
    world.clear();
    assert!(world.hit(&r, 65, 65536000).is_none());
}

#[test]
fn far_sphere_hit_from_its_center() {
    // A sphere centered a thousand world units out with radius fifty, and
    // a ray cast from its center: the only root in range is the far one,
    // at exactly the radius, with the hit point well outside the first
    // thousand units of the world.
    let sphere = Sphere::new(Vec3::new(1000 * ONE, 0, 0), 50 * ONE, gray());
    let r = Ray::new(Vec3::new(1000 * ONE, 0, 0), Vec3::new(ONE, 0, 0));
    let rec = sphere.hit(&r, 65, 65536000000).expect("interior hit expected");
    assert_eq!(rec.t, 50 * ONE);
    assert_eq!(rec.p, Vec3::new(1050 * ONE, 0, 0));
    assert_eq!(rec.normal, Vec3::new(-ONE, 0, 0));
    assert!(!rec.front_face);
}

#[test]
fn empty_scene_never_hits() {
    let world = HittableList::new();
    let r = Ray::new(Vec3::new(0, 0, 0), Vec3::new(ONE, ONE, ONE));
    assert!(world.hit(&r, 65, 65536000).is_none());
}
