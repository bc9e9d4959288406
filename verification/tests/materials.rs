use rand::SeedableRng;
use raytracer::fixed::ONE;
use raytracer::hit::{Hittable, HittableList};
use raytracer::material::{Dielectric, Lambertian, Material, Metal};
use raytracer::ray::Ray;
use raytracer::sphere::Sphere;
use raytracer::vec3::{Color, Vec3};

fn flat_hit(material: Material) -> (Ray, raytracer::hit::HitRecord) {
    // A ray straight down onto a floor-like sphere point with outward
    // normal +y.
    let r_in = Ray::new(Vec3::new(0, ONE, 0), Vec3::new(0, -ONE, 0));
    let rec = raytracer::hit::HitRecord::new(
        Vec3::new(0, 0, 0),
        &r_in,
        Vec3::new(0, ONE, 0),
        ONE,
        material,
    );
    (r_in, rec)
}

#[test]
fn lambertian_never_absorbs() {
    let albedo = Color::new(ONE / 2, ONE / 4, ONE / 8);
    let material = Material::Lambertian(Lambertian::new(albedo));
    let (r_in, rec) = flat_hit(material);
    for seed in 0..40u64 {
        let mut rng = rand::rngs::StdRng::seed_from_u64(seed);
        let out = material.scatter(&r_in, &rec, &mut rng);
        let (attenuation, scattered) = out.expect("diffuse scatter is never absorbed");
        assert_eq!(attenuation, albedo);
        assert_eq!(scattered.origin(), rec.p);
    }
}

#[test]
fn metal_zero_fuzz_reflects_exactly() {
    let albedo = Color::new(ONE, ONE, ONE);
    let metal = Metal::new(albedo, 0);
    let material = Material::Metal(metal);
    let (r_in, rec) = flat_hit(material);
    let mut rng = rand::rngs::StdRng::seed_from_u64(3);
    let (attenuation, scattered) = metal
        .scatter(&r_in, &rec, &mut rng)
        .expect("aligned reflection leaves the surface");
    assert_eq!(attenuation, albedo);
    assert_eq!(scattered.direction(), Vec3::new(0, ONE, 0));
    assert_eq!(scattered.origin(), Vec3::new(0, 0, 0));
}

#[test]
fn metal_new_clamps_fuzz() {
    let albedo = Color::new(ONE, ONE, ONE);
    assert_eq!(Metal::new(albedo, 3 * ONE).fuzz, ONE);
    assert_eq!(Metal::new(albedo, -ONE).fuzz, 0);
    assert_eq!(Metal::new(albedo, ONE / 4).fuzz, ONE / 4);
}

#[test]
fn dielectric_matched_index_passes_straight_through() {
    // With the refractive index equal to the outside medium the Schlick
    // reflectance is zero, so transmission is always chosen, and the
    // straight-on direction is unchanged.
    let dielectric = Dielectric::new(ONE);
    let material = Material::Dielectric(dielectric);
    let (r_in, rec) = flat_hit(material);
    for seed in 0..20u64 {
        let mut rng = rand::rngs::StdRng::seed_from_u64(seed);
        let (attenuation, scattered) = dielectric
            .scatter(&r_in, &rec, &mut rng)
            .expect("glass never absorbs");
        assert_eq!(attenuation, Color::new(ONE, ONE, ONE));
        assert_eq!(scattered.direction(), Vec3::new(0, -ONE, 0));
    }
}

#[test]
fn dielectric_never_absorbs_in_a_scene() {
    let glass = Material::Dielectric(Dielectric::new(98304));
    let (r_in, rec) = flat_hit(glass);
    for seed in 0..40u64 {
        let mut rng = rand::rngs::StdRng::seed_from_u64(seed);
        assert!(glass.scatter(&r_in, &rec, &mut rng).is_some());
    }
}

#[test]
fn metal_scatter_leaves_the_surface_or_absorbs() {
    let albedo = Color::new(ONE / 2, ONE / 2, ONE / 2);
    let metal = Metal::new(albedo, ONE);
    let material = Material::Metal(metal);
    let (r_in, rec) = flat_hit(material);
    for seed in 0..40u64 {
        let mut rng = rand::rngs::StdRng::seed_from_u64(seed);
        if let Some((_, scattered)) = metal.scatter(&r_in, &rec, &mut rng) {
            assert!(Vec3::dot(&scattered.direction(), &rec.normal) > 0);
        }
    }
}

#[test]
fn scene_of_all_materials_scatters() {
    let mut world = HittableList::new();
    world.add(Sphere::new(
        Vec3::new(0, 0, -ONE),
        ONE / 2,
        Material::Lambertian(Lambertian::new(Color::new(ONE / 2, ONE / 2, ONE / 2))),
    ));
    world.add(Sphere::new(
        Vec3::new(-ONE, 0, -ONE),
        ONE / 2,
        Material::Dielectric(Dielectric::new(98304)),
    ));
    world.add(Sphere::new(
        Vec3::new(ONE, 0, -ONE),
        ONE / 2,
        Material::Metal(Metal::new(Color::new(ONE / 2, ONE / 2, ONE / 2), ONE / 4)),
    ));
    let r = Ray::new(Vec3::new(0, 0, 0), Vec3::new(0, 0, -ONE));
    assert!(world.hit(&r, 65, 65536000).is_some());
}
