use rand::SeedableRng;
use raytracer::fixed::ONE;
use raytracer::vec3::{Color, Vec3};

#[test]
fn vec3_binary_ops() {
    // 4 - 2 = 2, 3 - 1 = 2, 2 - 0.5 = 1.5, in raw units.
    assert_eq!(
        Vec3::new(4 * ONE, 3 * ONE, 2 * ONE).sub(Vec3::new(2 * ONE, ONE, ONE / 2)),
        Vec3::new(2 * ONE, 2 * ONE, ONE + ONE / 2)
    );
}

#[test]
fn vec3_add_neg_mul_scale_div() {
    let a = Vec3::new(ONE, 2 * ONE, -3 * ONE);
    let b = Vec3::new(ONE / 2, -ONE, ONE);
    assert_eq!(a.add(b), Vec3::new(3 * ONE / 2, ONE, -2 * ONE));
    assert_eq!(a.neg(), Vec3::new(-ONE, -2 * ONE, 3 * ONE));
    assert_eq!(a.mul(b), Vec3::new(ONE / 2, -2 * ONE, -3 * ONE));
    assert_eq!(a.scale(2 * ONE), Vec3::new(2 * ONE, 4 * ONE, -6 * ONE));
    assert_eq!(a.div(2 * ONE), Vec3::new(ONE / 2, ONE, -3 * ONE / 2));
}

#[test]
fn vec3_dot_cross_length() {
    let a = Vec3::new(ONE, 0, 0);
    let b = Vec3::new(0, ONE, 0);
    assert_eq!(Vec3::dot(&a, &b), 0);
    assert_eq!(Vec3::dot(&a, &a), ONE);
    assert_eq!(Vec3::cross(&a, &b), Vec3::new(0, 0, ONE));
    let v = Vec3::new(3 * ONE, 4 * ONE, 0);
    assert_eq!(v.length_squared(), 25 * ONE);
    assert_eq!(v.length(), 5 * ONE);
}

#[test]
fn vec3_index_and_accessors() {
    let v = Vec3::new(7, 8, 9);
    assert_eq!(v.x(), 7);
    assert_eq!(v.y(), 8);
    assert_eq!(v.z(), 9);
    assert_eq!(v.index(0), 7);
    assert_eq!(v.index(1), 8);
    assert_eq!(v.index(2), 9);
}

#[test]
fn unit_vector_length_is_one_within_tolerance() {
    // 3-4-12-13 triple: the exact unit components round to within two
    // raw units of unit length.
    let v = Vec3::new(3 * ONE, 4 * ONE, 12 * ONE);
    let u = Vec3::unit_vector(v);
    assert_eq!(u, Vec3::new(15123, 20164, 60494));
    assert_eq!(u.length(), 65534);
    assert!((u.length() - ONE).abs() <= 16);

    let v2 = Vec3::new(10000, -20000, 5000);
    let u2 = Vec3::unit_vector(v2);
    assert_eq!(u2.length(), 65540);
    assert!((u2.length() - ONE).abs() <= 16);
}

#[test]
fn unit_vector_of_zero_is_zero() {
    let u = Vec3::unit_vector(Vec3::new(0, 0, 0));
    assert_eq!(u, Vec3::new(0, 0, 0));
}

#[test]
fn reflect_flips_normal_component() {
    // v = unit (1, -1, 0), n = +y: the reflection is exact here.
    let v = Vec3::unit_vector(Vec3::new(ONE, -ONE, 0));
    let n = Vec3::new(0, ONE, 0);
    let r = Vec3::reflect(&v, &n);
    assert_eq!(r, Vec3::new(46341, 46341, 0));
    assert_eq!(Vec3::dot(&r, &n), -Vec3::dot(&v, &n));
}

#[test]
fn refract_straight_through_at_matched_index() {
    // Unit incident straight against the normal with eta = 1: the
    // direction is unchanged exactly.
    let uv = Vec3::new(0, -ONE, 0);
    let n = Vec3::new(0, ONE, 0);
    let refracted = Vec3::refract(&uv, &n, ONE);
    assert_eq!(refracted, uv);
}

#[test]
fn samplers_stay_in_their_domains() {
    let mut rng = rand::rngs::StdRng::seed_from_u64(11);
    for _ in 0..50 {
        let p = Vec3::random_in_unit_sphere(&mut rng);
        assert!(p.length_squared() < ONE);
        let d = Vec3::random_in_unit_disk(&mut rng);
        assert!(d.length_squared() < ONE);
        assert_eq!(d.z(), 0);
        let u = Vec3::random_unit_vector(&mut rng);
        let lsq = u.length_squared();
        assert!(lsq > 63000 && lsq < 68000);
        let n = Vec3::new(0, ONE, 0);
        let h = Vec3::random_in_hemisphere(&mut rng, &n);
        assert!(h.length_squared() < ONE);
        let r = Vec3::random(&mut rng);
        assert!(r.x() >= 0 && r.x() < ONE);
        assert!(r.y() >= 0 && r.y() < ONE);
        assert!(r.z() >= 0 && r.z() < ONE);
        let rr = Vec3::random_range(&mut rng, -ONE, ONE);
        assert!(rr.x() >= -ONE && rr.x() < ONE);
    }
}

#[test]
fn color_random_channels_in_unit_interval() {
    for _ in 0..20 {
        let c = Color::random();
        assert!(c.x() >= 0 && c.x() < ONE);
        assert!(c.y() >= 0 && c.y() < ONE);
        assert!(c.z() >= 0 && c.z() < ONE);
    }
}
