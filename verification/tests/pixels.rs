use raytracer::fixed::{clamp, degrees_to_radians, ONE, PI};
use raytracer::vec3::{Color, Vec3};

#[test]
fn color_string_full_half_and_zero_channels() {
    // Full red maps to 255 (after the 0.999 clamp), a quarter-intensity
    // green gamma-corrects to one half and maps to 128, blue stays zero.
    let c = Color::new(ONE, ONE / 4, 0);
    assert_eq!(c.get_color_string(1), "255 128 0\n");
}

#[test]
fn color_string_averages_over_samples() {
    // A two-sample sum of full red averages back to full red.
    let c = Color::new(2 * ONE, 0, 0);
    assert_eq!(c.get_color_string(2), "255 0 0\n");
}

#[test]
fn color_string_renders_multi_digit_values() {
    // sqrt(10000 / 65536) in raw units is exactly 25600, which maps to
    // pixel value 100.
    let c = Color::new(10000, 10000, 10000);
    assert_eq!(c.get_color_string(1), "100 100 100\n");
}

#[test]
fn color_accessors_and_ops() {
    let c = Color::new(1, 2, 3);
    assert_eq!((c.x(), c.y(), c.z()), (1, 2, 3));
    let v = Vec3::new(4, 5, 6);
    let d = Color::from_vec(v);
    assert_eq!((d.x(), d.y(), d.z()), (4, 5, 6));
    let s = c.add(d);
    assert_eq!((s.x(), s.y(), s.z()), (5, 7, 9));
    let m = Color::new(ONE / 2, ONE, 0).mul(Color::new(ONE, ONE / 2, ONE));
    assert_eq!((m.x(), m.y(), m.z()), (ONE / 2, ONE / 2, 0));
    let sc = Color::new(ONE, 2 * ONE, 3 * ONE).scale(ONE / 2);
    assert_eq!((sc.x(), sc.y(), sc.z()), (ONE / 2, ONE, 3 * ONE / 2));
}

#[test]
fn clamp_forces_into_interval() {
    assert_eq!(clamp(5, 0, 10), 5);
    assert_eq!(clamp(-5, 0, 10), 0);
    assert_eq!(clamp(15, 0, 10), 10);
    assert_eq!(clamp(10, 10, 10), 10);
}

#[test]
fn degrees_to_radians_matches_pi() {
    assert_eq!(degrees_to_radians(180 * ONE), PI);
    assert_eq!(degrees_to_radians(90 * ONE), 102943);
    assert_eq!(degrees_to_radians(0), 0);
}
