use raytracer::color::{gamma_channel, quantize, COLOR_ONE};
use raytracer::fixed::{div_floor, isqrt, ONE};
use raytracer::vec3::{cross, dot, dot_wide};
use raytracer::{Color, Point3, Ray, Vec3};

#[test]
fn div_floor_rounds_toward_negative_infinity() {
    assert_eq!(div_floor(7, 2), 3);
    assert_eq!(div_floor(-7, 2), -4);
    assert_eq!(div_floor(-8, 2), -4);
    assert_eq!(div_floor(0, 5), 0);
}

#[test]
fn isqrt_rounds_down() {
    assert_eq!(isqrt(0), 0);
    assert_eq!(isqrt(15), 3);
    assert_eq!(isqrt(16), 4);
    assert_eq!(isqrt(1 << 100), 1 << 50);
    assert_eq!(isqrt((1u128 << 127) - 1), 13043817825332782212);
}

#[test]
fn vector_arithmetic() {
    let u = Vec3::new(ONE, 2 * ONE, 3 * ONE);
    let v = Vec3::new(4 * ONE, -5 * ONE, 6 * ONE);
    assert_eq!(u.add(v), Vec3::new(5 * ONE, -3 * ONE, 9 * ONE));
    assert_eq!(u.sub(v), Vec3::new(-3 * ONE, 7 * ONE, -3 * ONE));
    assert_eq!(u.neg(), Vec3::new(-ONE, -2 * ONE, -3 * ONE));
    assert_eq!(u.scale(2 * ONE), Vec3::new(2 * ONE, 4 * ONE, 6 * ONE));
    assert_eq!(u.scale(ONE / 2), Vec3::new(ONE / 2, ONE, 3 * ONE / 2));
    assert_eq!(u.div(2 * ONE), Vec3::new(ONE / 2, ONE, 3 * ONE / 2));
    assert_eq!(u.div(-2 * ONE), Vec3::new(-ONE / 2, -ONE, -3 * ONE / 2));
    assert_eq!(u.mul(v), Vec3::new(4 * ONE, -10 * ONE, 18 * ONE));
    assert_eq!(dot(u, v), 12 * ONE);
    assert_eq!(dot_wide(u, v), 12 * (ONE as i128) * (ONE as i128));
    assert_eq!(cross(u, v), Vec3::new(27 * ONE, 6 * ONE, -13 * ONE));
    assert_eq!(u.x(), ONE);
    assert_eq!(u.y(), 2 * ONE);
    assert_eq!(u.z(), 3 * ONE);
    assert_eq!(v.get_unchecked(1), -5 * ONE);
}

#[test]
fn vector_length_and_normalize() {
    let v = Vec3::new(3 * ONE, 4 * ONE, 0);
    assert_eq!(v.length_squared(), 25 * ONE);
    assert_eq!(v.length(), 5 * ONE);
    assert_eq!(v.normalize(), Vec3::new(39321, 52428, 0));
    let w = Vec3::new(0, 0, -7);
    assert_eq!(w.normalize(), Vec3::new(0, 0, -ONE));
}

#[test]
fn near_zero_only_for_zero_components() {
    assert!(Vec3::new(0, 0, 0).near_zero());
    assert!(!Vec3::new(0, 1, 0).near_zero());
    assert!(!Vec3::new(-1, 0, 0).near_zero());
}

#[test]
fn points_and_rays() {
    let p = Point3::new(ONE, 0, -ONE);
    let v = Vec3::new(0, ONE, ONE);
    assert_eq!(p.add(v), Point3::new(ONE, ONE, 0));
    assert_eq!(p.sub_vec(v), Point3::new(ONE, -ONE, -2 * ONE));
    assert_eq!(p.sub(Point3::new(0, 0, 0)), Vec3::new(ONE, 0, -ONE));
    let r = Ray::new(p, v);
    assert_eq!(r.origin(), p);
    assert_eq!(r.direction(), v);
    assert_eq!(r.at(2 * ONE), Some(Point3::new(ONE, 2 * ONE, ONE)));
    assert_eq!(r.at(ONE / 2), Some(Point3::new(ONE, ONE / 2, -ONE / 2)));
    assert_eq!(r.at(i64::MAX), None);
}

#[test]
fn gamma_correction_of_channels() {
    assert_eq!(gamma_channel(0), 0);
    assert_eq!(gamma_channel(COLOR_ONE), COLOR_ONE);
    assert_eq!(gamma_channel(512), 747);
    assert_eq!(gamma_channel(1), 43);
    let c = Color::new(0, 512, COLOR_ONE).gamma_correction();
    assert_eq!(c, Color::new(0, 747, COLOR_ONE));
}

#[test]
fn quantization_to_eight_bits() {
    assert_eq!(quantize(0), 0);
    assert_eq!(quantize(512), 127);
    assert_eq!(quantize(COLOR_ONE), 255);
    assert_eq!(Color::new(COLOR_ONE, 512, 0).to_rgb8(), [255, 127, 0]);
}

#[test]
fn color_attenuation() {
    let a = Color::new(512, COLOR_ONE, 0);
    let b = Color::new(512, 300, COLOR_ONE);
    assert_eq!(a.mul(b), Color::new(256, 300, 0));
    assert_eq!(Color::black(), Color::new(0, 0, 0));
}

#[test]
fn compound_assignment() {
    let mut v = Vec3::new(ONE, -ONE, 2 * ONE);
    v.add_assign(Vec3::new(ONE, ONE, ONE));
    assert_eq!(v, Vec3::new(2 * ONE, 0, 3 * ONE));
    v.mul_assign(ONE / 2);
    assert_eq!(v, Vec3::new(ONE, 0, 3 * ONE / 2));
    v.div_assign(-ONE / 2);
    assert_eq!(v, Vec3::new(-2 * ONE, 0, -3 * ONE));
    let mut p = Point3::new(0, 0, 0);
    p.add_assign(Vec3::new(1, 2, 3));
    assert_eq!(p, Point3::new(1, 2, 3));
}

#[test]
fn color_sum_and_scale() {
    let a = Color::new(100, 200, 300);
    assert_eq!(a.add(Color::new(1, 2, 3)), Color::new(101, 202, 303));
    assert_eq!(a.scale(512), Color::new(50, 100, 150));
    assert_eq!(a.scale(COLOR_ONE), a);
}

#[test]
fn cross_is_anticommutative_in_raw_units() {
    let a = Vec3::new(1, 0, 0);
    let b = Vec3::new(0, 1, 0);
    assert_eq!(cross(a, b), Vec3::new(0, 0, 0));
    assert_eq!(cross(b, a), Vec3::new(0, 0, 0));
    let u = Vec3::new(3, -7, 11);
    let v = Vec3::new(-5, 2 * ONE, 13);
    assert_eq!(cross(u, v), cross(v, u).neg());
    assert_eq!(cross(u, v), Vec3::new(-22, 0, 5));
    let x = Vec3::new(ONE, 0, 0);
    let y = Vec3::new(0, ONE, 0);
    assert_eq!(cross(x, y), Vec3::new(0, 0, ONE));
    assert_eq!(cross(y, x), Vec3::new(0, 0, -ONE));
}

#[test]
fn mean_of_identical_vectors_is_exact() {
    let c = Vec3::new(12345, -678, 90);
    let mut sum = Vec3::new(0, 0, 0);
    for _ in 0..7 {
        sum.add_assign(c);
    }
    sum.div_assign(7 * ONE);
    assert_eq!(sum, c);
}
