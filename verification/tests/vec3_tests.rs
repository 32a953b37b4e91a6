use pathtracer::fixed::Fixed;
use pathtracer::ray::Ray;
use pathtracer::vec3::Vec3;

fn fx(x: f64) -> Fixed {
    Fixed::from_raw((x * 16777216.0).round() as i64)
}

fn v3(x: f64, y: f64, z: f64) -> Vec3 {
    Vec3::new(fx(x), fx(y), fx(z))
}

fn to_f64(x: Fixed) -> f64 {
    x.raw as f64 / 16777216.0
}

fn close(a: Fixed, b: f64, tolerance: f64) -> bool {
    (to_f64(a) - b).abs() <= tolerance
}

#[test]
fn vector_new_keeps_components() {
    let v = Vec3::new(fx(1.0), fx(-2.0), fx(0.5));
    assert_eq!(v.x, fx(1.0));
    assert_eq!(v.y, fx(-2.0));
    assert_eq!(v.z, fx(0.5));
    assert_eq!(Vec3::from_ints(1, -2, 3), v3(1.0, -2.0, 3.0));
}

#[test]
fn vector_arithmetic_is_componentwise() {
    let a = v3(1.0, 2.0, 3.0);
    let b = v3(0.5, -4.0, 8.0);
    assert_eq!(a.add(b), v3(1.5, -2.0, 11.0));
    assert_eq!(a.sub(b), v3(0.5, 6.0, -5.0));
    assert_eq!(a.neg(), v3(-1.0, -2.0, -3.0));
    assert_eq!(a.scale(fx(2.0)), v3(2.0, 4.0, 6.0));
    assert_eq!(a.make_comp_mul(&b), v3(0.5, -8.0, 24.0));
}

#[test]
fn dot_and_cross_products() {
    let a = v3(1.0, 2.0, 3.0);
    let b = v3(4.0, -5.0, 6.0);
    assert_eq!(a.dot(&b), fx(12.0));
    assert_eq!(a.cross(&b), v3(27.0, 6.0, -13.0));
    let x = v3(1.0, 0.0, 0.0);
    let y = v3(0.0, 1.0, 0.0);
    assert_eq!(x.cross(&y), v3(0.0, 0.0, 1.0));
    assert_eq!(y.cross(&x), v3(0.0, 0.0, -1.0));
}

#[test]
fn lengths() {
    let v = v3(3.0, 4.0, 12.0);
    assert_eq!(v.squared_mag(), fx(169.0));
    assert_eq!(v.magnitude(), fx(13.0));
    assert_eq!(Vec3::from_ints(0, 0, 0).magnitude(), fx(0.0));
}

#[test]
fn unit_vector_of_axis_multiples_is_exact() {
    assert_eq!(v3(0.0, 0.0, -7.0).make_unit_vector(), v3(0.0, 0.0, -1.0));
    // (3, 4, 0) has the length 5: the components are 3/5 and 4/5, rounded toward zero.
    let u = v3(3.0, 4.0, 0.0).make_unit_vector();
    assert_eq!(u.x.raw, 10_066_329);
    assert_eq!(u.y.raw, 13_421_772);
    assert_eq!(u.z.raw, 0);
}

#[test]
fn magnitude_of_short_vectors_is_precise() {
    // raw components (3, 4, 0): the length is 5 units in the last place.
    let tiny = Vec3::new(Fixed::from_raw(3), Fixed::from_raw(4), Fixed::from_raw(0));
    assert_eq!(tiny.magnitude().raw, 5);
    assert_eq!(tiny.squared_mag().raw, 0);
    let u = tiny.make_unit_vector();
    assert_eq!(u.x.raw, 10_066_329);
    assert_eq!(u.y.raw, 13_421_772);
}

#[test]
fn magnitude_saturates() {
    let huge = Vec3::new(
        Fixed::from_raw(i64::MAX),
        Fixed::from_raw(i64::MIN),
        Fixed::from_raw(i64::MAX),
    );
    assert_eq!(huge.magnitude().raw, i64::MAX);
}

#[test]
fn unit_vector_has_length_one_up_to_rounding() {
    let samples = [v3(1.0, 2.0, 3.0), v3(-13.0, 2.0, 3.0), v3(0.001, 0.002, -0.003), v3(
        1000.0, -1000.0, 500.0,
    )];
    for v in samples {
        let u = v.make_unit_vector();
        assert!(close(u.squared_mag(), 1.0, 1e-4), "{:?}", u);
    }
}

#[test]
fn unit_vector_of_zero_is_zero() {
    assert_eq!(Vec3::from_ints(0, 0, 0).make_unit_vector(), Vec3::from_ints(0, 0, 0));
}

#[test]
fn reflect_follows_the_closed_form() {
    let v = v3(1.0, -1.0, 0.0);
    let n = v3(0.0, 1.0, 0.0);
    assert_eq!(v.reflect(&n), v3(1.0, 1.0, 0.0));
    let w = v3(0.25, -0.5, 2.0);
    let m = v3(0.0, 0.0, -1.0);
    assert_eq!(w.reflect(&m), v3(0.25, -0.5, -2.0));
}

#[test]
fn reflect_preserves_length_up_to_rounding() {
    let n = v3(1.0, 2.0, -2.0).make_unit_vector();
    let samples = [v3(1.0, 2.0, 3.0), v3(-0.3, 0.9, 0.1), v3(100.0, -50.0, 25.0)];
    for v in samples {
        let r = v.reflect(&n);
        let before = to_f64(v.squared_mag());
        let after = to_f64(r.squared_mag());
        assert!((before - after).abs() <= 1e-4 * before.max(1.0), "{} {}", before, after);
    }
}

#[test]
fn reflect_twice_is_the_identity_for_axis_normals() {
    let n = v3(0.0, 1.0, 0.0);
    let v = v3(0.3, -0.7, 1.9);
    assert_eq!(v.reflect(&n).reflect(&n), v);
}

#[test]
fn refract_straight_through_with_equal_indices() {
    // head on: the unit direction is the opposite of the normal.
    let v = v3(0.0, 0.0, -3.0);
    let n = v3(0.0, 0.0, 1.0);
    assert_eq!(v.refract(&n, Fixed::one()), Some(v3(0.0, 0.0, -1.0)));
}

#[test]
fn refract_with_equal_indices_keeps_the_direction() {
    let n = v3(0.0, 1.0, 0.0);
    let v = v3(1.0, -2.0, 0.5);
    let u = v.make_unit_vector();
    let r = v.refract(&n, Fixed::one()).unwrap();
    assert!((r.x.raw - u.x.raw).abs() <= 3);
    assert!((r.y.raw - u.y.raw).abs() <= 3);
    assert!((r.z.raw - u.z.raw).abs() <= 3);
}

#[test]
fn refract_bends_toward_the_normal_in_the_denser_medium() {
    // 45 degrees onto glass of index 1.5: sin(out) = sin(45) / 1.5.
    let v = v3(1.0, -1.0, 0.0);
    let n = v3(0.0, 1.0, 0.0);
    let r = v.refract(&n, fx(1.0 / 1.5)).unwrap();
    let sin_out = (0.5f64).sqrt() / 1.5;
    let cos_out = (1.0 - sin_out * sin_out).sqrt();
    assert!(close(r.x, sin_out, 1e-5));
    assert!(close(r.y, -cos_out, 1e-5));
    assert_eq!(r.z.raw, 0);
}

#[test]
fn refract_fails_on_total_internal_reflection() {
    // from glass to air at 60 degrees: 1.5 * sin(60) > 1.
    let v = v3(0.866, -0.5, 0.0);
    let n = v3(0.0, 1.0, 0.0);
    assert_eq!(v.refract(&n, fx(1.5)), None);
    // grazing light with equal indices: the discriminant is exactly zero.
    let grazing = v3(1.0, 0.0, 0.0);
    assert_eq!(grazing.refract(&n, Fixed::one()), None);
}

#[test]
fn refract_is_none_exactly_when_the_discriminant_is_not_positive() {
    let n = v3(0.0, 1.0, 0.0);
    let one = Fixed::one();
    let mut k = 0;
    while k <= 40 {
        let angle = (k as f64) * 0.039;
        let v = v3(angle.sin(), -angle.cos(), 0.0);
        let ratio = fx(1.5);
        let dt = v.make_unit_vector().dot(&n);
        let disc = one.sub(ratio.mul(ratio).mul(one.sub(dt.mul(dt))));
        assert_eq!(v.refract(&n, ratio).is_none(), disc.raw <= 0, "angle = {}", angle);
        k += 1;
    }
}

#[test]
fn gamma_two_takes_square_roots() {
    assert_eq!(v3(0.25, 1.0, 4.0).gamma_two(), v3(0.5, 1.0, 2.0));
    assert_eq!(v3(-1.0, 0.0, 0.0).gamma_two(), v3(0.0, 0.0, 0.0));
}

#[test]
fn ray_point_at_parameter() {
    let ray = Ray::new(v3(1.0, 2.0, 3.0), v3(0.5, 0.0, -1.0));
    assert_eq!(ray.origin, v3(1.0, 2.0, 3.0));
    assert_eq!(ray.direction, v3(0.5, 0.0, -1.0));
    assert_eq!(ray.point_at_parameter(fx(0.0)), v3(1.0, 2.0, 3.0));
    assert_eq!(ray.point_at_parameter(fx(2.0)), v3(2.0, 2.0, 1.0));
    assert_eq!(ray.point_at_parameter(fx(-4.0)), v3(-1.0, 2.0, 7.0));
}
