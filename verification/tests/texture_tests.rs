use pathtracer::fixed::Fixed;
use pathtracer::texture::CheckerTexture;
use pathtracer::texture::ConstantTexture;
use pathtracer::texture::Texture;
use pathtracer::vec3::Vec3;

fn fx(x: f64) -> Fixed {
    Fixed::from_raw((x * 16777216.0).round() as i64)
}

fn v3(x: f64, y: f64, z: f64) -> Vec3 {
    Vec3::new(fx(x), fx(y), fx(z))
}

fn constant(r: f64, g: f64, b: f64) -> Texture {
    Texture::Constant(ConstantTexture::new(v3(r, g, b)))
}

#[test]
fn constant_texture_is_the_same_everywhere() {
    let t = ConstantTexture::new(v3(0.2, 0.3, 0.1));
    assert_eq!(t.color, v3(0.2, 0.3, 0.1));
    assert_eq!(t.value(fx(0.0), fx(0.0), v3(0.0, 0.0, 0.0)), v3(0.2, 0.3, 0.1));
    assert_eq!(t.value(fx(0.7), fx(0.1), v3(5.0, -6.0, 7.0)), v3(0.2, 0.3, 0.1));
    let wrapped = Texture::Constant(t);
    assert_eq!(wrapped.value(fx(0.5), fx(0.5), v3(1.0, 1.0, 1.0)), v3(0.2, 0.3, 0.1));
}

#[test]
fn checker_alternates_with_the_sign_of_the_sines() {
    let odd = v3(0.2, 0.3, 0.1);
    let even = v3(0.9, 0.9, 0.9);
    let checker = CheckerTexture::new(constant(0.2, 0.3, 0.1), constant(0.9, 0.9, 0.9));
    let zero = Fixed::zero();
    // sin(1) sin(1) sin(1) > 0
    assert_eq!(checker.value(zero, zero, v3(0.1, 0.1, 0.1)), even);
    // sin(-1) sin(1) sin(1) < 0
    assert_eq!(checker.value(zero, zero, v3(-0.1, 0.1, 0.1)), odd);
    // sin(4) sin(1) sin(1) < 0
    assert_eq!(checker.value(zero, zero, v3(0.4, 0.1, 0.1)), odd);
    // sin(4) sin(4) sin(1) > 0
    assert_eq!(checker.value(zero, zero, v3(0.4, 0.4, 0.1)), even);
    // sin(4) sin(4) sin(4) < 0
    assert_eq!(checker.value(zero, zero, v3(0.4, 0.4, 0.4)), odd);
    // sin(-1) sin(-1) sin(-1) < 0
    assert_eq!(checker.value(zero, zero, v3(-0.1, -0.1, -0.1)), odd);
}

#[test]
fn checker_is_even_where_a_sine_vanishes() {
    let checker = CheckerTexture::new(constant(0.0, 0.0, 0.0), constant(1.0, 1.0, 1.0));
    let zero = Fixed::zero();
    assert_eq!(checker.value(zero, zero, v3(0.0, -0.1, 0.1)), v3(1.0, 1.0, 1.0));
    assert_eq!(checker.value(zero, zero, v3(0.0, 0.0, 0.0)), v3(1.0, 1.0, 1.0));
}

#[test]
fn checker_agrees_with_the_product_of_sines() {
    let checker = CheckerTexture::new(constant(0.0, 0.0, 0.0), constant(1.0, 1.0, 1.0));
    let zero = Fixed::zero();
    let mut k = 0;
    while k < 300 {
        let x = (k as f64) * 0.0371 - 5.0;
        let y = (k as f64) * 0.0113 + 0.2;
        let z = 3.0 - (k as f64) * 0.0217;
        let sines = (10.0 * x).sin() * (10.0 * y).sin() * (10.0 * z).sin();
        if sines.abs() > 1e-3 {
            let expected = if sines < 0.0 { v3(0.0, 0.0, 0.0) } else { v3(1.0, 1.0, 1.0) };
            assert_eq!(checker.value(zero, zero, v3(x, y, z)), expected, "k = {}", k);
        }
        k += 1;
    }
}

#[test]
fn checker_of_checkers() {
    let inner = Texture::Checker(CheckerTexture::new(
        constant(1.0, 0.0, 0.0),
        constant(0.0, 1.0, 0.0),
    ));
    let outer = Texture::Checker(CheckerTexture::new(inner, constant(0.0, 0.0, 1.0)));
    let zero = Fixed::zero();
    // an even cell: the outer even texture.
    assert_eq!(outer.value(zero, zero, v3(0.1, 0.1, 0.1)), v3(0.0, 0.0, 1.0));
    // an odd cell: the inner checker, which is odd there too.
    assert_eq!(outer.value(zero, zero, v3(-0.1, 0.1, 0.1)), v3(1.0, 0.0, 0.0));
}
