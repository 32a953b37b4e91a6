use pathtracer::fixed::Fixed;
use pathtracer::fixed::PI_RAW;
use pathtracer::fixed::SCALE;

fn fx(x: f64) -> Fixed {
    Fixed::from_raw((x * 16777216.0).round() as i64)
}

#[test]
fn scale_is_two_to_the_24() {
    assert_eq!(SCALE, 1 << 24);
    assert_eq!(Fixed::one().raw, 16_777_216);
    assert_eq!(Fixed::zero().raw, 0);
    assert_eq!(Fixed::max_value().raw, i64::MAX);
}

#[test]
fn from_int_is_exact() {
    assert_eq!(Fixed::from_int(3).raw, 3 * SCALE);
    assert_eq!(Fixed::from_int(-1000).raw, -1000 * SCALE);
    assert_eq!(Fixed::from_int(i32::MAX).raw, (i32::MAX as i64) << 24);
    assert_eq!(Fixed::from_int(i32::MIN).raw, (i32::MIN as i64) * SCALE);
    assert_eq!(Fixed::from_u32(1200).raw, 1200 * SCALE);
    assert_eq!(Fixed::from_u32(u32::MAX).raw, (u32::MAX as i64) << 24);
}

#[test]
fn add_and_sub_are_exact_in_range() {
    assert_eq!(fx(1.5).add(fx(2.25)), fx(3.75));
    assert_eq!(fx(1.5).sub(fx(2.25)), fx(-0.75));
    assert_eq!(Fixed::from_raw(7).add(Fixed::from_raw(-9)).raw, -2);
}

#[test]
fn add_and_sub_saturate() {
    let max = Fixed::from_raw(i64::MAX);
    let min = Fixed::from_raw(i64::MIN);
    assert_eq!(max.add(Fixed::from_raw(1)), max);
    assert_eq!(max.add(max), max);
    assert_eq!(min.add(Fixed::from_raw(-1)), min);
    assert_eq!(min.sub(Fixed::from_raw(1)), min);
    assert_eq!(min.sub(max), min);
    assert_eq!(max.sub(min), max);
    assert_eq!(Fixed::zero().sub(min), max);
}

#[test]
fn neg_saturates_at_the_most_negative_number() {
    assert_eq!(fx(2.5).neg(), fx(-2.5));
    assert_eq!(Fixed::zero().neg(), Fixed::zero());
    assert_eq!(Fixed::from_raw(i64::MIN).neg().raw, i64::MAX);
    assert_eq!(Fixed::from_raw(i64::MAX).neg().raw, -i64::MAX);
}

#[test]
fn mul_rounds_toward_zero() {
    assert_eq!(fx(1.5).mul(fx(2.0)), fx(3.0));
    assert_eq!(fx(-1.5).mul(fx(2.0)), fx(-3.0));
    // one unit in the last place times one half is half a unit: it is dropped.
    assert_eq!(Fixed::from_raw(1).mul(fx(0.5)).raw, 0);
    assert_eq!(Fixed::from_raw(-1).mul(fx(0.5)).raw, 0);
    assert_eq!(Fixed::from_raw(3).mul(fx(0.5)).raw, 1);
    assert_eq!(Fixed::from_raw(-3).mul(fx(0.5)).raw, -1);
    assert_eq!(Fixed::from_raw(4095).mul(Fixed::from_raw(4096)).raw, 0);
    assert_eq!(Fixed::from_raw(4096).mul(Fixed::from_raw(4096)).raw, 1);
}

#[test]
fn mul_saturates() {
    let big = Fixed::from_raw(1 << 50);
    assert_eq!(big.mul(big).raw, i64::MAX);
    assert_eq!(big.mul(big.neg()).raw, i64::MIN);
    let min = Fixed::from_raw(i64::MIN);
    assert_eq!(min.mul(min).raw, i64::MAX);
    assert_eq!(min.mul(Fixed::one()).raw, i64::MIN);
    assert_eq!(min.mul(Fixed::one().neg()).raw, i64::MAX);
}

#[test]
fn div_rounds_toward_zero() {
    assert_eq!(fx(3.0).div(fx(2.0)), fx(1.5));
    assert_eq!(fx(-3.0).div(fx(2.0)), fx(-1.5));
    assert_eq!(fx(3.0).div(fx(-2.0)), fx(-1.5));
    assert_eq!(Fixed::one().div(Fixed::from_int(3)).raw, 5_592_405);
    assert_eq!(Fixed::one().neg().div(Fixed::from_int(3)).raw, -5_592_405);
    assert_eq!(Fixed::one().div(Fixed::from_int(1000)).raw, 16_777);
}

#[test]
fn div_by_zero_saturates_by_sign() {
    let zero = Fixed::zero();
    assert_eq!(fx(2.0).div(zero).raw, i64::MAX);
    assert_eq!(fx(-2.0).div(zero).raw, i64::MIN);
    assert_eq!(zero.div(zero).raw, 0);
}

#[test]
fn div_saturates() {
    let tiny = Fixed::from_raw(1);
    assert_eq!(Fixed::from_raw(1 << 45).div(tiny).raw, i64::MAX);
    assert_eq!(Fixed::from_raw(-(1 << 45)).div(tiny).raw, i64::MIN);
    assert_eq!(Fixed::from_raw(i64::MIN).div(Fixed::one().neg()).raw, i64::MAX);
}

#[test]
fn sqrt_of_squares_is_exact() {
    assert_eq!(fx(4.0).sqrt(), fx(2.0));
    assert_eq!(fx(0.25).sqrt(), fx(0.5));
    assert_eq!(Fixed::one().sqrt(), Fixed::one());
    assert_eq!(fx(1_000_000.0).sqrt(), fx(1000.0));
}

#[test]
fn sqrt_rounds_down() {
    // sqrt(2) * 2^24 = 23726566.4...
    assert_eq!(fx(2.0).sqrt().raw, 23_726_566);
    // the raw value 1 stands for 2^-24, whose root is 2^-12.
    assert_eq!(Fixed::from_raw(1).sqrt().raw, 4096);
    assert_eq!(Fixed::from_raw(2).sqrt().raw, 5792);
    let r = Fixed::from_raw(i64::MAX).sqrt().raw as i128;
    let n = (i64::MAX as i128) << 24;
    assert!(r * r <= n && n < (r + 1) * (r + 1));
}

#[test]
fn sqrt_of_zero_and_negative_is_zero() {
    assert_eq!(Fixed::zero().sqrt().raw, 0);
    assert_eq!(fx(-4.0).sqrt().raw, 0);
    assert_eq!(Fixed::from_raw(i64::MIN).sqrt().raw, 0);
}

#[test]
fn sqrt_satisfies_its_defining_inequality() {
    let mut raw: i64 = 1;
    while raw < (1 << 40) {
        let r = Fixed::from_raw(raw).sqrt().raw as i128;
        let n = (raw as i128) << 24;
        assert!(r >= 0 && r * r <= n && n < (r + 1) * (r + 1), "raw = {}", raw);
        raw = raw * 3 + 1;
    }
}

#[test]
fn trunc_drops_the_fraction() {
    assert_eq!(fx(2.75).trunc(), 2);
    assert_eq!(fx(-2.75).trunc(), -2);
    assert_eq!(fx(0.99).trunc(), 0);
    assert_eq!(fx(-0.99).trunc(), 0);
    assert_eq!(Fixed::from_int(255).trunc(), 255);
}

#[test]
fn sine_sign_follows_the_half_periods() {
    assert_eq!(Fixed::zero().sine_sign(), 0);
    assert_eq!(fx(1.0).sine_sign(), 1);
    assert_eq!(fx(3.0).sine_sign(), 1);
    assert_eq!(fx(4.0).sine_sign(), -1);
    assert_eq!(fx(6.0).sine_sign(), -1);
    assert_eq!(fx(7.0).sine_sign(), 1);
    assert_eq!(fx(-1.0).sine_sign(), -1);
    assert_eq!(fx(-4.0).sine_sign(), 1);
    assert_eq!(fx(-7.0).sine_sign(), -1);
}

#[test]
fn sine_sign_vanishes_at_multiples_of_pi() {
    assert_eq!(Fixed::from_raw(PI_RAW).sine_sign(), 0);
    assert_eq!(Fixed::from_raw(2 * PI_RAW).sine_sign(), 0);
    assert_eq!(Fixed::from_raw(-PI_RAW).sine_sign(), 0);
    assert_eq!(Fixed::from_raw(-3 * PI_RAW).sine_sign(), 0);
    assert_eq!(Fixed::from_raw(PI_RAW - 1).sine_sign(), 1);
    assert_eq!(Fixed::from_raw(PI_RAW + 1).sine_sign(), -1);
    assert_eq!(Fixed::from_raw(-1).sine_sign(), -1);
    assert_eq!(Fixed::from_raw(1).sine_sign(), 1);
}

#[test]
fn sine_sign_agrees_with_the_sine() {
    let mut k = -200;
    while k <= 200 {
        let x = k as f64 * 0.173 + 0.05;
        let expected = if x.sin() > 0.0 { 1 } else { -1 };
        assert_eq!(fx(x).sine_sign(), expected, "x = {}", x);
        k += 1;
    }
}

#[test]
fn pi_is_rounded_to_the_nearest_raw_value() {
    assert_eq!(PI_RAW, (std::f64::consts::PI * 16777216.0).round() as i64);
}
