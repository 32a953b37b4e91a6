//! Saturating fixed-point scalars.
//!
//! A [`Fixed`] stores a real number `x` as the integer `x * 2^24`, held in an
//! `i64`.  Every operation computes the exact integer result, rounds it
//! toward zero where a division is involved, and saturates it to the range
//! of `i64`.  The operations are therefore total: nothing overflows and
//! nothing panics.

use vstd::arithmetic::div_mod::lemma_div_is_ordered;
use vstd::arithmetic::div_mod::lemma_fundamental_div_mod;
use vstd::arithmetic::div_mod::lemma_mod_pos_bound;
use vstd::prelude::*;

verus! {

/// Number of fractional bits of a [`Fixed`].
pub const FRAC_BITS: u32 = 24;

/// Raw representation of the number one, `2^24`.
pub const SCALE: i64 = 0x100_0000;

/// Raw representation of pi, rounded to the nearest representable number.
pub const PI_RAW: i64 = 52_707_179;

/// The value `v` saturated to the range of `i64`.
pub open spec fn clamp(v: int) -> int {
    if v < i64::MIN {
        i64::MIN as int
    } else if v > i64::MAX {
        i64::MAX as int
    } else {
        v
    }
}

/// The absolute value of `v`.
pub open spec fn absolute(v: int) -> int {
    if v < 0 {
        -v
    } else {
        v
    }
}

/// The quotient of `a` by `b`, rounded toward zero; zero when `b` is zero.
pub open spec fn quot(a: int, b: int) -> int {
    if b == 0 {
        0
    } else if (a < 0) != (b < 0) {
        -(absolute(a) / absolute(b))
    } else {
        absolute(a) / absolute(b)
    }
}

/// Whether `r` is the integer square root of `n`: the largest integer whose
/// square does not exceed `n`.
pub open spec fn is_isqrt(n: int, r: int) -> bool {
    0 <= r && r * r <= n < (r + 1) * (r + 1)
}

/// The integer square root of `n`.
pub open spec fn isqrt(n: int) -> int {
    choose|r: int| is_isqrt(n, r)
}

/// The integer square root is determined by its defining inequality.
pub proof fn lemma_isqrt(n: int, r: int)
    requires
        is_isqrt(n, r),
    ensures
        isqrt(n) == r,
{
    let s = isqrt(n);
    assert(is_isqrt(n, s));
    assert(s == r) by (nonlinear_arith)
        requires
            0 <= r,
            r * r <= n < (r + 1) * (r + 1),
            0 <= s,
            s * s <= n < (s + 1) * (s + 1),
    ;
}

/// A fixed-point number with 24 fractional bits.
#[derive(Clone, Copy, Debug, PartialEq, Eq, Structural)]
pub struct Fixed {
    /// The represented value times `2^24`.
    pub raw: i64,
}

/// Saturates a wide intermediate result.
fn clamp_wide(v: i128) -> (r: i64)
    ensures
        r == clamp(v as int),
{
    if v < i64::MIN as i128 {
        i64::MIN
    } else if v > i64::MAX as i128 {
        i64::MAX
    } else {
        v as i64
    }
}

/// Computes the integer square root by bisection.
pub fn isqrt_wide(n: u128) -> (r: u128)
    ensures
        is_isqrt(n as int, r as int),
        r == isqrt(n as int),
        r < 0x1_0000_0000_0000_0000,
{
    let mut lo: u128 = 0;
    let mut hi: u128 = 0x1_0000_0000_0000_0000;
    assert(lo * lo <= n < hi * hi) by (nonlinear_arith)
        requires
            lo == 0,
            hi == 0x1_0000_0000_0000_0000,
            0 <= n < 0x1_0000_0000_0000_0000_0000_0000_0000_0000,
    ;
    while hi - lo > 1
        invariant
            0 <= lo < hi <= 0x1_0000_0000_0000_0000,
            lo * lo <= n < hi * hi,
        decreases hi - lo,
    {
        let mid: u128 = lo + (hi - lo) / 2;
        assert(0 <= mid * mid < 0x1_0000_0000_0000_0000_0000_0000_0000_0000) by (nonlinear_arith)
            requires
                0 <= mid < 0x1_0000_0000_0000_0000,
        ;
        if mid * mid <= n {
            lo = mid;
        } else {
            hi = mid;
        }
    }
    proof {
        lemma_isqrt(n as int, lo as int);
    }
    lo
}

/// Divides two wide integers, rounding toward zero.
fn quot_wide(a: i128, b: i128) -> (q: i128)
    requires
        b != 0,
        a > i128::MIN,
        b > i128::MIN,
    ensures
        q == quot(a as int, b as int),
{
    let ua: i128 = if a < 0 { -a } else { a };
    let ub: i128 = if b < 0 { -b } else { b };
    let q: i128 = ua / ub;
    if (a < 0) != (b < 0) {
        -q
    } else {
        q
    }
}

impl Fixed {
    /// The sum of two numbers, saturated.
    pub open spec fn spec_add(self, rhs: Fixed) -> Fixed {
        Fixed { raw: clamp(self.raw + rhs.raw) as i64 }
    }

    /// Adds two numbers, saturating at the ends of the range.
    #[verifier::when_used_as_spec(spec_add)]
    pub fn add(self, rhs: Fixed) -> (r: Fixed)
        ensures
            r == self.spec_add(rhs),
    {
        Fixed { raw: clamp_wide(self.raw as i128 + rhs.raw as i128) }
    }

    /// The difference of two numbers, saturated.
    pub open spec fn spec_sub(self, rhs: Fixed) -> Fixed {
        Fixed { raw: clamp(self.raw - rhs.raw) as i64 }
    }

    /// Subtracts `rhs`, saturating at the ends of the range.
    #[verifier::when_used_as_spec(spec_sub)]
    pub fn sub(self, rhs: Fixed) -> (r: Fixed)
        ensures
            r == self.spec_sub(rhs),
    {
        Fixed { raw: clamp_wide(self.raw as i128 - rhs.raw as i128) }
    }

    /// The negation of a number, saturated.
    pub open spec fn spec_neg(self) -> Fixed {
        Fixed { raw: clamp(-self.raw) as i64 }
    }

    /// Negates a number; the most negative number maps to the largest one.
    #[verifier::when_used_as_spec(spec_neg)]
    pub fn neg(self) -> (r: Fixed)
        ensures
            r == self.spec_neg(),
    {
        Fixed { raw: clamp_wide(-(self.raw as i128)) }
    }

    /// The product of two numbers, rounded toward zero and saturated.
    pub open spec fn spec_mul(self, rhs: Fixed) -> Fixed {
        Fixed { raw: clamp(quot(self.raw * rhs.raw, SCALE as int)) as i64 }
    }

    /// Multiplies two numbers, rounding toward zero and saturating.
    #[verifier::when_used_as_spec(spec_mul)]
    pub fn mul(self, rhs: Fixed) -> (r: Fixed)
        ensures
            r == self.spec_mul(rhs),
    {
        proof {
            lemma_product_bound(self.raw as int, rhs.raw as int);
        }
        let wide: i128 = self.raw as i128 * rhs.raw as i128;
        Fixed { raw: clamp_wide(quot_wide(wide, SCALE as i128)) }
    }

    /// The quotient of two numbers, rounded toward zero and saturated.
    /// Division by zero saturates in the direction of the dividend's sign
    /// and gives zero for a zero dividend.
    pub open spec fn spec_div(self, rhs: Fixed) -> Fixed {
        if rhs.raw == 0 {
            if self.raw > 0 {
                Fixed { raw: i64::MAX }
            } else if self.raw < 0 {
                Fixed { raw: i64::MIN }
            } else {
                Fixed { raw: 0 }
            }
        } else {
            Fixed { raw: clamp(quot(self.raw * SCALE, rhs.raw as int)) as i64 }
        }
    }

    /// Divides by `rhs`, rounding toward zero and saturating.
    #[verifier::when_used_as_spec(spec_div)]
    pub fn div(self, rhs: Fixed) -> (r: Fixed)
        ensures
            r == self.spec_div(rhs),
    {
        if rhs.raw == 0 {
            if self.raw > 0 {
                Fixed { raw: i64::MAX }
            } else if self.raw < 0 {
                Fixed { raw: i64::MIN }
            } else {
                Fixed { raw: 0 }
            }
        } else {
            assert(SCALE == 0x100_0000);
            let wide: i128 = self.raw as i128 * 0x100_0000;
            Fixed { raw: clamp_wide(quot_wide(wide, rhs.raw as i128)) }
        }
    }

    /// The square root of a number, rounded down; zero for a negative number.
    pub open spec fn spec_sqrt(self) -> Fixed {
        if self.raw <= 0 {
            Fixed { raw: 0 }
        } else {
            Fixed { raw: isqrt(self.raw * SCALE) as i64 }
        }
    }

    /// Takes the square root, rounding down.  A negative number gives zero.
    #[verifier::when_used_as_spec(spec_sqrt)]
    pub fn sqrt(self) -> (r: Fixed)
        ensures
            r == self.spec_sqrt(),
            self.raw > 0 ==> is_isqrt(self.raw * SCALE, r.raw as int),
    {
        if self.raw <= 0 {
            return Fixed { raw: 0 };
        }
        assert(SCALE == 0x100_0000);
        let n: u128 = self.raw as u128 * 0x100_0000;
        let root: u128 = isqrt_wide(n);
        proof {
            lemma_isqrt(n as int, root as int);
            assert(root < 0x1000_0000_0000) by (nonlinear_arith)
                requires
                    0 <= root,
                    root * root <= n,
                    n < 0x80_0000_0000_0000_0000_0000,
            ;
        }
        Fixed { raw: root as i64 }
    }

    /// The number with the given raw representation.
    pub fn from_raw(raw: i64) -> (r: Fixed)
        ensures
            r.raw == raw,
    {
        Fixed { raw }
    }

    /// The number zero.
    pub open spec fn spec_zero() -> Fixed {
        Fixed { raw: 0 }
    }

    /// The number zero.
    #[verifier::when_used_as_spec(spec_zero)]
    pub fn zero() -> (r: Fixed)
        ensures
            r == Fixed::spec_zero(),
    {
        Fixed { raw: 0 }
    }

    /// The number one.
    pub open spec fn spec_one() -> Fixed {
        Fixed { raw: SCALE }
    }

    /// The number one.
    #[verifier::when_used_as_spec(spec_one)]
    pub fn one() -> (r: Fixed)
        ensures
            r == Fixed::spec_one(),
    {
        Fixed { raw: SCALE }
    }

    /// The largest representable number.
    pub open spec fn spec_max_value() -> Fixed {
        Fixed { raw: i64::MAX }
    }

    /// The largest representable number.
    #[verifier::when_used_as_spec(spec_max_value)]
    pub fn max_value() -> (r: Fixed)
        ensures
            r == Fixed::spec_max_value(),
    {
        Fixed { raw: i64::MAX }
    }

    /// The whole number `n`.
    pub open spec fn spec_from_int(n: i32) -> Fixed {
        Fixed { raw: (n * SCALE) as i64 }
    }

    /// Converts a whole number, exactly.
    #[verifier::when_used_as_spec(spec_from_int)]
    pub fn from_int(n: i32) -> (r: Fixed)
        ensures
            r == Fixed::spec_from_int(n),
            r.raw == n * SCALE,
    {
        assert(SCALE == 0x100_0000);
        let wide: i64 = n as i64 * 0x100_0000;
        Fixed { raw: wide }
    }

    /// The whole number `n`.
    pub open spec fn spec_from_u32(n: u32) -> Fixed {
        Fixed { raw: (n * SCALE) as i64 }
    }

    /// Converts a whole number that is not negative, exactly.
    #[verifier::when_used_as_spec(spec_from_u32)]
    pub fn from_u32(n: u32) -> (r: Fixed)
        ensures
            r == Fixed::spec_from_u32(n),
            r.raw == n * SCALE,
    {
        assert(SCALE == 0x100_0000);
        let wide: i64 = n as i64 * 0x100_0000;
        Fixed { raw: wide }
    }

    /// The integer part of a number, rounded toward zero.
    pub open spec fn spec_trunc(self) -> i64 {
        quot(self.raw as int, SCALE as int) as i64
    }

    /// Drops the fractional part, rounding toward zero.
    #[verifier::when_used_as_spec(spec_trunc)]
    pub fn trunc(self) -> (n: i64)
        ensures
            n == self.spec_trunc(),
            n == quot(self.raw as int, SCALE as int),
    {
        quot_wide(self.raw as i128, SCALE as i128) as i64
    }

    /// The sign of the sine of an angle in radians: `1`, `0` or `-1`.
    ///
    /// The angle is reduced to its place within one period of `2 pi`.  The
    /// sine vanishes at the multiples of `pi`, is positive in the first half
    /// of the period and negative in the second.
    pub open spec fn spec_sine_sign(self) -> i8 {
        let place = self.raw as int % (2 * PI_RAW);
        if place == 0 || place == PI_RAW {
            0i8
        } else if place < PI_RAW {
            1i8
        } else {
            -1i8
        }
    }

    /// Tells whether the sine of the angle is positive, zero or negative.
    #[verifier::when_used_as_spec(spec_sine_sign)]
    pub fn sine_sign(self) -> (sign: i8)
        ensures
            sign == self.spec_sine_sign(),
    {
        assert(PI_RAW == 52_707_179);
        let period: i128 = 105_414_358;
        let place: i128 = if self.raw >= 0 {
            self.raw as i128 % period
        } else {
            let back: i128 = (-(self.raw as i128)) % period;
            if back == 0 {
                0
            } else {
                period - back
            }
        };
        if place == 0 || place == 52_707_179 {
            0
        } else if place < 52_707_179 {
            1
        } else {
            -1
        }
    }
}

/// The product of two `i64` values fits comfortably in an `i128`.
proof fn lemma_product_bound(a: int, b: int)
    requires
        i64::MIN <= a <= i64::MAX,
        i64::MIN <= b <= i64::MAX,
    ensures
        -0x4000_0000_0000_0000_0000_0000_0000_0000 <= a * b
            <= 0x4000_0000_0000_0000_0000_0000_0000_0000,
{
    assert(-0x4000_0000_0000_0000_0000_0000_0000_0000 <= a * b
        <= 0x4000_0000_0000_0000_0000_0000_0000_0000) by (nonlinear_arith)
        requires
            -0x8000_0000_0000_0000 <= a <= 0x8000_0000_0000_0000,
            -0x8000_0000_0000_0000 <= b <= 0x8000_0000_0000_0000,
    ;
}

/// Every natural number has an integer square root.
pub proof fn lemma_isqrt_exists(n: int)
    requires
        0 <= n,
    ensures
        is_isqrt(n, isqrt(n)),
    decreases n,
{
    if n == 0 {
        assert(is_isqrt(0, 0));
    } else {
        lemma_isqrt_exists(n - 1);
        let r = isqrt(n - 1);
        if (r + 1) * (r + 1) <= n {
            assert(is_isqrt(n, r + 1)) by (nonlinear_arith)
                requires
                    0 <= r,
                    r * r <= n - 1 < (r + 1) * (r + 1),
                    (r + 1) * (r + 1) <= n,
            ;
        } else {
            assert(is_isqrt(n, r));
        }
    }
}

/// The square root is never negative, and for a positive number it is the
/// integer square root of the number's raw value times `2^24`.
pub proof fn lemma_sqrt(x: Fixed)
    ensures
        0 <= x.sqrt().raw < 0x1000_0000_0000,
        x.raw > 0 ==> is_isqrt(x.raw * SCALE, x.sqrt().raw as int),
        x.raw <= 0 ==> x.sqrt().raw == 0,
{
    if x.raw > 0 {
        let n = x.raw * SCALE;
        lemma_isqrt_exists(n);
        let r = isqrt(n);
        assert(r < 0x1000_0000_0000) by (nonlinear_arith)
            requires
                0 <= r,
                r * r <= n,
                n < 0x80_0000_0000_0000_0000_0000,
        ;
    }
}

/// Rounding toward zero keeps the order of the dividends.
pub proof fn lemma_quot_monotonic(x: int, y: int, d: int)
    requires
        x <= y,
        0 < d,
    ensures
        quot(x, d) <= quot(y, d),
{
    if x >= 0 {
        lemma_div_is_ordered(x, y, d);
    } else if y >= 0 {
        lemma_div_is_ordered(0, -x, d);
        lemma_div_is_ordered(0, y, d);
    } else {
        lemma_div_is_ordered(-y, -x, d);
    }
}

/// Division by a number that is not negative keeps the order of the
/// dividends.
pub proof fn lemma_div_monotonic(x: Fixed, y: Fixed, d: Fixed)
    requires
        x.raw <= y.raw,
        0 <= d.raw,
    ensures
        x.div(d).raw <= y.div(d).raw,
{
    if d.raw > 0 {
        lemma_quot_monotonic(x.raw * SCALE, y.raw * SCALE, d.raw as int);
    }
}

/// A square is never negative.
pub proof fn lemma_square_nonnegative(x: Fixed)
    ensures
        0 <= x.mul(x).raw,
{
    assert(0 <= x.raw * x.raw) by (nonlinear_arith);
    lemma_div_is_ordered(0, x.raw * x.raw, SCALE as int);
}

/// Rounding toward zero moves a quotient by less than one: the quotient
/// times the divisor differs from the dividend by less than the divisor.
pub proof fn lemma_quot_error(x: int, d: int)
    requires
        0 < d,
    ensures
        -d < x - d * quot(x, d) < d,
        x >= 0 ==> 0 <= x - d * quot(x, d),
        x <= 0 ==> x - d * quot(x, d) <= 0,
{
    if x >= 0 {
        lemma_fundamental_div_mod(x, d);
        lemma_mod_pos_bound(x, d);
    } else {
        lemma_fundamental_div_mod(-x, d);
        lemma_mod_pos_bound(-x, d);
        assert(d * (-((-x) / d)) == -(d * ((-x) / d))) by (nonlinear_arith);
    }
}

/// A product whose exact value has at most the magnitude `bound` is not
/// saturated, and differs from the exact value by less than one unit in the
/// last place.
pub proof fn lemma_mul_error(a: Fixed, b: Fixed, bound: int)
    requires
        0 <= bound <= i64::MAX,
        -bound * SCALE <= a.raw * b.raw <= bound * SCALE,
    ensures
        -bound <= a.mul(b).raw <= bound,
        a.mul(b).raw == quot(a.raw * b.raw, SCALE as int),
        -SCALE < SCALE * a.mul(b).raw - a.raw * b.raw < SCALE,
{
    lemma_quot_error(a.raw * b.raw, SCALE as int);
}

/// Multiplying by one changes nothing.
pub proof fn lemma_mul_one(x: Fixed)
    ensures
        Fixed::one().mul(x) == x,
        x.mul(Fixed::one()) == x,
{
    assert(SCALE * x.raw == x.raw * SCALE) by (nonlinear_arith);
    lemma_quot_error(SCALE * x.raw, SCALE as int);
}

/// Dividing by one changes nothing.
pub proof fn lemma_div_one(x: Fixed)
    ensures
        x.div(Fixed::one()) == x,
{
    lemma_quot_error(x.raw * SCALE, SCALE as int);
}

} // verus!
