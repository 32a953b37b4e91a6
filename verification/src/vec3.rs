//! Three-component vectors over [`Fixed`] scalars.
//!
//! Every operation is built from the saturating scalar operations, one
//! rounding per scalar product or quotient, in the order its specification
//! function spells out.

use crate::fixed::clamp;
use crate::fixed::is_isqrt;
use crate::fixed::isqrt;
use crate::fixed::isqrt_wide;
use crate::fixed::lemma_mul_error;
use crate::fixed::lemma_mul_one;
use crate::fixed::lemma_sqrt;
use crate::fixed::lemma_square_nonnegative;
use crate::fixed::Fixed;
use crate::fixed::SCALE;
use vstd::prelude::*;

verus! {

/// A point, a direction or a colour.
#[derive(Clone, Copy, Debug, PartialEq, Eq, Structural)]
pub struct Vec3 {
    pub x: Fixed,
    pub y: Fixed,
    pub z: Fixed,
}

impl Vec3 {
    /// The vector with the given components.
    pub fn new(x: Fixed, y: Fixed, z: Fixed) -> (r: Vec3)
        ensures
            r == (Vec3 { x, y, z }),
    {
        Vec3 { x, y, z }
    }

    /// The vector whose components are the whole numbers `x`, `y`, `z`.
    pub open spec fn spec_from_ints(x: i32, y: i32, z: i32) -> Vec3 {
        Vec3 { x: Fixed::from_int(x), y: Fixed::from_int(y), z: Fixed::from_int(z) }
    }

    /// Builds a vector from whole numbers.
    #[verifier::when_used_as_spec(spec_from_ints)]
    pub fn from_ints(x: i32, y: i32, z: i32) -> (r: Vec3)
        ensures
            r == Vec3::spec_from_ints(x, y, z),
    {
        Vec3 { x: Fixed::from_int(x), y: Fixed::from_int(y), z: Fixed::from_int(z) }
    }

    /// The componentwise sum.
    pub open spec fn spec_add(self, rhs: Vec3) -> Vec3 {
        Vec3 { x: self.x.add(rhs.x), y: self.y.add(rhs.y), z: self.z.add(rhs.z) }
    }

    /// Adds two vectors componentwise.
    #[verifier::when_used_as_spec(spec_add)]
    pub fn add(self, rhs: Vec3) -> (r: Vec3)
        ensures
            r == self.spec_add(rhs),
    {
        Vec3 { x: self.x.add(rhs.x), y: self.y.add(rhs.y), z: self.z.add(rhs.z) }
    }

    /// The componentwise difference.
    pub open spec fn spec_sub(self, rhs: Vec3) -> Vec3 {
        Vec3 { x: self.x.sub(rhs.x), y: self.y.sub(rhs.y), z: self.z.sub(rhs.z) }
    }

    /// Subtracts `rhs` componentwise.
    #[verifier::when_used_as_spec(spec_sub)]
    pub fn sub(self, rhs: Vec3) -> (r: Vec3)
        ensures
            r == self.spec_sub(rhs),
    {
        Vec3 { x: self.x.sub(rhs.x), y: self.y.sub(rhs.y), z: self.z.sub(rhs.z) }
    }

    /// The opposite vector.
    pub open spec fn spec_neg(self) -> Vec3 {
        Vec3 { x: self.x.neg(), y: self.y.neg(), z: self.z.neg() }
    }

    /// Negates every component.
    #[verifier::when_used_as_spec(spec_neg)]
    pub fn neg(self) -> (r: Vec3)
        ensures
            r == self.spec_neg(),
    {
        Vec3 { x: self.x.neg(), y: self.y.neg(), z: self.z.neg() }
    }

    /// The vector stretched by the factor `k`.
    pub open spec fn spec_scale(self, k: Fixed) -> Vec3 {
        Vec3 { x: self.x.mul(k), y: self.y.mul(k), z: self.z.mul(k) }
    }

    /// Multiplies every component by `k`.
    #[verifier::when_used_as_spec(spec_scale)]
    pub fn scale(self, k: Fixed) -> (r: Vec3)
        ensures
            r == self.spec_scale(k),
    {
        Vec3 { x: self.x.mul(k), y: self.y.mul(k), z: self.z.mul(k) }
    }

    /// The vector shrunk by the divisor `k`.
    pub open spec fn spec_div(self, k: Fixed) -> Vec3 {
        Vec3 { x: self.x.div(k), y: self.y.div(k), z: self.z.div(k) }
    }

    /// Divides every component by `k`.
    #[verifier::when_used_as_spec(spec_div)]
    pub fn div(self, k: Fixed) -> (r: Vec3)
        ensures
            r == self.spec_div(k),
    {
        Vec3 { x: self.x.div(k), y: self.y.div(k), z: self.z.div(k) }
    }

    /// The componentwise product.
    pub open spec fn spec_make_comp_mul(self, rhs: &Vec3) -> Vec3 {
        Vec3 { x: self.x.mul(rhs.x), y: self.y.mul(rhs.y), z: self.z.mul(rhs.z) }
    }

    /// Multiplies two vectors component by component.
    #[verifier::when_used_as_spec(spec_make_comp_mul)]
    pub fn make_comp_mul(self, rhs: &Vec3) -> (r: Vec3)
        ensures
            r == self.spec_make_comp_mul(rhs),
    {
        Vec3 { x: self.x.mul(rhs.x), y: self.y.mul(rhs.y), z: self.z.mul(rhs.z) }
    }

    /// The dot product `x*x' + y*y' + z*z'`, summed from left to right.
    pub open spec fn spec_dot(self, rhs: &Vec3) -> Fixed {
        self.x.mul(rhs.x).add(self.y.mul(rhs.y)).add(self.z.mul(rhs.z))
    }

    /// Computes the dot product.
    #[verifier::when_used_as_spec(spec_dot)]
    pub fn dot(self, rhs: &Vec3) -> (r: Fixed)
        ensures
            r == self.spec_dot(rhs),
    {
        self.x.mul(rhs.x).add(self.y.mul(rhs.y)).add(self.z.mul(rhs.z))
    }

    /// The cross product.
    pub open spec fn spec_cross(self, rhs: &Vec3) -> Vec3 {
        Vec3 {
            x: self.y.mul(rhs.z).sub(self.z.mul(rhs.y)),
            y: self.z.mul(rhs.x).sub(self.x.mul(rhs.z)),
            z: self.x.mul(rhs.y).sub(self.y.mul(rhs.x)),
        }
    }

    /// Computes the cross product.
    #[verifier::when_used_as_spec(spec_cross)]
    pub fn cross(self, rhs: &Vec3) -> (r: Vec3)
        ensures
            r == self.spec_cross(rhs),
    {
        Vec3 {
            x: self.y.mul(rhs.z).sub(self.z.mul(rhs.y)),
            y: self.z.mul(rhs.x).sub(self.x.mul(rhs.z)),
            z: self.x.mul(rhs.y).sub(self.y.mul(rhs.x)),
        }
    }

    /// The squared length, the dot product of the vector with itself.
    pub open spec fn spec_squared_mag(self) -> Fixed {
        self.dot(&self)
    }

    /// Computes the squared length.
    #[verifier::when_used_as_spec(spec_squared_mag)]
    pub fn squared_mag(self) -> (r: Fixed)
        ensures
            r == self.spec_squared_mag(),
    {
        self.dot(&self)
    }

    /// The length: the integer square root of the sum of the squares of the
    /// raw components, saturated.  It is taken from the exact squares, so
    /// that short vectors lose no precision.
    pub open spec fn spec_magnitude(self) -> Fixed {
        Fixed { raw: clamp(isqrt(exact_dot(self, self))) as i64 }
    }

    /// Computes the length.
    #[verifier::when_used_as_spec(spec_magnitude)]
    pub fn magnitude(self) -> (r: Fixed)
        ensures
            r == self.spec_magnitude(),
    {
        proof {
            lemma_square_fits(self.x.raw as int);
            lemma_square_fits(self.y.raw as int);
            lemma_square_fits(self.z.raw as int);
        }
        let x: i128 = self.x.raw as i128;
        let y: i128 = self.y.raw as i128;
        let z: i128 = self.z.raw as i128;
        let sum: u128 = (x * x) as u128 + (y * y) as u128 + (z * z) as u128;
        let root: u128 = isqrt_wide(sum);
        if root > i64::MAX as u128 {
            Fixed { raw: i64::MAX }
        } else {
            Fixed { raw: root as i64 }
        }
    }

    /// The vector divided by its length; the zero vector stays zero.
    pub open spec fn spec_make_unit_vector(self) -> Vec3 {
        self.div(self.magnitude())
    }

    /// Scales the vector to unit length.
    #[verifier::when_used_as_spec(spec_make_unit_vector)]
    pub fn make_unit_vector(self) -> (r: Vec3)
        ensures
            r == self.spec_make_unit_vector(),
    {
        self.div(self.magnitude())
    }

    /// The mirror image `v - 2 (v . n) n` of the vector about the normal `n`.
    pub open spec fn spec_reflect(self, n: &Vec3) -> Vec3 {
        self.sub(n.scale(Fixed::from_int(2).mul(self.dot(n))))
    }

    /// Reflects the vector about the normal `n`.
    #[verifier::when_used_as_spec(spec_reflect)]
    pub fn reflect(self, n: &Vec3) -> (r: Vec3)
        ensures
            r == self.spec_reflect(n),
    {
        self.sub(n.scale(Fixed::from_int(2).mul(self.dot(n))))
    }

    /// The quantity `1 - k^2 (1 - (u . n)^2)` that decides refraction, where
    /// `u` is the unit vector along `self` and `k` is `ni_over_nt`.
    pub open spec fn refract_discriminant(self, n: &Vec3, ni_over_nt: Fixed) -> Fixed {
        let dt = self.make_unit_vector().dot(n);
        Fixed::one().sub(ni_over_nt.mul(ni_over_nt).mul(Fixed::one().sub(dt.mul(dt))))
    }

    /// The refracted direction by Snell's law, or `None` on total internal
    /// reflection, that is when the discriminant is not positive.
    pub open spec fn spec_refract(self, n: &Vec3, ni_over_nt: Fixed) -> Option<Vec3> {
        let unit = self.make_unit_vector();
        let dt = unit.dot(n);
        let disc = self.refract_discriminant(n, ni_over_nt);
        if disc.raw > 0 {
            Some(unit.sub(n.scale(dt)).scale(ni_over_nt).sub(n.scale(disc.sqrt())))
        } else {
            None
        }
    }

    /// Refracts the vector through a surface with normal `n`, where
    /// `ni_over_nt` is the ratio of the refractive indices.
    #[verifier::when_used_as_spec(spec_refract)]
    pub fn refract(self, n: &Vec3, ni_over_nt: Fixed) -> (r: Option<Vec3>)
        ensures
            r == self.spec_refract(n, ni_over_nt),
            r is None <==> self.refract_discriminant(n, ni_over_nt).raw <= 0,
    {
        let unit = self.make_unit_vector();
        let dt = unit.dot(n);
        let disc = Fixed::one().sub(
            ni_over_nt.mul(ni_over_nt).mul(Fixed::one().sub(dt.mul(dt))),
        );
        if disc.raw > 0 {
            Some(unit.sub(n.scale(dt)).scale(ni_over_nt).sub(n.scale(disc.sqrt())))
        } else {
            None
        }
    }

    /// The vector of the square roots of the components.
    pub open spec fn spec_gamma_two(self) -> Vec3 {
        Vec3 { x: self.x.sqrt(), y: self.y.sqrt(), z: self.z.sqrt() }
    }

    /// Applies gamma-2 correction: the square root of each channel.
    #[verifier::when_used_as_spec(spec_gamma_two)]
    pub fn gamma_two(self) -> (r: Vec3)
        ensures
            r == self.spec_gamma_two(),
    {
        Vec3 { x: self.x.sqrt(), y: self.y.sqrt(), z: self.z.sqrt() }
    }
}

/// The square of an `i64` value is not negative and fits in 126 bits.
proof fn lemma_square_fits(a: int)
    requires
        i64::MIN <= a <= i64::MAX,
    ensures
        0 <= a * a <= 0x4000_0000_0000_0000_0000_0000_0000_0000,
{
    assert(0 <= a * a <= 0x4000_0000_0000_0000_0000_0000_0000_0000) by (nonlinear_arith)
        requires
            -0x8000_0000_0000_0000 <= a <= 0x8000_0000_0000_0000,
    ;
}

/// A squared length is never negative.
pub proof fn lemma_squared_mag_nonnegative(v: Vec3)
    ensures
        0 <= v.squared_mag().raw,
{
    lemma_square_nonnegative(v.x);
    lemma_square_nonnegative(v.y);
    lemma_square_nonnegative(v.z);
}

/// The dot product of the raw components, without rounding: the exact dot
/// product times `2^48`.
pub open spec fn exact_dot(v: Vec3, w: Vec3) -> int {
    v.x.raw * w.x.raw + v.y.raw * w.y.raw + v.z.raw * w.z.raw
}

/// The mirror image `v - 2 (v . n) n` without rounding, as three integers:
/// the raw components of the exact mirror image times `2^48`.
pub open spec fn exact_reflect(v: Vec3, n: Vec3) -> (int, int, int) {
    let along = exact_dot(v, n);
    (
        SCALE * SCALE * v.x.raw - 2 * n.x.raw * along,
        SCALE * SCALE * v.y.raw - 2 * n.y.raw * along,
        SCALE * SCALE * v.z.raw - 2 * n.z.raw * along,
    )
}

/// Reflection about a unit normal keeps the length.
///
/// The squared length of the exact mirror image of `v` about `n` is that of
/// `v` plus `4 (v . n)^2 (|n|^2 - 1)`: the same for a normal of length one,
/// and within that term for a normal whose length is one up to rounding.
/// All lengths are in units of `2^-48`.
pub proof fn lemma_reflect_keeps_length(v: Vec3, n: Vec3)
    ensures
        ({
            let (x, y, z) = exact_reflect(v, n);
            let unit = SCALE * SCALE;
            x * x + y * y + z * z == unit * unit * exact_dot(v, v) + 4 * exact_dot(v, n)
                * exact_dot(v, n) * (exact_dot(n, n) - unit)
        }),
        exact_dot(n, n) == SCALE * SCALE ==> ({
            let (x, y, z) = exact_reflect(v, n);
            x * x + y * y + z * z == (SCALE * SCALE) * (SCALE * SCALE) * exact_dot(v, v)
        }),
{
    let unit = SCALE * SCALE;
    let along = exact_dot(v, n);
    let (vx, vy, vz) = (v.x.raw as int, v.y.raw as int, v.z.raw as int);
    let (nx, ny, nz) = (n.x.raw as int, n.y.raw as int, n.z.raw as int);
    let (x, y, z) = exact_reflect(v, n);
    lemma_mirrored_square(unit, vx, nx, along);
    lemma_mirrored_square(unit, vy, ny, along);
    lemma_mirrored_square(unit, vz, nz, along);
    let scaled = unit * unit;
    let cross = 4 * unit * along;
    let normal = 4 * along * along;
    let nn = exact_dot(n, n);
    assert(scaled * (vx * vx) + scaled * (vy * vy) + scaled * (vz * vz) == scaled * exact_dot(v, v))
        by (nonlinear_arith)
        requires
            exact_dot(v, v) == vx * vx + vy * vy + vz * vz,
    ;
    assert(cross * (vx * nx) + cross * (vy * ny) + cross * (vz * nz) == cross * along)
        by (nonlinear_arith)
        requires
            along == vx * nx + vy * ny + vz * nz,
    ;
    assert(normal * (nx * nx) + normal * (ny * ny) + normal * (nz * nz) == normal * nn)
        by (nonlinear_arith)
        requires
            nn == nx * nx + ny * ny + nz * nz,
    ;
    assert(normal * nn - cross * along == 4 * along * along * (nn - unit)) by (nonlinear_arith)
        requires
            cross == 4 * unit * along,
            normal == 4 * along * along,
    ;
    if nn == unit {
        assert(4 * along * along * (nn - unit) == 0) by (nonlinear_arith)
            requires
                nn - unit == 0,
        ;
    }
}

/// The square of one component `u a - 2 c d` of an exact mirror image.
proof fn lemma_mirrored_square(u: int, a: int, c: int, d: int)
    ensures
        (u * a - 2 * c * d) * (u * a - 2 * c * d) == (u * u) * (a * a) - (4 * u * d) * (a * c) + (4
            * d * d) * (c * c),
{
    let p = u * a;
    let q = c * d;
    assert(2 * c * d == 2 * q) by (nonlinear_arith)
        requires
            q == c * d,
    ;
    assert((p - 2 * q) * (p - 2 * q) == p * p - 4 * (p * q) + 4 * (q * q)) by (nonlinear_arith);
    assert(p * p == (u * u) * (a * a)) by (nonlinear_arith)
        requires
            p == u * a,
    ;
    assert(4 * (p * q) == (4 * u * d) * (a * c)) by (nonlinear_arith)
        requires
            p == u * a,
            q == c * d,
    ;
    assert(4 * (q * q) == (4 * d * d) * (c * c)) by (nonlinear_arith)
        requires
            q == c * d,
    ;
}

/// Whether every component of `v` has at most the raw magnitude `limit`.
pub open spec fn within(v: Vec3, limit: int) -> bool {
    &&& -limit <= v.x.raw <= limit
    &&& -limit <= v.y.raw <= limit
    &&& -limit <= v.z.raw <= limit
}

/// The magnitude up to which [`lemma_reflect_error`] admits the components
/// of the reflected vector: `2^60` raw, about `6.9e10`.
pub open spec fn reflect_limit() -> int {
    0x1000_0000_0000_0000
}

/// The product of two bounded integers is bounded by the product of the
/// bounds.
pub proof fn lemma_product_within(a: int, b: int, limit_a: int, limit_b: int)
    requires
        -limit_a <= a <= limit_a,
        -limit_b <= b <= limit_b,
    ensures
        -limit_a * limit_b <= a * b <= limit_a * limit_b,
{
    assert(-limit_a * limit_b <= a * b <= limit_a * limit_b) by (nonlinear_arith)
        requires
            -limit_a <= a <= limit_a,
            -limit_b <= b <= limit_b,
    ;
}

/// The dot product of two bounded vectors is not saturated and differs
/// from the exact dot product by less than three units in the last place,
/// one for each rounded product.
///
/// The components of `v` and `w` have at most the magnitudes `limit_v` and
/// `limit_w`, and `bound` is a number that the product of the two limits
/// does not exceed.
pub proof fn lemma_dot_error(v: Vec3, w: Vec3, limit_v: int, limit_w: int, bound: int)
    requires
        within(v, limit_v),
        within(w, limit_w),
        limit_v * limit_w <= bound * SCALE,
        0 <= 3 * bound <= i64::MAX,
    ensures
        -3 * bound <= v.dot(&w).raw <= 3 * bound,
        -3 * SCALE < SCALE * v.dot(&w).raw - exact_dot(v, w) < 3 * SCALE,
{
    lemma_product_within(v.x.raw as int, w.x.raw as int, limit_v, limit_w);
    lemma_product_within(v.y.raw as int, w.y.raw as int, limit_v, limit_w);
    lemma_product_within(v.z.raw as int, w.z.raw as int, limit_v, limit_w);
    assert((-limit_v) * limit_w == -(limit_v * limit_w) && (-bound) * SCALE == -(bound * SCALE))
        by (nonlinear_arith);
    lemma_mul_error(v.x, w.x, bound);
    lemma_mul_error(v.y, w.y, bound);
    lemma_mul_error(v.z, w.z, bound);
}

/// The computed mirror image lies within seven units in the last place of
/// the exact one, in each component, for a normal whose components have at
/// most the magnitude one and a vector whose components have at most the
/// magnitude `2^36`.
pub proof fn lemma_reflect_error(v: Vec3, n: Vec3)
    requires
        within(v, reflect_limit()),
        within(n, SCALE as int),
    ensures
        ({
            let (x, y, z) = exact_reflect(v, n);
            let r = v.reflect(&n);
            let unit = SCALE * SCALE;
            &&& -7 * unit < unit * r.x.raw - x < 7 * unit
            &&& -7 * unit < unit * r.y.raw - y < 7 * unit
            &&& -7 * unit < unit * r.z.raw - z < 7 * unit
        }),
{
    let limit = reflect_limit();
    lemma_dot_error(v, n, limit, SCALE as int, limit);
    let dot = v.dot(&n);
    let two = Fixed::from_int(2);
    assert(two.raw * dot.raw == SCALE * (2 * dot.raw)) by (nonlinear_arith)
        requires
            two.raw == 2 * SCALE,
    ;
    lemma_mul_error(two, dot, 6 * limit);
    let twice = two.mul(dot);
    assert(twice.raw == 2 * dot.raw);
    lemma_reflect_component(v.x, n.x, dot, twice, exact_dot(v, n));
    lemma_reflect_component(v.y, n.y, dot, twice, exact_dot(v, n));
    lemma_reflect_component(v.z, n.z, dot, twice, exact_dot(v, n));
}

/// One component of [`lemma_reflect_error`].
proof fn lemma_reflect_component(a: Fixed, c: Fixed, dot: Fixed, twice: Fixed, along: int)
    requires
        -reflect_limit() <= a.raw <= reflect_limit(),
        -SCALE <= c.raw <= SCALE,
        -3 * reflect_limit() <= dot.raw <= 3 * reflect_limit(),
        twice.raw == 2 * dot.raw,
        -3 * SCALE < SCALE * dot.raw - along < 3 * SCALE,
    ensures
        -7 * (SCALE * SCALE) < (SCALE * SCALE) * a.sub(c.mul(twice)).raw - ((SCALE * SCALE) * a.raw
            - 2 * c.raw * along) < 7 * (SCALE * SCALE),
{
    let limit = reflect_limit();
    lemma_product_within(c.raw as int, twice.raw as int, SCALE as int, 6 * limit);
    assert(SCALE * (6 * limit) == (6 * limit) * SCALE && (-SCALE) * (6 * limit) == (-(6 * limit))
        * SCALE) by (nonlinear_arith);
    lemma_mul_error(c, twice, 6 * limit);
    let g = c.mul(twice).raw as int;
    let r = a.sub(c.mul(twice)).raw as int;
    assert(r == a.raw - g);
    let unit = SCALE * SCALE;
    let slack = SCALE * dot.raw - along;
    let rounding = SCALE * g - c.raw * twice.raw;
    assert(unit * r - (unit * a.raw - 2 * c.raw * along) == -(SCALE * rounding) - 2 * (c.raw
        * slack)) by (nonlinear_arith)
        requires
            r == a.raw - g,
            unit == SCALE * SCALE,
            slack == SCALE * dot.raw - along,
            rounding == SCALE * g - c.raw * twice.raw,
            twice.raw == 2 * dot.raw,
    ;
    lemma_product_within(c.raw as int, slack, SCALE as int, 3 * SCALE);
    assert(SCALE * (3 * SCALE) == 3 * unit) by (nonlinear_arith)
        requires
            unit == SCALE * SCALE,
    ;
    assert(-unit < SCALE * rounding < unit) by (nonlinear_arith)
        requires
            -SCALE < rounding < SCALE,
            unit == SCALE * SCALE,
    ;
}

/// Refraction happens exactly when the discriminant is positive, that is
/// when `k^2 (1 - (u . n)^2)` stays below one.  At one and above, the ray
/// is reflected totally.
pub proof fn lemma_refract_threshold(v: Vec3, n: Vec3, ni_over_nt: Fixed)
    ensures
        ({
            let dt = v.make_unit_vector().dot(&n);
            let bend = ni_over_nt.mul(ni_over_nt).mul(Fixed::one().sub(dt.mul(dt)));
            &&& bend.raw < SCALE ==> v.refract(&n, ni_over_nt) is Some
            &&& bend.raw >= SCALE ==> v.refract(&n, ni_over_nt) is None
        }),
{
}

/// Between two media of equal refractive index a ray is not bent: the
/// refracted direction is the unit incident direction, up to rounding.
///
/// Where the ray meets the surface against the normal at no more than 60
/// degrees from it, so that the cosine `-(u . n)` is at least one half,
/// refraction with the ratio one succeeds, and each component of the
/// result lies within three units in the last place of the unit incident
/// direction `u`.
pub proof fn lemma_refract_index_one(v: Vec3, n: Vec3)
    requires
        within(n, SCALE as int),
        within(v.make_unit_vector(), reflect_limit()),
        -SCALE <= v.make_unit_vector().dot(&n).raw <= -(SCALE / 2),
    ensures
        v.refract(&n, Fixed::one()) matches Some(r) && {
            let u = v.make_unit_vector();
            &&& -3 <= r.x.raw - u.x.raw <= 3
            &&& -3 <= r.y.raw - u.y.raw <= 3
            &&& -3 <= r.z.raw - u.z.raw <= 3
        },
{
    let one = Fixed::one();
    let u = v.make_unit_vector();
    let dt = u.dot(&n);
    assert(0 <= dt.raw * dt.raw <= SCALE * SCALE) by (nonlinear_arith)
        requires
            -SCALE <= dt.raw <= 0,
    ;
    assert(dt.raw * dt.raw >= SCALE * (SCALE / 4)) by (nonlinear_arith)
        requires
            dt.raw <= -(SCALE / 2),
            SCALE == 0x100_0000,
    ;
    lemma_mul_error(dt, dt, SCALE as int);
    let square = dt.mul(dt);
    assert(SCALE / 4 - 1 < square.raw <= SCALE);
    lemma_mul_one(one);
    lemma_mul_one(one.sub(square));
    let disc = v.refract_discriminant(&n, one);
    assert(disc == square);
    lemma_sqrt(square);
    let root = square.sqrt();
    assert(is_isqrt(square.raw * SCALE, root.raw as int));
    let gap = -dt.raw - root.raw;
    assert(0 <= gap <= 2) by (nonlinear_arith)
        requires
            gap == -dt.raw - root.raw,
            0 <= root.raw,
            dt.raw <= -(SCALE / 2),
            SCALE == 0x100_0000,
            root.raw * root.raw <= square.raw * SCALE,
            square.raw * SCALE < (root.raw + 1) * (root.raw + 1),
            -SCALE < SCALE * square.raw - dt.raw * dt.raw < SCALE,
    ;
    let straight = u.sub(n.scale(dt));
    lemma_mul_one(straight.x);
    lemma_mul_one(straight.y);
    lemma_mul_one(straight.z);
    assert(straight.scale(one) == straight);
    lemma_unbent_component(u.x, n.x, dt, root);
    lemma_unbent_component(u.y, n.y, dt, root);
    lemma_unbent_component(u.z, n.z, dt, root);
}

/// One component of [`lemma_refract_index_one`].
proof fn lemma_unbent_component(a: Fixed, c: Fixed, dt: Fixed, root: Fixed)
    requires
        -reflect_limit() <= a.raw <= reflect_limit(),
        -SCALE <= c.raw <= SCALE,
        -SCALE <= dt.raw <= 0,
        0 <= root.raw,
        0 <= -dt.raw - root.raw <= 2,
    ensures
        -3 <= a.sub(c.mul(dt)).sub(c.mul(root)).raw - a.raw <= 3,
{
    lemma_product_within(c.raw as int, dt.raw as int, SCALE as int, SCALE as int);
    lemma_product_within(c.raw as int, root.raw as int, SCALE as int, SCALE as int);
    lemma_mul_error(c, dt, SCALE as int);
    lemma_mul_error(c, root, SCALE as int);
    let first = c.mul(dt).raw as int;
    let second = c.mul(root).raw as int;
    let gap = -dt.raw - root.raw;
    lemma_product_within(c.raw as int, gap, SCALE as int, 2);
    assert(c.raw * dt.raw + c.raw * root.raw == -(c.raw * gap)) by (nonlinear_arith)
        requires
            gap == -dt.raw - root.raw,
    ;
    assert(-4 < first + second < 4) by (nonlinear_arith)
        requires
            -SCALE < SCALE * first - c.raw * dt.raw < SCALE,
            -SCALE < SCALE * second - c.raw * root.raw < SCALE,
            -(SCALE * 2) <= c.raw * dt.raw + c.raw * root.raw <= SCALE * 2,
            SCALE == 0x100_0000,
    ;
}

} // verus!
