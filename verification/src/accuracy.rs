//! How far rounding moves what the intersection with a sphere computes
//! from the exact values.
//!
//! In exact arithmetic the two roots of the intersection equation lie
//! symmetric about the point of the ray nearest to the centre, each root
//! solves the equation, the hit point lies on the sphere, and so the normal
//! `(point - center) / radius` has the length one.  Here the coefficients
//! of the equation, its roots, the point and the quotient are each rounded.
//! This module adds the roundings up.

use crate::fixed::absolute;
use crate::fixed::is_isqrt;
use crate::fixed::lemma_mul_error;
use crate::fixed::lemma_quot_error;
use crate::fixed::lemma_sqrt;
use crate::fixed::quot;
use crate::fixed::Fixed;
use crate::fixed::SCALE;
use crate::hittable::Sphere;
use crate::ray::Ray;
use crate::vec3::exact_dot;
use crate::vec3::lemma_dot_error;
use crate::vec3::lemma_product_within;
use crate::vec3::within;
use crate::vec3::Vec3;
use vstd::prelude::*;

verus! {

/// The ray parameter of the point of the ray that is nearest to the
/// sphere's centre, the foot of the perpendicular from the centre: `-b / a`.
pub open spec fn centre_parameter(sphere: &Sphere, ray: &Ray) -> Fixed {
    sphere.quadratic_b(ray).neg().div(sphere.quadratic_a(ray))
}

/// Whether `x` lies strictly between the ends of the range, so that it is
/// the exact result of the operation that gave it and not a saturated one.
pub open spec fn unsaturated(x: Fixed) -> bool {
    i64::MIN < x.raw < i64::MAX
}

/// The two roots of a sphere's intersection equation lie symmetric about
/// the parameter of the point nearest to the centre; for a ray through the
/// centre that point is the centre itself.
///
/// Each of the three parameters is a quotient rounded toward zero, so the
/// sum of the roots differs from twice the middle by at most three units in
/// the last place.  This holds wherever the direction is not zero and none
/// of the numbers involved is saturated.
pub proof fn lemma_roots_symmetric(sphere: &Sphere, ray: &Ray)
    requires
        sphere.quadratic_a(ray).raw > 0,
        unsaturated(sphere.quadratic_b(ray).neg().sub(sphere.discriminant(ray).sqrt())),
        unsaturated(sphere.quadratic_b(ray).neg().add(sphere.discriminant(ray).sqrt())),
        unsaturated(sphere.near_root(ray)),
        unsaturated(sphere.far_root(ray)),
        unsaturated(centre_parameter(sphere, ray)),
    ensures
        -3 <= sphere.near_root(ray).raw + sphere.far_root(ray).raw - 2 * centre_parameter(
            sphere,
            ray,
        ).raw <= 3,
{
    let a = sphere.quadratic_a(ray).raw as int;
    let b = sphere.quadratic_b(ray);
    let root = sphere.discriminant(ray).sqrt();
    lemma_sqrt(sphere.discriminant(ray));
    let low = b.neg().sub(root).raw as int;
    let high = b.neg().add(root).raw as int;
    let mid = b.neg().raw as int;
    assert(low + high == 2 * mid);
    lemma_quot_error(low * SCALE, a);
    lemma_quot_error(high * SCALE, a);
    lemma_quot_error(mid * SCALE, a);
    let q_low = quot(low * SCALE, a);
    let q_high = quot(high * SCALE, a);
    let q_mid = quot(mid * SCALE, a);
    assert(-4 < q_low + q_high - 2 * q_mid < 4) by (nonlinear_arith)
        requires
            0 < a,
            -a < low * SCALE - a * q_low < a,
            -a < high * SCALE - a * q_high < a,
            -a < mid * SCALE - a * q_mid < a,
            low + high == 2 * mid,
    ;
}

/// The left side `a t^2 + 2 b t + c` of the intersection equation at the
/// ray parameter `t`, computed without rounding from the raw coefficients:
/// the exact value times `2^72`.
pub open spec fn exact_residual(a: Fixed, b: Fixed, c: Fixed, t: Fixed) -> int {
    a.raw * t.raw * t.raw + 2 * b.raw * SCALE * t.raw + c.raw * SCALE * SCALE
}

/// How far the left side of the intersection equation may be from zero at
/// a computed root, times `a`: the rounding of the discriminant, of its
/// square root `s` and of the final division all enter.
pub open spec fn residual_bound(a: Fixed, s: Fixed) -> int {
    SCALE * SCALE * (2 * s.raw + 2 * SCALE + 1) + a.raw * (2 * SCALE * s.raw + a.raw)
}

/// The roots that are computed solve the intersection equation up to
/// rounding.
///
/// Where the discriminant is positive, the direction is not zero and
/// nothing is saturated, the left side `a t^2 + 2 b t + c` at each of the
/// two roots, times `a`, is less than the bound of [`residual_bound`] away
/// from zero.  In the units of the coefficients that distance is about
/// `2 s + (2 s + 2) / a` units in the last place, for a root `s` of the
/// discriminant: one unit in the last place of the root moves the left side
/// by the slope `2 s`.
pub proof fn lemma_roots_solve_equation(sphere: &Sphere, ray: &Ray)
    requires
        sphere.quadratic_a(ray).raw > 0,
        sphere.discriminant(ray).raw > 0,
        unsaturated(sphere.quadratic_b(ray).mul(sphere.quadratic_b(ray))),
        unsaturated(sphere.quadratic_a(ray).mul(sphere.quadratic_c(ray))),
        unsaturated(sphere.discriminant(ray)),
        unsaturated(sphere.quadratic_b(ray).neg().sub(sphere.discriminant(ray).sqrt())),
        unsaturated(sphere.quadratic_b(ray).neg().add(sphere.discriminant(ray).sqrt())),
        unsaturated(sphere.near_root(ray)),
        unsaturated(sphere.far_root(ray)),
    ensures
        ({
            let a = sphere.quadratic_a(ray);
            let b = sphere.quadratic_b(ray);
            let c = sphere.quadratic_c(ray);
            let s = sphere.discriminant(ray).sqrt();
            let near = a.raw * exact_residual(a, b, c, sphere.near_root(ray));
            let far = a.raw * exact_residual(a, b, c, sphere.far_root(ray));
            &&& -residual_bound(a, s) < near < residual_bound(a, s)
            &&& -residual_bound(a, s) < far < residual_bound(a, s)
        }),
{
    let a = sphere.quadratic_a(ray);
    let b = sphere.quadratic_b(ray);
    let c = sphere.quadratic_c(ray);
    let disc = sphere.discriminant(ray);
    let s = disc.sqrt();
    lemma_sqrt(disc);
    assert(is_isqrt(disc.raw * SCALE, s.raw as int));
    lemma_quot_error(b.raw * b.raw, SCALE as int);
    lemma_quot_error(a.raw * c.raw, SCALE as int);
    let bb = b.mul(b).raw as int;
    let ac = a.mul(c).raw as int;
    assert(bb == quot(b.raw * b.raw, SCALE as int));
    assert(ac == quot(a.raw * c.raw, SCALE as int));
    assert(disc.raw == bb - ac);
    let drift = s.raw * s.raw - (b.raw * b.raw - a.raw * c.raw);
    assert(-(2 * s.raw + 2 * SCALE + 1) < drift < 2 * s.raw + 2 * SCALE + 1) by (nonlinear_arith)
        requires
            drift == s.raw * s.raw - (b.raw * b.raw - a.raw * c.raw),
            0 <= s.raw,
            s.raw * s.raw <= disc.raw * SCALE < (s.raw + 1) * (s.raw + 1),
            disc.raw == bb - ac,
            -SCALE < b.raw * b.raw - SCALE * bb < SCALE,
            -SCALE < a.raw * c.raw - SCALE * ac < SCALE,
    ;
    lemma_root_residual(a, b, c, s, -s.raw, sphere.near_root(ray), drift);
    lemma_root_residual(a, b, c, s, s.raw as int, sphere.far_root(ray), drift);
}

/// The residual at one root, where `signed` is the root of the
/// discriminant with the sign of the root's branch.
proof fn lemma_root_residual(
    a: Fixed,
    b: Fixed,
    c: Fixed,
    s: Fixed,
    signed: int,
    t: Fixed,
    drift: int,
)
    requires
        a.raw > 0,
        0 <= s.raw,
        signed == s.raw || signed == -s.raw,
        t.raw == quot((-b.raw + signed) * SCALE, a.raw as int),
        drift == s.raw * s.raw - (b.raw * b.raw - a.raw * c.raw),
        -(2 * s.raw + 2 * SCALE + 1) < drift < 2 * s.raw + 2 * SCALE + 1,
    ensures
        -residual_bound(a, s) < a.raw * exact_residual(a, b, c, t) < residual_bound(a, s),
{
    let unit = SCALE as int;
    let n = -b.raw + signed;
    lemma_quot_error(n * unit, a.raw as int);
    let x = a.raw * t.raw;
    let e = x - n * unit;
    assert(-a.raw < e < a.raw);
    // a (a t^2 + 2 b S t + c S^2) = x^2 + 2 b S x + a c S^2
    assert(a.raw * exact_residual(a, b, c, t) == x * x + 2 * b.raw * unit * x + a.raw * c.raw
        * unit * unit) by (nonlinear_arith)
        requires
            x == a.raw * t.raw,
            unit == SCALE,
            exact_residual(a, b, c, t) == a.raw * t.raw * t.raw + 2 * b.raw * SCALE * t.raw + c.raw
                * SCALE * SCALE,
    ;
    // with x = n S + e
    let p = n * unit;
    let k = 2 * b.raw * unit;
    assert(x * x + k * x == (p * p + k * p) + e * (2 * p + k + e)) by (nonlinear_arith)
        requires
            x == p + e,
    ;
    assert(p * p == unit * unit * (n * n)) by (nonlinear_arith)
        requires
            p == n * unit,
    ;
    assert(k * p == unit * unit * (2 * b.raw * n)) by (nonlinear_arith)
        requires
            p == n * unit,
            k == 2 * b.raw * unit,
    ;
    assert(unit * unit * (n * n) + unit * unit * (2 * b.raw * n) == unit * unit * (n * n + 2
        * b.raw * n)) by (nonlinear_arith);
    assert(2 * p + k == 2 * unit * (n + b.raw)) by (nonlinear_arith)
        requires
            p == n * unit,
            k == 2 * b.raw * unit,
    ;
    assert(2 * b.raw * unit * x == k * x) by (nonlinear_arith)
        requires
            k == 2 * b.raw * unit,
    ;
    assert(x * x + 2 * b.raw * unit * x == unit * unit * (n * n + 2 * b.raw * n) + e * (2 * unit
        * (n + b.raw) + e));
    assert(n * n + 2 * b.raw * n == signed * signed - b.raw * b.raw) by (nonlinear_arith)
        requires
            n == -b.raw + signed,
    ;
    assert(signed * signed == s.raw * s.raw) by (nonlinear_arith)
        requires
            signed == s.raw || signed == -s.raw,
    ;
    let main = unit * unit * drift;
    assert(unit * unit * (n * n + 2 * b.raw * n) + a.raw * c.raw * unit * unit == main)
        by (nonlinear_arith)
        requires
            n * n + 2 * b.raw * n == s.raw * s.raw - b.raw * b.raw,
            drift == s.raw * s.raw - (b.raw * b.raw - a.raw * c.raw),
            main == unit * unit * drift,
    ;
    let tail = e * (2 * unit * signed + e);
    assert(n + b.raw == signed);
    assert(a.raw * exact_residual(a, b, c, t) == main + tail);
    assert(-(unit * unit * (2 * s.raw + 2 * unit + 1)) < main < unit * unit * (2 * s.raw + 2 * unit
        + 1)) by (nonlinear_arith)
        requires
            main == unit * unit * drift,
            -(2 * s.raw + 2 * unit + 1) < drift < 2 * s.raw + 2 * unit + 1,
            unit > 0,
    ;
    assert(-(a.raw * (2 * unit * s.raw + a.raw)) < tail < a.raw * (2 * unit * s.raw + a.raw))
        by (nonlinear_arith)
        requires
            tail == e * (2 * unit * signed + e),
            -a.raw < e < a.raw,
            signed == s.raw || signed == -s.raw,
            0 <= s.raw,
            unit > 0,
            a.raw > 0,
    ;
}

/// The magnitude up to which [`lemma_normal_length`] admits coordinates:
/// `2^40` raw, that is `65536`.
pub open spec fn coordinate_limit() -> int {
    0x100_0000_0000
}

/// The sum of the magnitudes of the raw components of `v`.
pub open spec fn taxicab(v: Vec3) -> int {
    absolute(v.x.raw as int) + absolute(v.y.raw as int) + absolute(v.z.raw as int)
}

/// How far the squared length of `normal` is from one, times the square of
/// the radius: `radius^2 (|normal|^2 - 1)` in units of `2^-96`.
pub open spec fn normal_excess(radius: Fixed, normal: Vec3) -> int {
    radius.raw * radius.raw * (exact_dot(normal, normal) - SCALE * SCALE)
}

/// The part of the error that comes from the rounding of the three
/// coefficients of the intersection equation, at the root `t`.
pub open spec fn coefficient_error(t: Fixed) -> int {
    3 * SCALE * (t.raw * t.raw) + 6 * (SCALE * SCALE) * absolute(t.raw as int) + 4 * (SCALE * SCALE
        * SCALE)
}

/// The part of the error that comes from the rounding of the point
/// `origin + t direction`, where `oc` is `origin - center`.
pub open spec fn point_error(oc: Vec3, direction: Vec3, t: Fixed) -> int {
    SCALE * (2 * (SCALE * taxicab(oc) + absolute(t.raw as int) * taxicab(direction)) + 3 * SCALE)
}

/// The part of the error that comes from the rounding of the division by
/// the radius, where `q` is `point - center`.
pub open spec fn division_error(q: Vec3, radius: Fixed) -> int {
    absolute(radius.raw as int) * (2 * SCALE * taxicab(q) + 3 * absolute(radius.raw as int))
}

/// Whether the sphere, the ray and the root `t` are such that nothing is
/// saturated on the way to the normal: the coordinates, the radius and the
/// root are within [`coordinate_limit`], the direction is not zero, the
/// discriminant is positive, and the intermediate results that may grow
/// large fit the range.
pub open spec fn in_range(sphere: &Sphere, ray: &Ray, t: Fixed) -> bool {
    let b = sphere.quadratic_b(ray);
    let root = sphere.discriminant(ray).sqrt();
    let normal = sphere.record_at(ray, t).normal;
    &&& within(ray.origin, coordinate_limit())
    &&& within(sphere.center, coordinate_limit())
    &&& within(ray.direction, coordinate_limit())
    &&& -coordinate_limit() <= t.raw <= coordinate_limit()
    &&& -coordinate_limit() <= sphere.radius.raw <= coordinate_limit()
    &&& sphere.radius.raw != 0
    &&& sphere.quadratic_a(ray).raw > 0
    &&& sphere.discriminant(ray).raw > 0
    &&& unsaturated(b.mul(b))
    &&& unsaturated(sphere.quadratic_a(ray).mul(sphere.quadratic_c(ray)))
    &&& unsaturated(sphere.discriminant(ray))
    &&& unsaturated(b.neg().sub(root))
    &&& unsaturated(b.neg().add(root))
    &&& unsaturated(sphere.near_root(ray))
    &&& unsaturated(sphere.far_root(ray))
    &&& unsaturated(normal.x)
    &&& unsaturated(normal.y)
    &&& unsaturated(normal.z)
}

/// The square of a perturbed number: `(x + e)^2 = x^2 + e (2 x + e)`, and
/// the second term is bounded by the bounds of `x` and `e`.
proof fn lemma_perturbed_square(x: int, e: int, limit_x: int, limit_e: int)
    requires
        -limit_x <= x <= limit_x,
        -limit_e <= e <= limit_e,
    ensures
        (x + e) * (x + e) == x * x + e * (2 * x + e),
        -(limit_e * (2 * limit_x + limit_e)) <= e * (2 * x + e) <= limit_e * (2 * limit_x + limit_e),
{
    assert((x + e) * (x + e) == x * x + e * (2 * x + e)) by (nonlinear_arith);
    assert(-(limit_e * (2 * limit_x + limit_e)) <= e * (2 * x + e) <= limit_e * (2 * limit_x
        + limit_e)) by (nonlinear_arith)
        requires
            -limit_x <= x <= limit_x,
            -limit_e <= e <= limit_e,
    ;
}

/// Rounding toward zero moves a quotient by less than one, whatever the
/// sign of the divisor.
proof fn lemma_signed_quot_error(x: int, d: int)
    requires
        d != 0,
    ensures
        -absolute(d) < quot(x, d) * d - x < absolute(d),
{
    if d > 0 {
        lemma_quot_error(x, d);
        assert(quot(x, d) * d == d * quot(x, d)) by (nonlinear_arith);
    } else {
        lemma_quot_error(x, -d);
        assert(quot(x, d) == -quot(x, -d));
        assert(quot(x, d) * d == (-d) * quot(x, -d)) by (nonlinear_arith)
            requires
                quot(x, d) == -quot(x, -d),
        ;
    }
}

/// One component of the normal, squared and multiplied by the squared
/// radius, against the exact square of the same component of
/// `origin - center + t direction`.
///
/// `p` is the component of `origin - center`, `d` that of the direction,
/// `m` the rounded product of `d` and `t`, and `n` the component of the
/// normal.
proof fn lemma_component(p: int, d: int, t: int, m: int, r: int, n: int)
    requires
        -SCALE < SCALE * m - d * t < SCALE,
        -absolute(r) < n * r - (p + m) * SCALE < absolute(r),
    ensures
        ({
            let unit = SCALE as int;
            let exact = unit * unit * (p * p) + 2 * unit * t * (p * d) + t * t * (d * d);
            let slack = unit * (2 * (unit * absolute(p) + absolute(t) * absolute(d)) + unit)
                + absolute(r) * (2 * unit * absolute(p + m) + absolute(r));
            -slack <= r * r * (n * n) - exact <= slack
        }),
{
    let unit = SCALE as int;
    let q = p + m;
    let u = n * r - q * unit;
    let eps = unit * m - d * t;
    let x = unit * p + d * t;
    // (n r)^2 = (q S)^2 + u (2 q S + u)
    lemma_product_within(q, unit, absolute(q), unit);
    lemma_perturbed_square(q * unit, u, absolute(q) * unit, absolute(r));
    assert(n * r == q * unit + u);
    assert(r * r * (n * n) == (n * r) * (n * r)) by (nonlinear_arith);
    // q S = x + eps
    assert(q * unit == x + eps) by (nonlinear_arith)
        requires
            q == p + m,
            eps == unit * m - d * t,
            x == unit * p + d * t,
    ;
    lemma_product_within(unit, p, unit, absolute(p));
    lemma_product_within(d, t, absolute(d), absolute(t));
    let limit_x = unit * absolute(p) + absolute(t) * absolute(d);
    assert(absolute(d) * absolute(t) == absolute(t) * absolute(d) && (-unit) * absolute(p) == -(
    unit * absolute(p)) && (-absolute(d)) * absolute(t) == -(absolute(d) * absolute(t)))
        by (nonlinear_arith);
    lemma_perturbed_square(x, eps, limit_x, unit);
    // x^2 = S^2 p^2 + 2 S t (p d) + t^2 d^2
    let first = unit * p;
    let second = d * t;
    assert(x * x == first * first + 2 * (first * second) + second * second) by (nonlinear_arith)
        requires
            x == first + second,
    ;
    assert(first * first == unit * unit * (p * p)) by (nonlinear_arith)
        requires
            first == unit * p,
    ;
    assert(2 * (first * second) == 2 * unit * t * (p * d)) by (nonlinear_arith)
        requires
            first == unit * p,
            second == d * t,
    ;
    assert(second * second == t * t * (d * d)) by (nonlinear_arith)
        requires
            second == d * t,
    ;
    assert(absolute(r) * (2 * (absolute(q) * unit) + absolute(r)) == absolute(r) * (2 * unit
        * absolute(q) + absolute(r))) by (nonlinear_arith);
}

/// The normal of a hit has unit length up to rounding.
///
/// For the normal `n` of a hit at a root `t` of a sphere of radius `r`,
/// where nothing is saturated on the way, the number `r^2 (|n|^2 - 1)`,
/// times the coefficient `a`, is within the sum of four bounds: that of
/// the root as a solution of the intersection equation, and those of the
/// roundings of the coefficients, of the point and of the division by the
/// radius.
pub proof fn lemma_normal_length(sphere: &Sphere, ray: &Ray, t: Fixed)
    requires
        in_range(sphere, ray, t),
        t == sphere.near_root(ray) || t == sphere.far_root(ray),
    ensures
        ({
            let hit = sphere.record_at(ray, t);
            let a = sphere.quadratic_a(ray);
            let s = sphere.discriminant(ray).sqrt();
            let oc = ray.origin.sub(sphere.center);
            let q = hit.point.sub(sphere.center);
            let bound = SCALE * residual_bound(a, s) + a.raw * (coefficient_error(t) + point_error(
                oc,
                ray.direction,
                t,
            ) + division_error(q, sphere.radius));
            -bound < a.raw * normal_excess(sphere.radius, hit.normal) < bound
        }),
{
    let unit = SCALE as int;
    let limit = coordinate_limit();
    let a = sphere.quadratic_a(ray);
    let b = sphere.quadratic_b(ray);
    let c = sphere.quadratic_c(ray);
    let s = sphere.discriminant(ray).sqrt();
    let o = ray.origin;
    let d = ray.direction;
    let r = sphere.radius;
    let oc = o.sub(sphere.center);
    let hit = sphere.record_at(ray, t);
    let q = hit.point.sub(sphere.center);
    let n = hit.normal;

    // the coefficients against the exact dot products
    assert(within(oc, 2 * limit));
    assert(limit * limit == 0x100_0000_0000_0000 * SCALE && limit * (2 * limit)
        == 0x200_0000_0000_0000 * SCALE && (2 * limit) * limit == 0x200_0000_0000_0000 * SCALE && (2
        * limit) * (2 * limit) == 0x400_0000_0000_0000 * SCALE) by (nonlinear_arith)
        requires
            limit == 0x100_0000_0000,
            SCALE == 0x100_0000,
    ;
    lemma_dot_error(d, d, limit, limit, 0x100_0000_0000_0000);
    lemma_dot_error(oc, d, 2 * limit, limit, 0x200_0000_0000_0000);
    lemma_dot_error(oc, oc, 2 * limit, 2 * limit, 0x400_0000_0000_0000);
    lemma_product_within(r.raw as int, r.raw as int, limit, limit);
    assert((-limit) * limit == -(limit * limit)) by (nonlinear_arith);
    lemma_mul_error(r, r, 0x100_0000_0000_0000);
    let dd = exact_dot(d, d);
    let od = exact_dot(oc, d);
    let oo = exact_dot(oc, oc);
    let rr = r.raw * r.raw;
    assert(-3 * unit < unit * a.raw - dd < 3 * unit);
    assert(-3 * unit < unit * b.raw - od < 3 * unit);
    assert(c.raw == oc.dot(&oc).raw - r.mul(r).raw);
    assert(-4 * unit < unit * c.raw - (oo - rr) < 4 * unit);

    // the point and the normal, component by component
    lemma_product_within(d.x.raw as int, t.raw as int, limit, limit);
    lemma_product_within(d.y.raw as int, t.raw as int, limit, limit);
    lemma_product_within(d.z.raw as int, t.raw as int, limit, limit);
    lemma_mul_error(d.x, t, 0x100_0000_0000_0000);
    lemma_mul_error(d.y, t, 0x100_0000_0000_0000);
    lemma_mul_error(d.z, t, 0x100_0000_0000_0000);
    let m = d.scale(t);
    assert(q.x.raw == oc.x.raw + m.x.raw);
    assert(q.y.raw == oc.y.raw + m.y.raw);
    assert(q.z.raw == oc.z.raw + m.z.raw);
    lemma_signed_quot_error(q.x.raw * unit, r.raw as int);
    lemma_signed_quot_error(q.y.raw * unit, r.raw as int);
    lemma_signed_quot_error(q.z.raw * unit, r.raw as int);
    assert(n.x.raw == quot(q.x.raw * unit, r.raw as int));
    assert(n.y.raw == quot(q.y.raw * unit, r.raw as int));
    assert(n.z.raw == quot(q.z.raw * unit, r.raw as int));
    lemma_component(
        oc.x.raw as int,
        d.x.raw as int,
        t.raw as int,
        m.x.raw as int,
        r.raw as int,
        n.x.raw as int,
    );
    lemma_component(
        oc.y.raw as int,
        d.y.raw as int,
        t.raw as int,
        m.y.raw as int,
        r.raw as int,
        n.y.raw as int,
    );
    lemma_component(
        oc.z.raw as int,
        d.z.raw as int,
        t.raw as int,
        m.z.raw as int,
        r.raw as int,
        n.z.raw as int,
    );

    // the sum of the three components
    let tt = t.raw * t.raw;
    let exact = unit * unit * oo + 2 * unit * t.raw * od + tt * dd;
    let squares = rr * exact_dot(n, n);
    let slack = point_error(oc, d, t) + division_error(q, r);
    lemma_sum_of_components(oc, d, t, q, n, r);
    assert(-slack <= squares - exact <= slack);

    // the exact point against the intersection equation
    let residual = exact_residual(a, b, c, t);
    let drift = exact - unit * unit * rr - unit * residual;
    assert(drift == tt * (dd - unit * a.raw) + 2 * unit * t.raw * (od - unit * b.raw) + unit * unit
        * ((oo - rr) - unit * c.raw)) by (nonlinear_arith)
        requires
            drift == exact - unit * unit * rr - unit * residual,
            exact == unit * unit * oo + 2 * unit * t.raw * od + tt * dd,
            residual == a.raw * t.raw * t.raw + 2 * b.raw * unit * t.raw + c.raw * unit * unit,
            tt == t.raw * t.raw,
    ;
    assert(0 <= tt) by (nonlinear_arith)
        requires
            tt == t.raw * t.raw,
    ;
    lemma_product_within(tt, dd - unit * a.raw, tt, 3 * unit);
    lemma_product_within(t.raw as int, od - unit * b.raw, absolute(t.raw as int), 3 * unit);
    let middle = 2 * unit * t.raw * (od - unit * b.raw);
    assert(-(6 * (unit * unit) * absolute(t.raw as int)) <= middle <= 6 * (unit * unit) * absolute(
        t.raw as int,
    )) by (nonlinear_arith)
        requires
            middle == 2 * unit * t.raw * (od - unit * b.raw),
            -(absolute(t.raw as int) * (3 * unit)) <= t.raw * (od - unit * b.raw) <= absolute(
                t.raw as int,
            ) * (3 * unit),
            unit > 0,
    ;
    let last = unit * unit * ((oo - rr) - unit * c.raw);
    assert(-(4 * (unit * unit * unit)) < last < 4 * (unit * unit * unit)) by (nonlinear_arith)
        requires
            last == unit * unit * ((oo - rr) - unit * c.raw),
            -4 * unit < unit * c.raw - (oo - rr) < 4 * unit,
            unit > 0,
    ;
    assert((-tt) * (3 * unit) == -(3 * unit * tt) && tt * (3 * unit) == 3 * unit * tt)
        by (nonlinear_arith);
    assert(-coefficient_error(t) < drift < coefficient_error(t));

    // the root as a solution of the equation
    lemma_roots_solve_equation(sphere, ray);
    let solved = a.raw * residual;
    assert(-residual_bound(a, s) < solved < residual_bound(a, s));
    let excess = normal_excess(r, n);
    assert(excess == squares - unit * unit * rr) by (nonlinear_arith)
        requires
            excess == rr * (exact_dot(n, n) - unit * unit),
            squares == rr * exact_dot(n, n),
    ;
    let rest = excess - unit * residual;
    assert(rest == (squares - exact) + drift);
    let errors = coefficient_error(t) + slack;
    assert(-errors < rest < errors);
    assert(a.raw * excess == unit * solved + a.raw * rest) by (nonlinear_arith)
        requires
            rest == excess - unit * residual,
            solved == a.raw * residual,
    ;
    assert(-(a.raw * errors) < a.raw * rest < a.raw * errors) by (nonlinear_arith)
        requires
            -errors < rest < errors,
            a.raw > 0,
    ;
    assert(-(unit * residual_bound(a, s)) < unit * solved < unit * residual_bound(a, s))
        by (nonlinear_arith)
        requires
            -residual_bound(a, s) < solved < residual_bound(a, s),
            unit > 0,
    ;
}

/// Adds up [`lemma_component`] over the three components.
proof fn lemma_sum_of_components(oc: Vec3, d: Vec3, t: Fixed, q: Vec3, n: Vec3, r: Fixed)
    requires
        ({
            let unit = SCALE as int;
            &&& component_within(oc.x.raw as int, d.x.raw as int, t.raw as int, q.x.raw as int,
                r.raw as int, n.x.raw as int)
            &&& component_within(oc.y.raw as int, d.y.raw as int, t.raw as int, q.y.raw as int,
                r.raw as int, n.y.raw as int)
            &&& component_within(oc.z.raw as int, d.z.raw as int, t.raw as int, q.z.raw as int,
                r.raw as int, n.z.raw as int)
        }),
    ensures
        ({
            let unit = SCALE as int;
            let exact = unit * unit * exact_dot(oc, oc) + 2 * unit * t.raw * exact_dot(oc, d)
                + t.raw * t.raw * exact_dot(d, d);
            let slack = point_error(oc, d, t) + division_error(q, r);
            -slack <= r.raw * r.raw * exact_dot(n, n) - exact <= slack
        }),
{
    let unit = SCALE as int;
    let (px, py, pz) = (oc.x.raw as int, oc.y.raw as int, oc.z.raw as int);
    let (dx, dy, dz) = (d.x.raw as int, d.y.raw as int, d.z.raw as int);
    let (nx, ny, nz) = (n.x.raw as int, n.y.raw as int, n.z.raw as int);
    let tr = t.raw as int;
    let rr = r.raw * r.raw;
    let tt = tr * tr;
    assert(rr * (nx * nx + ny * ny + nz * nz) == rr * (nx * nx) + rr * (ny * ny) + rr * (nz * nz))
        by (nonlinear_arith);
    assert(unit * unit * (px * px + py * py + pz * pz) == unit * unit * (px * px) + unit * unit * (
    py * py) + unit * unit * (pz * pz)) by (nonlinear_arith);
    assert(2 * unit * tr * (px * dx + py * dy + pz * dz) == 2 * unit * tr * (px * dx) + 2 * unit
        * tr * (py * dy) + 2 * unit * tr * (pz * dz)) by (nonlinear_arith);
    assert(tt * (dx * dx + dy * dy + dz * dz) == tt * (dx * dx) + tt * (dy * dy) + tt * (dz * dz))
        by (nonlinear_arith);
    let ar = absolute(r.raw as int);
    let at = absolute(tr);
    assert(unit * (2 * (unit * (absolute(px) + absolute(py) + absolute(pz)) + at * (absolute(dx)
        + absolute(dy) + absolute(dz))) + 3 * unit) == unit * (2 * (unit * absolute(px) + at
        * absolute(dx)) + unit) + unit * (2 * (unit * absolute(py) + at * absolute(dy)) + unit)
        + unit * (2 * (unit * absolute(pz) + at * absolute(dz)) + unit)) by (nonlinear_arith);
    let (qx, qy, qz) = (absolute(q.x.raw as int), absolute(q.y.raw as int), absolute(
        q.z.raw as int,
    ));
    assert(ar * (2 * unit * (qx + qy + qz) + 3 * ar) == ar * (2 * unit * qx + ar) + ar * (2 * unit
        * qy + ar) + ar * (2 * unit * qz + ar)) by (nonlinear_arith);
}

/// The statement of [`lemma_component`] for one component, where `q` is
/// the component of `point - center`.
pub open spec fn component_within(p: int, d: int, t: int, q: int, r: int, n: int) -> bool {
    let unit = SCALE as int;
    let exact = unit * unit * (p * p) + 2 * unit * t * (p * d) + t * t * (d * d);
    let slack = unit * (2 * (unit * absolute(p) + absolute(t) * absolute(d)) + unit) + absolute(r)
        * (2 * unit * absolute(q) + absolute(r));
    -slack <= r * r * (n * n) - exact <= slack
}

} // verus!
