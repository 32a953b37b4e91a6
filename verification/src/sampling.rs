//! Random numbers and random points.
//!
//! The generator is `rand`'s standard generator, owned by the caller and
//! passed to every function that draws from it.  A draw is a 32-bit word;
//! its upper 24 bits make a fraction in `[0, 1)`, which is how `rand`
//! itself makes a single-precision number from a word.

use crate::fixed::Fixed;
use crate::fixed::SCALE;
use crate::vec3::Vec3;
use rand::rngs::StdRng;
use rand::Rng;
use vstd::prelude::*;

verus! {

/// `rand::rngs::StdRng`, the generator that the library draws from.  Its
/// state is opaque here.
#[verifier::external_type_specification]
#[verifier::external_body]
pub struct ExStdRng(StdRng);

/// How often a sampler draws a candidate point before it gives up.
pub const MAX_TRIES: u32 = 64;

/// Draws the next word from the generator with `rand::Rng::gen`.  The word
/// depends on the generator's state, so nothing is claimed of it.
#[verifier::external_body]
pub(crate) fn next_word(rng: &mut StdRng) -> (word: u32) {
    rng.gen::<u32>()
}

/// Whether `x` is a fraction: at least zero and less than one.
pub open spec fn is_fraction(x: Fixed) -> bool {
    0 <= x.raw < SCALE
}

/// Whether `p` lies strictly inside the unit ball around the origin.
pub open spec fn in_unit_ball(p: Vec3) -> bool {
    p.squared_mag().raw < SCALE
}

/// The origin lies inside the unit ball.
pub proof fn lemma_centre_in_unit_ball()
    ensures
        in_unit_ball(Vec3::from_ints(0, 0, 0)),
        Vec3::from_ints(0, 0, 0).z.raw == 0,
{
    let centre = Vec3::from_ints(0, 0, 0);
    assert(centre.x.raw == 0 && centre.y.raw == 0 && centre.z.raw == 0);
    assert(centre.x.mul(centre.x).raw == 0);
}

/// The fraction made of the upper 24 bits of `word`.
pub open spec fn spec_fraction_of(word: u32) -> Fixed {
    Fixed { raw: (word / 256) as i64 }
}

/// Turns a word into a fraction in `[0, 1)`, dropping its lower 8 bits.
#[verifier::when_used_as_spec(spec_fraction_of)]
pub fn fraction_of(word: u32) -> (r: Fixed)
    ensures
        r == spec_fraction_of(word),
        is_fraction(r),
{
    Fixed { raw: (word / 256) as i64 }
}

/// Draws a fraction in `[0, 1)`.
pub fn random_fraction(rng: &mut StdRng) -> (r: Fixed)
    ensures
        is_fraction(r),
{
    fraction_of(next_word(rng))
}

/// The point `2 (a, b, c) - (1, 1, 1)`, which lies in the cube
/// `[-1, 1)^3` when `a`, `b`, `c` are fractions.
pub open spec fn spec_cube_point(a: Fixed, b: Fixed, c: Fixed) -> Vec3 {
    (Vec3 { x: a, y: b, z: c }).scale(Fixed::from_int(2)).sub(Vec3::from_ints(1, 1, 1))
}

/// Maps three fractions to a point of the cube `[-1, 1)^3`.
#[verifier::when_used_as_spec(spec_cube_point)]
pub fn cube_point(a: Fixed, b: Fixed, c: Fixed) -> (p: Vec3)
    ensures
        p == spec_cube_point(a, b, c),
{
    Vec3::new(a, b, c).scale(Fixed::from_int(2)).sub(Vec3::from_ints(1, 1, 1))
}

/// The point `2 (a, b, 0) - (1, 1, 0)` of the plane `z = 0`, which lies in
/// the square `[-1, 1)^2` when `a` and `b` are fractions.
pub open spec fn spec_square_point(a: Fixed, b: Fixed) -> Vec3 {
    (Vec3 { x: a, y: b, z: Fixed::zero() }).scale(Fixed::from_int(2)).sub(Vec3::from_ints(1, 1, 0))
}

/// Maps two fractions to a point of the square `[-1, 1)^2` in the plane
/// `z = 0`.
#[verifier::when_used_as_spec(spec_square_point)]
pub fn square_point(a: Fixed, b: Fixed) -> (p: Vec3)
    ensures
        p == spec_square_point(a, b),
        p.z.raw == 0,
{
    Vec3::new(a, b, Fixed::zero()).scale(Fixed::from_int(2)).sub(Vec3::from_ints(1, 1, 0))
}

/// Whether `p` is a candidate of the sampler of the unit ball: the cube
/// point of three fractions.
pub open spec fn is_cube_candidate(p: Vec3) -> bool {
    exists|a: Fixed, b: Fixed, c: Fixed|
        is_fraction(a) && is_fraction(b) && is_fraction(c) && p == #[trigger] spec_cube_point(
            a,
            b,
            c,
        )
}

/// Whether `p` is a candidate of the sampler of the unit disk: the square
/// point of two fractions.
pub open spec fn is_square_candidate(p: Vec3) -> bool {
    exists|a: Fixed, b: Fixed|
        is_fraction(a) && is_fraction(b) && p == #[trigger] spec_square_point(a, b)
}

/// Draws a point inside the unit ball by rejection: points of the
/// surrounding cube are drawn until one falls inside.  After `MAX_TRIES`
/// rejections in a row the centre is returned.
pub fn random_point_in_unit_sphere(rng: &mut StdRng) -> (p: Vec3)
    ensures
        in_unit_ball(p),
        exists|tried: Seq<Vec3>|
            {
                &&& #[trigger] is_rejection_run(tried, p)
                &&& forall|i: int| 0 <= i < tried.len() ==> is_cube_candidate(#[trigger] tried[i])
            },
{
    let mut tries: u32 = 0;
    let ghost mut tried: Seq<Vec3> = Seq::empty();
    while tries < MAX_TRIES
        invariant
            tries <= MAX_TRIES,
            tried.len() == tries,
            forall|i: int| 0 <= i < tried.len() ==> !in_unit_ball(#[trigger] tried[i]),
            forall|i: int| 0 <= i < tried.len() ==> is_cube_candidate(#[trigger] tried[i]),
        decreases MAX_TRIES - tries,
    {
        let a = random_fraction(rng);
        let b = random_fraction(rng);
        let c = random_fraction(rng);
        let point = cube_point(a, b, c);
        proof {
            tried = tried.push(point);
        }
        if inside_unit_ball(point) {
            assert(is_rejection_run(tried, point));
            return point;
        }
        tries += 1;
    }
    proof {
        lemma_centre_in_unit_ball();
        assert(is_rejection_run(tried, Vec3::from_ints(0, 0, 0)));
    }
    Vec3::from_ints(0, 0, 0)
}

/// Draws a point inside the unit disk of the plane `z = 0` by rejection:
/// points of the surrounding square are drawn until one falls inside.
/// After `MAX_TRIES` rejections in a row the centre is returned.
pub fn random_point_in_unit_disk(rng: &mut StdRng) -> (p: Vec3)
    ensures
        in_unit_ball(p),
        p.z.raw == 0,
        exists|tried: Seq<Vec3>|
            {
                &&& #[trigger] is_rejection_run(tried, p)
                &&& forall|i: int| 0 <= i < tried.len() ==> is_square_candidate(#[trigger] tried[i])
            },
{
    let mut tries: u32 = 0;
    let ghost mut tried: Seq<Vec3> = Seq::empty();
    while tries < MAX_TRIES
        invariant
            tries <= MAX_TRIES,
            tried.len() == tries,
            forall|i: int| 0 <= i < tried.len() ==> !in_unit_ball(#[trigger] tried[i]),
            forall|i: int| 0 <= i < tried.len() ==> is_square_candidate(#[trigger] tried[i]),
        decreases MAX_TRIES - tries,
    {
        let a = random_fraction(rng);
        let b = random_fraction(rng);
        let point = square_point(a, b);
        proof {
            tried = tried.push(point);
        }
        if inside_unit_ball(point) {
            assert(is_rejection_run(tried, point));
            return point;
        }
        tries += 1;
    }
    proof {
        lemma_centre_in_unit_ball();
        assert(is_rejection_run(tried, Vec3::from_ints(0, 0, 0)));
    }
    Vec3::from_ints(0, 0, 0)
}

/// Tells whether `p` lies strictly inside the unit ball: the test by which
/// the samplers accept a candidate.
pub fn inside_unit_ball(p: Vec3) -> (inside: bool)
    ensures
        inside == in_unit_ball(p),
{
    p.squared_mag().raw < SCALE
}

/// Whether `tried` are the candidates of one run of a rejection sampler
/// that gives `p`, in the order in which they were drawn.
///
/// A run draws at least one candidate and at most `MAX_TRIES`.  It stops at
/// the first candidate inside the unit ball, so all but the last lie
/// outside.  If the last lies inside, it is the result.  Otherwise all
/// `MAX_TRIES` candidates were rejected, and the result is the centre.
pub open spec fn is_rejection_run(tried: Seq<Vec3>, p: Vec3) -> bool {
    &&& 0 < tried.len() <= MAX_TRIES
    &&& forall|i: int| 0 <= i < tried.len() - 1 ==> !in_unit_ball(#[trigger] tried[i])
    &&& if in_unit_ball(tried.last()) {
        p == tried.last()
    } else {
        tried.len() == MAX_TRIES && p == Vec3::from_ints(0, 0, 0)
    }
}

} // verus!
