//! Ready-made scenes: spheres with randomly chosen materials on a large
//! ground.

use crate::fixed::Fixed;
use crate::hittable::Hittable;
use crate::hittable::HittableList;
use crate::hittable::Sphere;
use crate::material::Dielectric;
use crate::material::Lambertian;
use crate::material::Material;
use crate::material::Metal;
use crate::sampling::is_fraction;
use crate::sampling::random_fraction;
use crate::texture::CheckerTexture;
use crate::texture::ConstantTexture;
use crate::texture::Texture;
use crate::vec3::Vec3;
use rand::rngs::StdRng;
use vstd::prelude::*;

verus! {

/// The number `num / den`, rounded toward zero.
pub open spec fn spec_ratio(num: i32, den: i32) -> Fixed {
    Fixed::from_int(num).div(Fixed::from_int(den))
}

/// Makes the number `num / den`.
#[verifier::when_used_as_spec(spec_ratio)]
pub fn ratio(num: i32, den: i32) -> (r: Fixed)
    ensures
        r == spec_ratio(num, den),
{
    Fixed::from_int(num).div(Fixed::from_int(den))
}

/// The texture of the one colour `(r, g, b) / 10`.
pub open spec fn spec_tenths(r: i32, g: i32, b: i32) -> Texture {
    Texture::Constant(ConstantTexture { color: Vec3 { x: ratio(r, 10), y: ratio(g, 10), z: ratio(b, 10) } })
}

/// Makes the texture of the one colour `(r, g, b) / 10`.
#[verifier::when_used_as_spec(spec_tenths)]
pub fn tenths(r: i32, g: i32, b: i32) -> (t: Texture)
    ensures
        t == spec_tenths(r, g, b),
{
    Texture::Constant(ConstantTexture::new(Vec3::new(ratio(r, 10), ratio(g, 10), ratio(b, 10))))
}

/// The matte material whose albedo has the channels `a b`, `c d` and `e f`.
pub open spec fn spec_matte_of(a: Fixed, b: Fixed, c: Fixed, d: Fixed, e: Fixed, f: Fixed) -> Material {
    Material::Lambertian(
        Lambertian {
            albedo: Texture::Constant(
                ConstantTexture { color: Vec3 { x: a.mul(b), y: c.mul(d), z: e.mul(f) } },
            ),
        },
    )
}

/// Makes a matte material from six fractions: each channel of its albedo
/// is the product of two of them, which favours dark colours.
#[verifier::when_used_as_spec(spec_matte_of)]
pub fn matte_of(a: Fixed, b: Fixed, c: Fixed, d: Fixed, e: Fixed, f: Fixed) -> (m: Material)
    ensures
        m == spec_matte_of(a, b, c, d, e, f),
{
    Material::Lambertian(
        Lambertian::new(
            Texture::Constant(ConstantTexture::new(Vec3::new(a.mul(b), c.mul(d), e.mul(f)))),
        ),
    )
}

/// The channel `0.5 (1 + x)` of a bright albedo.
pub open spec fn bright(x: Fixed) -> Fixed {
    ratio(1, 2).mul(Fixed::one().add(x))
}

/// The metal with the albedo `0.5 (1 + (r, g, b))` and the fuzz
/// `0.5 fuzz`.
pub open spec fn spec_metal_of(r: Fixed, g: Fixed, b: Fixed, fuzz: Fixed) -> Material {
    Material::Metal(
        Metal::new(Vec3 { x: bright(r), y: bright(g), z: bright(b) }, ratio(1, 2).mul(fuzz)),
    )
}

/// Makes a metal from four fractions: a bright albedo and a fuzz below one
/// half.
#[verifier::when_used_as_spec(spec_metal_of)]
pub fn metal_of(r: Fixed, g: Fixed, b: Fixed, fuzz: Fixed) -> (m: Material)
    ensures
        m == spec_metal_of(r, g, b, fuzz),
{
    let half = ratio(1, 2);
    let one = Fixed::one();
    Material::Metal(
        Metal::new(
            Vec3::new(half.mul(one.add(r)), half.mul(one.add(g)), half.mul(one.add(b))),
            half.mul(fuzz),
        ),
    )
}

/// Glass: the clear material with the refractive index `1.5`.
pub open spec fn spec_glass() -> Material {
    Material::Dielectric(Dielectric { ref_idx: ratio(3, 2) })
}

/// Makes glass.
#[verifier::when_used_as_spec(spec_glass)]
pub fn glass() -> (m: Material)
    ensures
        m == spec_glass(),
{
    Material::Dielectric(Dielectric::new(ratio(3, 2)))
}

/// Whether `m` is a material that the number `choose_mat` can choose: a
/// matte one of six fractions below `matte_below`, a metal of four
/// fractions from there to below `metal_below`, and glass from there on.
pub open spec fn is_choice(m: Material, choose_mat: Fixed, matte_below: Fixed, metal_below: Fixed) -> bool {
    if choose_mat.raw < matte_below.raw {
        exists|a: Fixed, b: Fixed, c: Fixed, d: Fixed, e: Fixed, f: Fixed|
            is_fraction(a) && is_fraction(b) && is_fraction(c) && is_fraction(d) && is_fraction(e)
                && is_fraction(f) && m == #[trigger] spec_matte_of(a, b, c, d, e, f)
    } else if choose_mat.raw < metal_below.raw {
        exists|r: Fixed, g: Fixed, b: Fixed, fuzz: Fixed|
            is_fraction(r) && is_fraction(g) && is_fraction(b) && is_fraction(fuzz) && m
                == #[trigger] spec_metal_of(r, g, b, fuzz)
    } else {
        m == spec_glass()
    }
}

/// Makes the material that `choose_mat` chooses, drawing its colours from
/// `rng`.
pub fn random_material(
    choose_mat: Fixed,
    matte_below: Fixed,
    metal_below: Fixed,
    rng: &mut StdRng,
) -> (m: Material)
    ensures
        is_choice(m, choose_mat, matte_below, metal_below),
{
    if choose_mat.raw < matte_below.raw {
        let a = random_fraction(rng);
        let b = random_fraction(rng);
        let c = random_fraction(rng);
        let d = random_fraction(rng);
        let e = random_fraction(rng);
        let f = random_fraction(rng);
        matte_of(a, b, c, d, e, f)
    } else if choose_mat.raw < metal_below.raw {
        let r = random_fraction(rng);
        let g = random_fraction(rng);
        let b = random_fraction(rng);
        let fuzz = random_fraction(rng);
        metal_of(r, g, b, fuzz)
    } else {
        glass()
    }
}

/// The large sphere that serves as ground: radius 1000, touching the
/// origin from below.
pub open spec fn spec_ground(material: Material) -> Hittable {
    Hittable::Sphere(
        Sphere { center: Vec3::from_ints(0, -1000i32, 0), radius: Fixed::from_int(1000), material },
    )
}

/// Makes the ground of the given material.
#[verifier::when_used_as_spec(spec_ground)]
pub fn ground(material: Material) -> (h: Hittable)
    ensures
        h == spec_ground(material),
{
    Hittable::Sphere(Sphere::new(Vec3::from_ints(0, -1000, 0), Fixed::from_int(1000), material))
}

/// The sphere of radius one around `(x, 1, 0)`.
pub open spec fn spec_large_sphere(x: i32, material: Material) -> Hittable {
    Hittable::Sphere(Sphere { center: Vec3::from_ints(x, 1, 0), radius: Fixed::one(), material })
}

/// Makes the sphere of radius one around `(x, 1, 0)`.
#[verifier::when_used_as_spec(spec_large_sphere)]
pub fn large_sphere(x: i32, material: Material) -> (h: Hittable)
    ensures
        h == spec_large_sphere(x, material),
{
    Hittable::Sphere(Sphere::new(Vec3::from_ints(x, 1, 0), Fixed::one(), material))
}

/// The checkered matte material of the ground: dark green and light grey.
pub open spec fn spec_checkered() -> Material {
    Material::Lambertian(
        Lambertian {
            albedo: Texture::Checker(
                CheckerTexture {
                    odd_texture: Box::new(tenths(2, 3, 1)),
                    even_texture: Box::new(tenths(9, 9, 9)),
                },
            ),
        },
    )
}

/// Makes the checkered material.
#[verifier::when_used_as_spec(spec_checkered)]
pub fn checkered() -> (m: Material)
    ensures
        m == spec_checkered(),
{
    Material::Lambertian(
        Lambertian::new(Texture::Checker(CheckerTexture::new(tenths(2, 3, 1), tenths(9, 9, 9)))),
    )
}

/// Whether `h` is a small sphere of the cell `(a, b)` of the random scene:
/// it has the radius `0.2`, lies on the ground at
/// `(a + 0.9 u, 0.2, b + 0.9 w)` for two fractions `u` and `w`, and is made
/// of a material chosen by a fraction, matte below `0.8`, metal below
/// `0.95`, glass above.
pub open spec fn is_small_sphere(h: Hittable, a: int, b: int) -> bool {
    h matches Hittable::Sphere(s) && s.radius == ratio(2, 10) && (exists|
        choose_mat: Fixed,
        u: Fixed,
        w: Fixed,
    |
        {
            &&& is_fraction(choose_mat)
            &&& is_fraction(u)
            &&& is_fraction(w)
            &&& s.center == #[trigger] small_centre(a, b, u, w)
            &&& #[trigger] is_choice(s.material, choose_mat, ratio(8, 10), ratio(95, 100))
        })
}

/// The centre `(a + 0.9 u, 0.2, b + 0.9 w)` of a small sphere.
pub open spec fn small_centre(a: int, b: int, u: Fixed, w: Fixed) -> Vec3 {
    Vec3 {
        x: Fixed::from_int(a as i32).add(ratio(9, 10).mul(u)),
        y: ratio(2, 10),
        z: Fixed::from_int(b as i32).add(ratio(9, 10).mul(w)),
    }
}

/// The number of shapes of the random scene: the ground, 22 by 22 small
/// spheres, and three large ones.
pub const RANDOM_SCENE_SIZE: usize = 488;

/// Builds the random scene: a checkered ground, a small sphere with a
/// random place and material in each cell `(a, b)` with `-11 <= a, b < 11`,
/// row by row, and at the end a matte, a metal and a glass sphere of radius
/// one.
pub fn random_scene(rng: &mut StdRng) -> (scene: HittableList)
    ensures
        scene.list@.len() == RANDOM_SCENE_SIZE,
        scene.list@[0] == ground(checkered()),
        forall|a: int, b: int|
            -11 <= a < 11 && -11 <= b < 11 ==> is_small_sphere(
                #[trigger] scene.list@[1 + (a + 11) * 22 + (b + 11)],
                a,
                b,
            ),
        scene.list@[485] == large_sphere(
            -4i32,
            Material::Lambertian(Lambertian { albedo: tenths(4, 2, 1) }),
        ),
        scene.list@[486] == large_sphere(
            4,
            Material::Metal(
                Metal::new(
                    Vec3 { x: ratio(7, 10), y: ratio(6, 10), z: ratio(5, 10) },
                    Fixed::zero(),
                ),
            ),
        ),
        scene.list@[487] == large_sphere(0, glass()),
{
    let mut list = HittableList::new();
    list.push(ground(checkered()));
    let mut a: i32 = -11;
    while a < 11
        invariant
            -11 <= a <= 11,
            list.list@.len() == 1 + (a + 11) * 22,
            list.list@[0] == ground(checkered()),
            forall|p: int, q: int|
                -11 <= p < a && -11 <= q < 11 ==> is_small_sphere(
                    #[trigger] list.list@[1 + (p + 11) * 22 + (q + 11)],
                    p,
                    q,
                ),
        decreases 11 - a,
    {
        let mut b: i32 = -11;
        while b < 11
            invariant
                -11 <= a < 11,
                -11 <= b <= 11,
                list.list@.len() == 1 + (a + 11) * 22 + (b + 11),
                list.list@[0] == ground(checkered()),
                forall|p: int, q: int|
                    -11 <= p < a && -11 <= q < 11 ==> is_small_sphere(
                        #[trigger] list.list@[1 + (p + 11) * 22 + (q + 11)],
                        p,
                        q,
                    ),
                forall|q: int|
                    -11 <= q < b ==> is_small_sphere(
                        #[trigger] list.list@[1 + (a + 11) * 22 + (q + 11)],
                        a as int,
                        q,
                    ),
            decreases 11 - b,
        {
            let choose_mat = random_fraction(rng);
            let u = random_fraction(rng);
            let w = random_fraction(rng);
            let center = Vec3::new(
                Fixed::from_int(a).add(ratio(9, 10).mul(u)),
                ratio(2, 10),
                Fixed::from_int(b).add(ratio(9, 10).mul(w)),
            );
            let material = random_material(choose_mat, ratio(8, 10), ratio(95, 100), rng);
            let ghost before = list.list@;
            list.push(Hittable::Sphere(Sphere::new(center, ratio(2, 10), material)));
            proof {
                assert(center == small_centre(a as int, b as int, u, w));
                assert(is_small_sphere(list.list@[before.len() as int], a as int, b as int));
                assert forall|p: int, q: int| -11 <= p < a && -11 <= q < 11 implies is_small_sphere(
                    #[trigger] list.list@[1 + (p + 11) * 22 + (q + 11)],
                    p,
                    q,
                ) by {
                    assert(list.list@[1 + (p + 11) * 22 + (q + 11)] == before[1 + (p + 11) * 22 + (q
                        + 11)]);
                }
                assert forall|q: int| -11 <= q < b + 1 implies is_small_sphere(
                    #[trigger] list.list@[1 + (a + 11) * 22 + (q + 11)],
                    a as int,
                    q,
                ) by {
                    if q < b {
                        assert(list.list@[1 + (a + 11) * 22 + (q + 11)] == before[1 + (a + 11) * 22
                            + (q + 11)]);
                    }
                }
            }
            b += 1;
        }
        a += 1;
    }
    let ghost cells = list.list@;
    list.push(large_sphere(-4, Material::Lambertian(Lambertian::new(tenths(4, 2, 1)))));
    list.push(
        large_sphere(
            4,
            Material::Metal(
                Metal::new(Vec3::new(ratio(7, 10), ratio(6, 10), ratio(5, 10)), Fixed::zero()),
            ),
        ),
    );
    list.push(large_sphere(0, glass()));
    proof {
        assert forall|p: int, q: int| -11 <= p < 11 && -11 <= q < 11 implies is_small_sphere(
            #[trigger] list.list@[1 + (p + 11) * 22 + (q + 11)],
            p,
            q,
        ) by {
            assert(list.list@[1 + (p + 11) * 22 + (q + 11)] == cells[1 + (p + 11) * 22 + (q + 11)]);
        }
    }
    list
}

/// The grey, slightly rough metal of the cube scene's ground: the albedo
/// `(0.5, 0.5, 0.5)` and the fuzz `0.01`.
pub open spec fn spec_rough_metal() -> Material {
    Material::Metal(
        Metal::new(Vec3 { x: ratio(1, 2), y: ratio(1, 2), z: ratio(1, 2) }, ratio(1, 100)),
    )
}

/// Makes the metal of the cube scene's ground.
#[verifier::when_used_as_spec(spec_rough_metal)]
pub fn rough_metal() -> (m: Material)
    ensures
        m == spec_rough_metal(),
{
    let half = ratio(1, 2);
    Material::Metal(Metal::new(Vec3::new(half, half, half), ratio(1, 100)))
}

/// Whether `h` is the sphere of the cell `(x, y, z)` of the cube scene: it
/// has the radius `0.5`, the centre `(x, y + 2.5, z)`, and is made of a
/// material chosen by a fraction, matte below `0.3`, metal below `0.6`,
/// glass above.
pub open spec fn is_cube_sphere(h: Hittable, x: int, y: int, z: int) -> bool {
    h matches Hittable::Sphere(s) && s.radius == ratio(1, 2) && s.center == cube_centre(x, y, z)
        && (exists|choose_mat: Fixed|
        is_fraction(choose_mat) && #[trigger] is_choice(
            s.material,
            choose_mat,
            ratio(3, 10),
            ratio(6, 10),
        ))
}

/// The centre `(x, y + 2.5, z)` of a sphere of the cube scene.
pub open spec fn cube_centre(x: int, y: int, z: int) -> Vec3 {
    Vec3 {
        x: Fixed::from_int(x as i32),
        y: Fixed::from_int(y as i32).add(ratio(5, 2)),
        z: Fixed::from_int(z as i32),
    }
}

/// The number of shapes of the cube scene: the ground and 5 by 6 by 5
/// spheres.
pub const CUBE_SCENE_SIZE: usize = 151;

/// Builds the cube scene: a slightly rough metal ground and above it a
/// block of spheres with random materials, one in each cell `(x, y, z)`
/// with `-2 <= x, z < 3` and `0 <= y < 6`.
pub fn sphere_cube_scene(rng: &mut StdRng) -> (scene: HittableList)
    ensures
        scene.list@.len() == CUBE_SCENE_SIZE,
        scene.list@[0] == ground(rough_metal()),
        forall|x: int, y: int, z: int|
            -2 <= x < 3 && 0 <= y < 6 && -2 <= z < 3 ==> is_cube_sphere(
                #[trigger] scene.list@[1 + ((x + 2) * 6 + y) * 5 + (z + 2)],
                x,
                y,
                z,
            ),
{
    let mut list = HittableList::new();
    list.push(ground(rough_metal()));
    let mut x: i32 = -2;
    while x < 3
        invariant
            -2 <= x <= 3,
            list.list@.len() == 1 + (x + 2) * 30,
            list.list@[0] == ground(rough_metal()),
            forall|p: int, q: int, r: int|
                -2 <= p < x && 0 <= q < 6 && -2 <= r < 3 ==> is_cube_sphere(
                    #[trigger] list.list@[1 + ((p + 2) * 6 + q) * 5 + (r + 2)],
                    p,
                    q,
                    r,
                ),
        decreases 3 - x,
    {
        let mut y: i32 = 0;
        while y < 6
            invariant
                -2 <= x < 3,
                0 <= y <= 6,
                list.list@.len() == 1 + ((x + 2) * 6 + y) * 5,
                list.list@[0] == ground(rough_metal()),
                forall|p: int, q: int, r: int|
                    0 <= q < 6 && -2 <= r < 3 && (-2 <= p < x || (p == x && q < y))
                        ==> is_cube_sphere(
                        #[trigger] list.list@[1 + ((p + 2) * 6 + q) * 5 + (r + 2)],
                        p,
                        q,
                        r,
                    ),
            decreases 6 - y,
        {
            let mut z: i32 = -2;
            while z < 3
                invariant
                    -2 <= x < 3,
                    0 <= y < 6,
                    -2 <= z <= 3,
                    list.list@.len() == 1 + ((x + 2) * 6 + y) * 5 + (z + 2),
                    list.list@[0] == ground(rough_metal()),
                    forall|p: int, q: int, r: int|
                        0 <= q < 6 && -2 <= r < 3 && (-2 <= p < x || (p == x && q < y) || (p == x
                            && q == y && r < z)) ==> is_cube_sphere(
                            #[trigger] list.list@[1 + ((p + 2) * 6 + q) * 5 + (r + 2)],
                            p,
                            q,
                            r,
                        ),
                decreases 3 - z,
            {
                let center = Vec3::new(
                    Fixed::from_int(x),
                    Fixed::from_int(y).add(ratio(5, 2)),
                    Fixed::from_int(z),
                );
                let choose_mat = random_fraction(rng);
                let material = random_material(choose_mat, ratio(3, 10), ratio(6, 10), rng);
                let ghost before = list.list@;
                list.push(Hittable::Sphere(Sphere::new(center, ratio(1, 2), material)));
                proof {
                    assert(center == cube_centre(x as int, y as int, z as int));
                    assert(is_cube_sphere(
                        list.list@[before.len() as int],
                        x as int,
                        y as int,
                        z as int,
                    ));
                    assert forall|p: int, q: int, r: int|
                        0 <= q < 6 && -2 <= r < 3 && (-2 <= p < x || (p == x && q < y) || (p == x
                            && q == y && r < z + 1)) implies is_cube_sphere(
                        #[trigger] list.list@[1 + ((p + 2) * 6 + q) * 5 + (r + 2)],
                        p,
                        q,
                        r,
                    ) by {
                        if !(p == x && q == y && r == z) {
                            assert(list.list@[1 + ((p + 2) * 6 + q) * 5 + (r + 2)] == before[1 + ((p
                                + 2) * 6 + q) * 5 + (r + 2)]);
                        }
                    }
                }
                z += 1;
            }
            y += 1;
        }
        x += 1;
    }
    list
}

} // verus!
