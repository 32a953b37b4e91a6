//! Materials: how a surface scatters, absorbs or emits light.

use crate::fixed::lemma_div_one;
use crate::fixed::Fixed;
use crate::fixed::SCALE;
use crate::hittable::HitRecord;
use crate::ray::Ray;
use crate::sampling::in_unit_ball;
use crate::sampling::is_fraction;
use crate::sampling::lemma_centre_in_unit_ball;
use crate::sampling::random_fraction;
use crate::sampling::random_point_in_unit_sphere;
use crate::texture::Texture;
use crate::vec3::lemma_refract_index_one;
use crate::vec3::reflect_limit;
use crate::vec3::within;
use crate::vec3::Vec3;
use rand::rngs::StdRng;
use vstd::prelude::*;

verus! {

/// A material.
#[derive(Debug)]
pub enum Material {
    Lambertian(Lambertian),
    Metal(Metal),
    Dielectric(Dielectric),
    DiffuseLight(DiffuseLight),
}

/// A matte surface that scatters in all directions.
#[derive(Debug)]
pub struct Lambertian {
    pub albedo: Texture,
}

/// A mirror whose reflection is blurred by `fuzz`, a number between zero
/// and one.
#[derive(Clone, Copy, Debug)]
pub struct Metal {
    pub albedo: Vec3,
    pub fuzz: Fixed,
}

/// A clear material such as glass, which reflects or refracts.
#[derive(Clone, Copy, Debug)]
pub struct Dielectric {
    pub ref_idx: Fixed,
}

/// A light source, which emits and never scatters.
#[derive(Debug)]
pub struct DiffuseLight {
    pub emit: Texture,
}

impl Lambertian {
    /// The matte material with the given albedo.
    pub fn new(albedo: Texture) -> (r: Lambertian)
        ensures
            r.albedo == albedo,
    {
        Lambertian { albedo }
    }

    /// The scattering off a matte surface, given the random point `bounce`
    /// of the unit ball: the ray from the hit point toward
    /// `point + normal + bounce`, attenuated by the albedo at the hit point.
    pub open spec fn spec_scatter_with(&self, ray: &Ray, hit: &HitRecord, bounce: Vec3) -> Option<
        (Ray, Vec3),
    > {
        let target = hit.point.add(hit.normal).add(bounce);
        Some(
            (
                Ray { origin: hit.point, direction: target.sub(hit.point) },
                self.albedo.value(Fixed::zero(), Fixed::zero(), hit.point),
            ),
        )
    }

    /// Scatters the ray with the random point `bounce`.  Always scatters.
    #[verifier::when_used_as_spec(spec_scatter_with)]
    pub fn scatter_with(&self, ray: &Ray, hit: &HitRecord, bounce: Vec3) -> (r: Option<(Ray, Vec3)>)
        ensures
            r == self.spec_scatter_with(ray, hit, bounce),
            r is Some,
    {
        let target = hit.point.add(hit.normal).add(bounce);
        let scattered = Ray::new(hit.point, target.sub(hit.point));
        let attenuation = self.albedo.value(Fixed::zero(), Fixed::zero(), hit.point);
        Some((scattered, attenuation))
    }

    /// Scatters the ray in a random direction: draws a point of the unit
    /// ball and scatters with it.
    pub fn scatter(&self, ray: &Ray, hit: &HitRecord, rng: &mut StdRng) -> (r: Option<(Ray, Vec3)>)
        ensures
            r is Some,
            exists|bounce: Vec3|
                in_unit_ball(bounce) && r == #[trigger] self.spec_scatter_with(ray, hit, bounce),
    {
        let bounce = random_point_in_unit_sphere(rng);
        self.scatter_with(ray, hit, bounce)
    }
}

impl Metal {
    /// Whether the fuzz lies between zero and one.
    pub open spec fn wf(&self) -> bool {
        0 <= self.fuzz.raw <= SCALE
    }

    /// The metal with the given albedo and the fuzz nearest to `fuzz`
    /// between zero and one.
    pub open spec fn spec_new(albedo: Vec3, fuzz: Fixed) -> Metal {
        Metal {
            albedo,
            fuzz: if fuzz.raw > SCALE {
                Fixed::one()
            } else if fuzz.raw < 0 {
                Fixed::zero()
            } else {
                fuzz
            },
        }
    }

    /// The metal with the given albedo; `fuzz` is clamped to `[0, 1]`.
    #[verifier::when_used_as_spec(spec_new)]
    pub fn new(albedo: Vec3, fuzz: Fixed) -> (r: Metal)
        ensures
            r == Metal::spec_new(albedo, fuzz),
            r.wf(),
    {
        if fuzz.raw > SCALE {
            Metal { albedo, fuzz: Fixed::one() }
        } else if fuzz.raw < 0 {
            Metal { albedo, fuzz: Fixed::zero() }
        } else {
            Metal { albedo, fuzz }
        }
    }

    /// The direction in which a metal sends the ray on, given the random
    /// point `bounce` of the unit ball: the mirror image of the unit
    /// incident direction about the normal, plus `fuzz * bounce`.
    pub open spec fn scattered_direction(&self, ray: &Ray, hit: &HitRecord, bounce: Vec3) -> Vec3 {
        ray.direction.make_unit_vector().reflect(&hit.normal).add(bounce.scale(self.fuzz))
    }

    /// The scattering off a metal, given the random point `bounce`: the ray
    /// from the hit point along the scattered direction, attenuated by the
    /// albedo, provided that direction points away from the surface.
    /// Otherwise the ray is absorbed.
    pub open spec fn spec_scatter_with(&self, ray: &Ray, hit: &HitRecord, bounce: Vec3) -> Option<
        (Ray, Vec3),
    > {
        let direction = self.scattered_direction(ray, hit, bounce);
        if direction.dot(&hit.normal).raw > 0 {
            Some((Ray { origin: hit.point, direction }, self.albedo))
        } else {
            None
        }
    }

    /// Scatters the ray with the random point `bounce`.
    #[verifier::when_used_as_spec(spec_scatter_with)]
    pub fn scatter_with(&self, ray: &Ray, hit: &HitRecord, bounce: Vec3) -> (r: Option<(Ray, Vec3)>)
        ensures
            r == self.spec_scatter_with(ray, hit, bounce),
            r is Some <==> self.scattered_direction(ray, hit, bounce).dot(&hit.normal).raw > 0,
    {
        let reflected = ray.direction.make_unit_vector().reflect(&hit.normal);
        let scattered = Ray::new(hit.point, reflected.add(bounce.scale(self.fuzz)));
        let attenuation = self.albedo;
        if scattered.direction.dot(&hit.normal).raw > 0 {
            Some((scattered, attenuation))
        } else {
            None
        }
    }

    /// Reflects the ray with a random blur: draws a point of the unit ball
    /// and scatters with it.
    pub fn scatter(&self, ray: &Ray, hit: &HitRecord, rng: &mut StdRng) -> (r: Option<(Ray, Vec3)>)
        ensures
            exists|bounce: Vec3|
                in_unit_ball(bounce) && r == #[trigger] self.spec_scatter_with(ray, hit, bounce),
    {
        let bounce = random_point_in_unit_sphere(rng);
        self.scatter_with(ray, hit, bounce)
    }
}

impl Dielectric {
    /// The clear material with the given refractive index.
    pub fn new(ref_idx: Fixed) -> (r: Dielectric)
        ensures
            r.ref_idx == ref_idx,
    {
        Dielectric { ref_idx }
    }

    /// Whether the ray leaves the material: it runs along the normal.
    pub open spec fn exits(&self, ray: &Ray, hit: &HitRecord) -> bool {
        ray.direction.dot(&hit.normal).raw > 0
    }

    /// The normal that points against the ray.
    pub open spec fn outward_normal(&self, ray: &Ray, hit: &HitRecord) -> Vec3 {
        if self.exits(ray, hit) {
            hit.normal.neg()
        } else {
            hit.normal
        }
    }

    /// The ratio of the refractive indices before and after the surface:
    /// the index itself when the ray leaves the material, its reciprocal
    /// when the ray enters.
    pub open spec fn ni_over_nt(&self, ray: &Ray, hit: &HitRecord) -> Fixed {
        if self.exits(ray, hit) {
            self.ref_idx
        } else {
            Fixed::one().div(self.ref_idx)
        }
    }

    /// The cosine that enters Schlick's formula: `-(d . n) / |d|` when the
    /// ray enters, and `ref_idx (d . n) / |d|` when it leaves.
    pub open spec fn cosine(&self, ray: &Ray, hit: &HitRecord) -> Fixed {
        let along = ray.direction.dot(&hit.normal);
        if self.exits(ray, hit) {
            self.ref_idx.mul(along).div(ray.direction.magnitude())
        } else {
            along.neg().div(ray.direction.magnitude())
        }
    }

    /// The refracted direction, if refraction is possible.
    pub open spec fn refracted(&self, ray: &Ray, hit: &HitRecord) -> Option<Vec3> {
        ray.direction.refract(&self.outward_normal(ray, hit), self.ni_over_nt(ray, hit))
    }

    /// The probability of reflection: Schlick's reflectance where
    /// refraction is possible, and one on total internal reflection.
    pub open spec fn reflect_prob(&self, ray: &Ray, hit: &HitRecord) -> Fixed {
        if self.refracted(ray, hit) is Some {
            schlick(self.cosine(ray, hit), self.ref_idx)
        } else {
            Fixed::one()
        }
    }

    /// The scattering off a clear surface, given the random fraction
    /// `coin`: the reflected ray if `coin` is below the probability of
    /// reflection or refraction is impossible, else the refracted ray.
    /// Nothing is absorbed: the attenuation is `(1, 1, 1)`.
    pub open spec fn spec_scatter_with(&self, ray: &Ray, hit: &HitRecord, coin: Fixed) -> Option<
        (Ray, Vec3),
    > {
        let direction = match self.refracted(ray, hit) {
            Some(refracted) => if coin.raw < self.reflect_prob(ray, hit).raw {
                ray.direction.reflect(&hit.normal)
            } else {
                refracted
            },
            None => ray.direction.reflect(&hit.normal),
        };
        Some((Ray { origin: hit.point, direction }, Vec3::from_ints(1, 1, 1)))
    }

    /// Scatters the ray with the random fraction `coin`.  Always scatters.
    #[verifier::when_used_as_spec(spec_scatter_with)]
    pub fn scatter_with(&self, ray: &Ray, hit: &HitRecord, coin: Fixed) -> (r: Option<(Ray, Vec3)>)
        ensures
            r == self.spec_scatter_with(ray, hit, coin),
            r is Some,
    {
        let reflected = ray.direction.reflect(&hit.normal);
        let attenuation = Vec3::from_ints(1, 1, 1);
        let along = ray.direction.dot(&hit.normal);
        let (outward_normal, ni_over_nt, cosine) = if along.raw > 0 {
            let cosine = self.ref_idx.mul(along).div(ray.direction.magnitude());
            (hit.normal.neg(), self.ref_idx, cosine)
        } else {
            let cosine = along.neg().div(ray.direction.magnitude());
            (hit.normal, Fixed::one().div(self.ref_idx), cosine)
        };
        match ray.direction.refract(&outward_normal, ni_over_nt) {
            Some(refracted) => {
                let reflect_prob = schlick(cosine, self.ref_idx);
                if coin.raw < reflect_prob.raw {
                    Some((Ray::new(hit.point, reflected), attenuation))
                } else {
                    Some((Ray::new(hit.point, refracted), attenuation))
                }
            },
            None => Some((Ray::new(hit.point, reflected), attenuation)),
        }
    }

    /// Reflects or refracts the ray at random: draws a fraction and
    /// scatters with it.
    pub fn scatter(&self, ray: &Ray, hit: &HitRecord, rng: &mut StdRng) -> (r: Option<(Ray, Vec3)>)
        ensures
            r is Some,
            exists|coin: Fixed|
                is_fraction(coin) && r == #[trigger] self.spec_scatter_with(ray, hit, coin),
    {
        let coin = slow_get_double(rng);
        self.scatter_with(ray, hit, coin)
    }
}

/// The fifth power of `x`, multiplied out from the left.
pub open spec fn fifth_power(x: Fixed) -> Fixed {
    x.mul(x).mul(x).mul(x).mul(x)
}

/// Schlick's approximation of the reflectance of a clear surface:
/// `r0 + (1 - r0) (1 - cosine)^5`, where `r0 = ((1 - n) / (1 + n))^2` and
/// `n` is `ref_idx`.
pub open spec fn spec_schlick(cosine: Fixed, ref_idx: Fixed) -> Fixed {
    let ratio = Fixed::one().sub(ref_idx).div(Fixed::one().add(ref_idx));
    let r0 = ratio.mul(ratio);
    r0.add(Fixed::one().sub(r0).mul(fifth_power(Fixed::one().sub(cosine))))
}

/// Computes Schlick's approximation of the reflectance.
#[verifier::when_used_as_spec(spec_schlick)]
pub fn schlick(cosine: Fixed, ref_idx: Fixed) -> (r: Fixed)
    ensures
        r == spec_schlick(cosine, ref_idx),
{
    let ratio = Fixed::one().sub(ref_idx).div(Fixed::one().add(ref_idx));
    let r0 = ratio.mul(ratio);
    let cos_flip = Fixed::one().sub(cosine);
    let fifth = cos_flip.mul(cos_flip).mul(cos_flip).mul(cos_flip).mul(cos_flip);
    r0.add(Fixed::one().sub(r0).mul(fifth))
}

/// Draws a fraction in `[0, 1)`.
pub fn slow_get_double(rng: &mut StdRng) -> (r: Fixed)
    ensures
        is_fraction(r),
{
    random_fraction(rng)
}

impl DiffuseLight {
    /// The light whose radiance is given by `emit`.
    pub fn new(emit: Texture) -> (r: DiffuseLight)
        ensures
            r.emit == emit,
    {
        DiffuseLight { emit }
    }

    /// A light absorbs every ray.
    pub fn scatter(&self, ray: &Ray, hit: &HitRecord) -> (r: Option<(Ray, Vec3)>)
        ensures
            r is None,
    {
        None
    }

    /// The radiance of the light at a point: the value of its texture.
    pub open spec fn spec_emitted(&self, u: Fixed, v: Fixed, point: Vec3) -> Vec3 {
        self.emit.value(u, v, point)
    }

    /// Looks up the radiance that the light emits at a point.
    #[verifier::when_used_as_spec(spec_emitted)]
    pub fn emitted(&self, u: Fixed, v: Fixed, point: Vec3) -> (r: Vec3)
        ensures
            r == self.spec_emitted(u, v, point),
    {
        self.emit.value(u, v, point)
    }
}

/// The random numbers that one scattering may use.
#[derive(Clone, Copy, Debug, PartialEq, Eq, Structural)]
pub struct Draw {
    /// A point of the unit ball, used by matte and metal surfaces.
    pub bounce: Vec3,
    /// A fraction, used by clear surfaces.
    pub coin: Fixed,
}

impl Draw {
    /// Whether the point lies in the unit ball and the coin is a fraction.
    pub open spec fn wf(&self) -> bool {
        in_unit_ball(self.bounce) && is_fraction(self.coin)
    }
}

impl Material {
    /// The scattering off the material, given the random numbers `draw`:
    /// the scattered ray and its attenuation, or `None` if the ray is
    /// absorbed.
    pub open spec fn spec_scatter_with(&self, ray: &Ray, hit: &HitRecord, draw: &Draw) -> Option<
        (Ray, Vec3),
    > {
        match self {
            Material::Lambertian(m) => m.scatter_with(ray, hit, draw.bounce),
            Material::Metal(m) => m.scatter_with(ray, hit, draw.bounce),
            Material::Dielectric(m) => m.scatter_with(ray, hit, draw.coin),
            Material::DiffuseLight(m) => None,
        }
    }

    /// Scatters the ray with the random numbers `draw`.
    #[verifier::when_used_as_spec(spec_scatter_with)]
    pub fn scatter_with(&self, ray: &Ray, hit: &HitRecord, draw: &Draw) -> (r: Option<(Ray, Vec3)>)
        ensures
            r == self.spec_scatter_with(ray, hit, draw),
    {
        match self {
            Material::Lambertian(m) => m.scatter_with(ray, hit, draw.bounce),
            Material::Metal(m) => m.scatter_with(ray, hit, draw.bounce),
            Material::Dielectric(m) => m.scatter_with(ray, hit, draw.coin),
            Material::DiffuseLight(m) => m.scatter(ray, hit),
        }
    }

    /// Scatters the ray at random, drawing from `rng` what the material
    /// needs: a point of the unit ball for matte and metal surfaces, a
    /// fraction for clear ones, nothing for lights.
    pub fn scatter(&self, ray: &Ray, hit: &HitRecord, rng: &mut StdRng) -> (r: Option<(Ray, Vec3)>)
        ensures
            exists|draw: Draw| draw.wf() && r == #[trigger] self.spec_scatter_with(ray, hit, &draw),
            self is Lambertian || self is Dielectric ==> r is Some,
            self is DiffuseLight ==> r is None,
    {
        match self {
            Material::Lambertian(m) => {
                let bounce = random_point_in_unit_sphere(rng);
                let r = m.scatter_with(ray, hit, bounce);
                assert(r == self.spec_scatter_with(ray, hit, &Draw { bounce, coin: Fixed::zero() }));
                r
            },
            Material::Metal(m) => {
                let bounce = random_point_in_unit_sphere(rng);
                let r = m.scatter_with(ray, hit, bounce);
                assert(r == self.spec_scatter_with(ray, hit, &Draw { bounce, coin: Fixed::zero() }));
                r
            },
            Material::Dielectric(m) => {
                let coin = slow_get_double(rng);
                let r = m.scatter_with(ray, hit, coin);
                proof {
                    let draw = Draw { bounce: Vec3::from_ints(0, 0, 0), coin };
                    lemma_centre_in_unit_ball();
                    assert(draw.wf());
                    assert(r == self.spec_scatter_with(ray, hit, &draw));
                }
                r
            },
            Material::DiffuseLight(m) => {
                proof {
                    let draw = Draw { bounce: Vec3::from_ints(0, 0, 0), coin: Fixed::zero() };
                    lemma_centre_in_unit_ball();
                    assert(draw.wf());
                    assert(None::<(Ray, Vec3)> == self.spec_scatter_with(ray, hit, &draw));
                }
                m.scatter(ray, hit)
            },
        }
    }

    /// The radiance that the material emits at a point: the value of a
    /// light's texture, and black for every other material.
    pub open spec fn spec_emitted(&self, u: Fixed, v: Fixed, point: Vec3) -> Vec3 {
        match self {
            Material::DiffuseLight(m) => m.emitted(u, v, point),
            _ => Vec3::from_ints(0, 0, 0),
        }
    }

    /// Looks up the radiance that the material emits at a point.
    #[verifier::when_used_as_spec(spec_emitted)]
    pub fn emitted(&self, u: Fixed, v: Fixed, point: Vec3) -> (r: Vec3)
        ensures
            r == self.spec_emitted(u, v, point),
    {
        match self {
            Material::DiffuseLight(m) => m.emitted(u, v, point),
            _ => Vec3::from_ints(0, 0, 0),
        }
    }
}

/// A metal without fuzz is a perfect mirror: whatever the random point,
/// the scattered direction is the mirror image `u - 2 (u . n) n` of the
/// unit incident direction `u` about the normal `n`, and the ray is
/// scattered along it exactly when it points away from the surface.
pub proof fn lemma_polished_metal(metal: &Metal, ray: &Ray, hit: &HitRecord, bounce: Vec3)
    requires
        metal.fuzz.raw == 0,
    ensures
        metal.scattered_direction(ray, hit, bounce) == ray.direction.make_unit_vector().reflect(
            &hit.normal,
        ),
        metal.spec_scatter_with(ray, hit, bounce) == if ray.direction.make_unit_vector().reflect(
            &hit.normal,
        ).dot(&hit.normal).raw > 0 {
            Some(
                (
                    Ray {
                        origin: hit.point,
                        direction: ray.direction.make_unit_vector().reflect(&hit.normal),
                    },
                    metal.albedo,
                ),
            )
        } else {
            None
        },
{
    assert(bounce.x.raw * 0 == 0 && bounce.y.raw * 0 == 0 && bounce.z.raw * 0 == 0);
    assert(bounce.scale(metal.fuzz) == Vec3 {
        x: Fixed { raw: 0 },
        y: Fixed { raw: 0 },
        z: Fixed { raw: 0 },
    });
}

/// A clear material with the refractive index one does not bend the ray.
///
/// Where the ray meets the surface at no more than 60 degrees from the
/// normal, and the coin decides for refraction, the ray goes on from the
/// hit point, unattenuated, in its unit incident direction up to three
/// units in the last place of each component.
pub proof fn lemma_index_one_keeps_direction(
    glass: &Dielectric,
    ray: &Ray,
    hit: &HitRecord,
    coin: Fixed,
)
    requires
        glass.ref_idx == Fixed::one(),
        within(hit.normal, SCALE as int),
        within(ray.direction.make_unit_vector(), reflect_limit()),
        -SCALE <= ray.direction.make_unit_vector().dot(&glass.outward_normal(ray, hit)).raw <= -(
        SCALE / 2),
        coin.raw >= glass.reflect_prob(ray, hit).raw,
    ensures
        glass.spec_scatter_with(ray, hit, coin) matches Some((scattered, attenuation)) && {
            let u = ray.direction.make_unit_vector();
            &&& scattered.origin == hit.point
            &&& attenuation == Vec3::from_ints(1, 1, 1)
            &&& -3 <= scattered.direction.x.raw - u.x.raw <= 3
            &&& -3 <= scattered.direction.y.raw - u.y.raw <= 3
            &&& -3 <= scattered.direction.z.raw - u.z.raw <= 3
        },
{
    let one = Fixed::one();
    lemma_div_one(one);
    assert(glass.ni_over_nt(ray, hit) == one);
    lemma_refract_index_one(ray.direction, glass.outward_normal(ray, hit));
}

} // verus!
