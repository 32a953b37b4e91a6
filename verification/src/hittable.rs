//! Geometry: spheres, lists of shapes, and ray intersection.

use crate::fixed::lemma_div_monotonic;
use crate::fixed::lemma_sqrt;
use crate::fixed::Fixed;
use crate::material::Material;
use crate::ray::Ray;
use crate::vec3::lemma_squared_mag_nonnegative;
use crate::vec3::Vec3;
use vstd::prelude::*;

verus! {

/// Where and how a ray meets a surface.
#[derive(Clone, Copy, Debug)]
pub struct HitRecord<'a> {
    /// The ray parameter of the hit.
    pub t: Fixed,
    /// The point of the hit.
    pub point: Vec3,
    /// The surface normal at the point, of unit length up to rounding.
    pub normal: Vec3,
    /// The material of the surface.
    pub material: &'a Material,
}

/// A sphere.  A negative radius turns the normals inward, so that two
/// concentric spheres make a hollow shell.
#[derive(Debug)]
pub struct Sphere {
    pub center: Vec3,
    pub radius: Fixed,
    pub material: Material,
}

/// A list of shapes, hit where the nearest of them is hit.
#[derive(Debug)]
pub struct HittableList {
    pub list: Vec<Hittable>,
}

/// A shape that a ray can hit.
#[derive(Debug)]
pub enum Hittable {
    Sphere(Sphere),
    List(HittableList),
}

impl<'a> HitRecord<'a> {
    /// The record with the given fields.
    pub fn new(t: Fixed, point: Vec3, normal: Vec3, material: &'a Material) -> (r: HitRecord<'a>)
        ensures
            r == (HitRecord { t, point, normal, material }),
    {
        HitRecord { t, point, normal, material }
    }
}

impl Sphere {
    /// The sphere around `center` with the given radius and material.
    pub fn new(center: Vec3, radius: Fixed, material: Material) -> (r: Sphere)
        ensures
            r.center == center,
            r.radius == radius,
            r.material == material,
    {
        Sphere { center, radius, material }
    }

    /// The coefficient `a = d . d` of the intersection equation
    /// `a t^2 + 2 b t + c = 0`, where `d` is the ray's direction.
    pub open spec fn quadratic_a(&self, ray: &Ray) -> Fixed {
        ray.direction.squared_mag()
    }

    /// The coefficient `b = (o - center) . d`, where `o` is the ray's origin.
    pub open spec fn quadratic_b(&self, ray: &Ray) -> Fixed {
        ray.origin.sub(self.center).dot(&ray.direction)
    }

    /// The coefficient `c = |o - center|^2 - radius^2`.
    pub open spec fn quadratic_c(&self, ray: &Ray) -> Fixed {
        ray.origin.sub(self.center).squared_mag().sub(self.radius.mul(self.radius))
    }

    /// The discriminant `b^2 - a c`.
    pub open spec fn discriminant(&self, ray: &Ray) -> Fixed {
        let b = self.quadratic_b(ray);
        b.mul(b).sub(self.quadratic_a(ray).mul(self.quadratic_c(ray)))
    }

    /// The smaller root `(-b - sqrt(discriminant)) / a`.
    pub open spec fn near_root(&self, ray: &Ray) -> Fixed {
        self.quadratic_b(ray).neg().sub(self.discriminant(ray).sqrt()).div(self.quadratic_a(ray))
    }

    /// The larger root `(-b + sqrt(discriminant)) / a`.
    pub open spec fn far_root(&self, ray: &Ray) -> Fixed {
        self.quadratic_b(ray).neg().add(self.discriminant(ray).sqrt()).div(self.quadratic_a(ray))
    }

    /// The record of a hit at the ray parameter `t`: the point on the ray,
    /// and the normal `(point - center) / radius`.
    pub open spec fn record_at(&self, ray: &Ray, t: Fixed) -> HitRecord {
        let point = ray.point_at_parameter(t);
        HitRecord {
            t,
            point,
            normal: point.sub(self.center).div(self.radius),
            material: &self.material,
        }
    }

    /// The intersection of the ray with the sphere within the open interval
    /// `(t_min, t_max)`.
    ///
    /// There is none unless the discriminant is positive; a ray that only
    /// touches the sphere misses it.  Otherwise the smaller root is taken if
    /// it lies in the interval, else the larger root if that one does.
    pub open spec fn spec_hit(&self, ray: &Ray, t_min: Fixed, t_max: Fixed) -> Option<HitRecord> {
        if self.discriminant(ray).raw > 0 {
            let near = self.near_root(ray);
            let far = self.far_root(ray);
            if t_min.raw < near.raw < t_max.raw {
                Some(self.record_at(ray, near))
            } else if t_min.raw < far.raw < t_max.raw {
                Some(self.record_at(ray, far))
            } else {
                None
            }
        } else {
            None
        }
    }

    /// Intersects the ray with the sphere.
    #[verifier::when_used_as_spec(spec_hit)]
    pub fn hit(&self, ray: &Ray, t_min: Fixed, t_max: Fixed) -> (r: Option<HitRecord>)
        ensures
            r == self.spec_hit(ray, t_min, t_max),
            self.discriminant(ray).raw <= 0 ==> r is None,
            r matches Some(h) ==> t_min.raw < h.t.raw < t_max.raw,
    {
        let oc = ray.origin.sub(self.center);
        let a = ray.direction.squared_mag();
        let b = oc.dot(&ray.direction);
        let c = oc.squared_mag().sub(self.radius.mul(self.radius));
        let discriminant = b.mul(b).sub(a.mul(c));
        if discriminant.raw > 0 {
            let root = discriminant.sqrt();
            let near = b.neg().sub(root).div(a);
            if near.raw < t_max.raw && near.raw > t_min.raw {
                return Some(self.make_record(ray, near));
            }
            let far = b.neg().add(root).div(a);
            if far.raw < t_max.raw && far.raw > t_min.raw {
                return Some(self.make_record(ray, far));
            }
        }
        None
    }

    /// Builds the record of a hit at the ray parameter `t`.
    fn make_record(&self, ray: &Ray, t: Fixed) -> (r: HitRecord)
        ensures
            r == self.record_at(ray, t),
    {
        let point = ray.point_at_parameter(t);
        let normal = point.sub(self.center).div(self.radius);
        HitRecord::new(t, point, normal, &self.material)
    }
}

/// The upper end of the search interval once the hit `found` is known: its
/// parameter, or `t_max` when nothing has been hit yet.
pub open spec fn narrowed(found: Option<HitRecord>, t_max: Fixed) -> Fixed {
    match found {
        Some(h) => h.t,
        None => t_max,
    }
}

/// The nearest hit among the first `n` shapes of `items`, found in one pass:
/// each shape is tested against the interval that ends at the nearest hit
/// so far, so a later shape replaces an earlier one only if it is hit
/// strictly nearer.
pub open spec fn closest_upto(
    items: Seq<Hittable>,
    n: nat,
    ray: &Ray,
    t_min: Fixed,
    t_max: Fixed,
) -> Option<HitRecord>
    decreases items, n,
{
    if n == 0 || n > items.len() {
        None
    } else {
        let before = closest_upto(items, (n - 1) as nat, ray, t_min, t_max);
        match items[n - 1].spec_hit(ray, t_min, narrowed(before, t_max)) {
            Some(h) => Some(h),
            None => before,
        }
    }
}

impl HittableList {
    /// The empty list.
    pub fn new() -> (r: HittableList)
        ensures
            r.list@ == Seq::<Hittable>::empty(),
    {
        HittableList { list: Vec::new() }
    }

    /// Appends a shape.
    pub fn push(&mut self, item: Hittable)
        ensures
            final(self).list@ == old(self).list@.push(item),
    {
        self.list.push(item);
    }

    /// The nearest hit among the shapes of the list.
    pub open spec fn spec_hit(&self, ray: &Ray, t_min: Fixed, t_max: Fixed) -> Option<HitRecord>
        decreases self,
    {
        closest_upto(self.list@, self.list@.len(), ray, t_min, t_max)
    }

    /// Intersects the ray with every shape and keeps the nearest hit.
    ///
    /// There is a hit exactly if some shape is hit within `(t_min, t_max)`.
    /// It is the hit of one of the shapes; no shape is hit nearer, and no
    /// shape before that one is hit as near.
    #[verifier::when_used_as_spec(spec_hit)]
    pub fn hit(&self, ray: &Ray, t_min: Fixed, t_max: Fixed) -> (r: Option<HitRecord>)
        ensures
            r == self.spec_hit(ray, t_min, t_max),
            r is None <==> (forall|j: int|
                0 <= j < self.list@.len() ==> (#[trigger] self.list@[j].spec_hit(
                    ray,
                    t_min,
                    t_max,
                )) is None),
            r matches Some(h) ==> t_min.raw < h.t.raw < t_max.raw && exists|i: int|
                {
                    &&& 0 <= i < self.list@.len()
                    &&& (#[trigger] self.list@[i].spec_hit(ray, t_min, t_max)) == Some(h)
                    &&& forall|j: int|
                        0 <= j < self.list@.len() ==> ((#[trigger] self.list@[j].spec_hit(
                            ray,
                            t_min,
                            t_max,
                        )) matches Some(other) ==> h.t.raw <= other.t.raw && (j < i ==> h.t.raw
                            < other.t.raw))
                },
        decreases self,
    {
        let mut to_return: Option<HitRecord> = None;
        let mut closest_found = t_max;
        let mut i: usize = 0;
        while i < self.list.len()
            invariant
                i <= self.list@.len(),
                to_return == closest_upto(self.list@, i as nat, ray, t_min, t_max),
                closest_found == narrowed(to_return, t_max),
            decreases self.list@.len() - i,
        {
            if let Some(hit) = self.list[i].hit(ray, t_min, closest_found) {
                closest_found = hit.t;
                to_return = Some(hit);
            }
            i += 1;
        }
        proof {
            let at = lemma_closest_is_nearest(self.list@, self.list@.len(), ray, t_min, t_max);
            lemma_closest_narrows(self.list@, self.list@.len(), ray, t_min, t_max, t_max);
            if to_return is Some {
                assert(self.list@[at as int].spec_hit(ray, t_min, t_max) == to_return);
            }
        }
        to_return
    }
}

impl Hittable {
    /// The intersection of the ray with the shape within `(t_min, t_max)`.
    pub open spec fn spec_hit(&self, ray: &Ray, t_min: Fixed, t_max: Fixed) -> Option<HitRecord>
        decreases self,
    {
        match self {
            Hittable::Sphere(s) => s.spec_hit(ray, t_min, t_max),
            Hittable::List(l) => l.spec_hit(ray, t_min, t_max),
        }
    }

    /// Intersects the ray with the shape.  A hit lies strictly inside the
    /// interval `(t_min, t_max)`.
    #[verifier::when_used_as_spec(spec_hit)]
    pub fn hit(&self, ray: &Ray, t_min: Fixed, t_max: Fixed) -> (r: Option<HitRecord>)
        ensures
            r == self.spec_hit(ray, t_min, t_max),
            r matches Some(h) ==> t_min.raw < h.t.raw < t_max.raw,
        decreases self,
    {
        proof {
            lemma_hit_narrows(self, ray, t_min, t_max, t_max);
        }
        match self {
            Hittable::Sphere(s) => s.hit(ray, t_min, t_max),
            Hittable::List(l) => l.hit(ray, t_min, t_max),
        }
    }
}

/// The hit `found` if it lies before `bound`, and no hit otherwise.
pub open spec fn before(found: Option<HitRecord>, bound: Fixed) -> Option<HitRecord> {
    match found {
        Some(h) => if h.t.raw < bound.raw {
            found
        } else {
            None
        },
        None => None,
    }
}

/// The smaller root of a sphere's intersection equation does not exceed the
/// larger one.
pub proof fn lemma_roots_ordered(sphere: &Sphere, ray: &Ray)
    ensures
        sphere.near_root(ray).raw <= sphere.far_root(ray).raw,
{
    let a = sphere.quadratic_a(ray);
    let b = sphere.quadratic_b(ray);
    let root = sphere.discriminant(ray).sqrt();
    lemma_squared_mag_nonnegative(ray.direction);
    lemma_sqrt(sphere.discriminant(ray));
    lemma_div_monotonic(b.neg().sub(root), b.neg().add(root), a);
}

/// Shortening the search interval of a sphere from `t_max` to `bound`
/// keeps the hit if it lies before `bound` and drops it otherwise.
pub proof fn lemma_sphere_hit_narrows(
    sphere: &Sphere,
    ray: &Ray,
    t_min: Fixed,
    t_max: Fixed,
    bound: Fixed,
)
    requires
        bound.raw <= t_max.raw,
    ensures
        sphere.spec_hit(ray, t_min, bound) == before(sphere.spec_hit(ray, t_min, t_max), bound),
{
    lemma_roots_ordered(sphere, ray);
}

/// Two facts about every shape.  A hit lies strictly inside the search
/// interval.  And shortening the interval from `t_max` to `bound` keeps the
/// hit if it lies before `bound` and drops it otherwise.
pub proof fn lemma_hit_narrows(
    shape: &Hittable,
    ray: &Ray,
    t_min: Fixed,
    t_max: Fixed,
    bound: Fixed,
)
    requires
        bound.raw <= t_max.raw,
    ensures
        shape.spec_hit(ray, t_min, t_max) matches Some(h) ==> t_min.raw < h.t.raw < t_max.raw,
        shape.spec_hit(ray, t_min, bound) == before(shape.spec_hit(ray, t_min, t_max), bound),
    decreases shape, 0nat,
{
    match shape {
        Hittable::Sphere(s) => {
            lemma_sphere_hit_narrows(s, ray, t_min, t_max, bound);
        },
        Hittable::List(l) => {
            lemma_closest_narrows(l.list@, l.list@.len(), ray, t_min, t_max, bound);
        },
    }
}

/// The two facts of [`lemma_hit_narrows`], for the nearest hit among the
/// first `n` shapes of a sequence.
pub proof fn lemma_closest_narrows(
    items: Seq<Hittable>,
    n: nat,
    ray: &Ray,
    t_min: Fixed,
    t_max: Fixed,
    bound: Fixed,
)
    requires
        n <= items.len(),
        bound.raw <= t_max.raw,
    ensures
        closest_upto(items, n, ray, t_min, t_max) matches Some(h) ==> t_min.raw < h.t.raw
            < t_max.raw,
        closest_upto(items, n, ray, t_min, bound) == before(
            closest_upto(items, n, ray, t_min, t_max),
            bound,
        ),
    decreases items, n,
{
    if n > 0 {
        let m = (n - 1) as nat;
        lemma_closest_narrows(items, m, ray, t_min, t_max, bound);
        let wide = closest_upto(items, m, ray, t_min, t_max);
        let tight = closest_upto(items, m, ray, t_min, bound);
        lemma_hit_narrows(&items[n - 1], ray, t_min, t_max, narrowed(wide, t_max));
        lemma_hit_narrows(&items[n - 1], ray, t_min, t_max, narrowed(tight, bound));
    }
}

/// The hit that a list reports is the nearest hit of its shapes, and among
/// equally near hits the one of the shape that comes first.
///
/// If any of the first `n` shapes is hit within `(t_min, t_max)`, the
/// result is the hit of the shape at the returned index; no shape is hit
/// nearer, and no earlier shape is hit as near.  If none is hit, there is
/// no result.
pub proof fn lemma_closest_is_nearest(
    items: Seq<Hittable>,
    n: nat,
    ray: &Ray,
    t_min: Fixed,
    t_max: Fixed,
) -> (i: nat)
    requires
        n <= items.len(),
    ensures
        closest_upto(items, n, ray, t_min, t_max) is None <==> (forall|j: int|
            0 <= j < n ==> (#[trigger] items[j].spec_hit(ray, t_min, t_max)) is None),
        closest_upto(items, n, ray, t_min, t_max) matches Some(h) ==> {
            &&& i < n
            &&& items[i as int].spec_hit(ray, t_min, t_max) == Some(h)
            &&& forall|j: int|
                0 <= j < n ==> ((#[trigger] items[j].spec_hit(ray, t_min, t_max)) matches Some(
                    other,
                ) ==> h.t.raw <= other.t.raw && (j < i ==> h.t.raw < other.t.raw))
        },
    decreases n,
{
    if n == 0 {
        0
    } else {
        let m = (n - 1) as nat;
        let earlier = lemma_closest_is_nearest(items, m, ray, t_min, t_max);
        let found = closest_upto(items, m, ray, t_min, t_max);
        lemma_closest_narrows(items, m, ray, t_min, t_max, t_max);
        lemma_hit_narrows(&items[n - 1], ray, t_min, t_max, narrowed(found, t_max));
        if items[n - 1].spec_hit(ray, t_min, narrowed(found, t_max)) is Some {
            m
        } else {
            earlier
        }
    }
}

} // verus!
