use pathtracer::fixed::Fixed;
use pathtracer::hittable::HitRecord;
use pathtracer::material::schlick;
use pathtracer::material::slow_get_double;
use pathtracer::material::Dielectric;
use pathtracer::material::DiffuseLight;
use pathtracer::material::Draw;
use pathtracer::material::Lambertian;
use pathtracer::material::Material;
use pathtracer::material::Metal;
use pathtracer::ray::Ray;
use pathtracer::texture::CheckerTexture;
use pathtracer::texture::ConstantTexture;
use pathtracer::texture::Texture;
use pathtracer::vec3::Vec3;
use rand::rngs::StdRng;
use rand::SeedableRng;

fn fx(x: f64) -> Fixed {
    Fixed::from_raw((x * 16777216.0).round() as i64)
}

fn v3(x: f64, y: f64, z: f64) -> Vec3 {
    Vec3::new(fx(x), fx(y), fx(z))
}

fn to_f64(x: Fixed) -> f64 {
    x.raw as f64 / 16777216.0
}

fn constant(r: f64, g: f64, b: f64) -> Texture {
    Texture::Constant(ConstantTexture::new(v3(r, g, b)))
}

fn placeholder() -> Material {
    Material::Dielectric(Dielectric::new(fx(1.0)))
}

#[test]
fn lambertian_scatters_toward_normal_plus_bounce() {
    let m = Lambertian::new(constant(0.8, 0.3, 0.3));
    let holder = placeholder();
    let hit = HitRecord::new(fx(0.5), v3(0.0, 0.0, -0.5), v3(0.0, 0.0, 1.0), &holder);
    let ray = Ray::new(v3(0.0, 0.0, 0.0), v3(0.0, 0.0, -1.0));
    let (scattered, attenuation) = m.scatter_with(&ray, &hit, v3(0.25, -0.5, 0.125)).unwrap();
    assert_eq!(scattered.origin, v3(0.0, 0.0, -0.5));
    assert_eq!(scattered.direction, v3(0.25, -0.5, 1.125));
    assert_eq!(attenuation, v3(0.8, 0.3, 0.3));
}

#[test]
fn lambertian_samples_its_texture_at_the_hit_point() {
    let checker = Texture::Checker(CheckerTexture::new(
        constant(0.2, 0.3, 0.1),
        constant(0.9, 0.9, 0.9),
    ));
    let m = Lambertian::new(checker);
    let holder = placeholder();
    let ray = Ray::new(v3(0.0, 5.0, 0.0), v3(0.0, -1.0, 0.0));
    let even = HitRecord::new(fx(5.0), v3(0.1, 0.1, 0.1), v3(0.0, 1.0, 0.0), &holder);
    let odd = HitRecord::new(fx(5.0), v3(-0.1, 0.1, 0.1), v3(0.0, 1.0, 0.0), &holder);
    assert_eq!(m.scatter_with(&ray, &even, v3(0.0, 0.0, 0.0)).unwrap().1, v3(0.9, 0.9, 0.9));
    assert_eq!(m.scatter_with(&ray, &odd, v3(0.0, 0.0, 0.0)).unwrap().1, v3(0.2, 0.3, 0.1));
}

#[test]
fn lambertian_always_scatters_from_the_hit_point() {
    let m = Lambertian::new(constant(0.5, 0.5, 0.5));
    let holder = placeholder();
    let hit = HitRecord::new(fx(1.0), v3(1.0, 2.0, 3.0), v3(0.0, 1.0, 0.0), &holder);
    let ray = Ray::new(v3(1.0, 3.0, 3.0), v3(0.0, -1.0, 0.0));
    let mut rng = StdRng::seed_from_u64(7);
    for _ in 0..200 {
        let (scattered, attenuation) = m.scatter(&ray, &hit, &mut rng).unwrap();
        assert_eq!(scattered.origin, v3(1.0, 2.0, 3.0));
        assert_eq!(attenuation, v3(0.5, 0.5, 0.5));
        // the direction is the normal plus a point of the unit ball.
        let bounce = scattered.direction.sub(v3(0.0, 1.0, 0.0));
        assert!(to_f64(bounce.squared_mag()) < 1.0 + 1e-6);
    }
}

#[test]
fn metal_new_clamps_fuzz() {
    assert_eq!(Metal::new(v3(0.5, 0.5, 0.5), fx(0.25)).fuzz, fx(0.25));
    assert_eq!(Metal::new(v3(0.5, 0.5, 0.5), fx(1.0)).fuzz, fx(1.0));
    assert_eq!(Metal::new(v3(0.5, 0.5, 0.5), fx(1.5)).fuzz, fx(1.0));
    assert_eq!(Metal::new(v3(0.5, 0.5, 0.5), fx(100.0)).fuzz, fx(1.0));
    assert_eq!(Metal::new(v3(0.5, 0.5, 0.5), fx(0.0)).fuzz, fx(0.0));
    assert_eq!(Metal::new(v3(0.5, 0.5, 0.5), fx(-0.5)).fuzz, fx(0.0));
    assert_eq!(Metal::new(v3(0.7, 0.6, 0.5), fx(0.1)).albedo, v3(0.7, 0.6, 0.5));
}

#[test]
fn polished_metal_reflects_exactly() {
    let m = Metal::new(v3(0.7, 0.6, 0.5), fx(0.0));
    let holder = placeholder();
    let n = v3(0.0, 1.0, 0.0);
    let hit = HitRecord::new(fx(2.0), v3(3.0, 0.0, 0.0), n, &holder);
    let ray = Ray::new(v3(0.0, 4.0, 0.0), v3(3.0, -4.0, 0.0));
    let expected = ray.direction.make_unit_vector().reflect(&n);
    for bounce in [v3(0.0, 0.0, 0.0), v3(0.5, 0.5, 0.5), v3(-0.9, 0.1, 0.2)] {
        let (scattered, attenuation) = m.scatter_with(&ray, &hit, bounce).unwrap();
        assert_eq!(scattered.origin, v3(3.0, 0.0, 0.0));
        assert_eq!(scattered.direction, expected);
        assert_eq!(attenuation, v3(0.7, 0.6, 0.5));
    }
    // the closed form v - 2 (v . n) n for the unit direction (0.6, -0.8, 0).
    assert_eq!(expected.x.raw, 10_066_329);
    assert_eq!(expected.y.raw, 13_421_772);
    assert_eq!(expected.z.raw, 0);
    let mut rng = StdRng::seed_from_u64(1);
    for _ in 0..20 {
        assert_eq!(m.scatter(&ray, &hit, &mut rng).unwrap().0.direction, expected);
    }
}

#[test]
fn fuzzy_metal_adds_the_scaled_bounce() {
    let m = Metal::new(v3(0.7, 0.6, 0.5), fx(0.5));
    let holder = placeholder();
    let n = v3(0.0, 1.0, 0.0);
    let hit = HitRecord::new(fx(2.0), v3(0.0, 0.0, 0.0), n, &holder);
    let ray = Ray::new(v3(0.0, 2.0, 0.0), v3(0.0, -2.0, 0.0));
    let (scattered, _) = m.scatter_with(&ray, &hit, v3(0.5, 0.25, -0.5)).unwrap();
    assert_eq!(scattered.direction, v3(0.25, 1.125, -0.25));
}

#[test]
fn metal_absorbs_what_points_into_the_surface() {
    let m = Metal::new(v3(0.7, 0.6, 0.5), fx(1.0));
    let holder = placeholder();
    let n = v3(0.0, 1.0, 0.0);
    let hit = HitRecord::new(fx(1.0), v3(0.0, 0.0, 0.0), n, &holder);
    // grazing: the reflection barely leaves the surface, the bounce pushes it in.
    let ray = Ray::new(v3(-1.0, 0.125, 0.0), v3(1.0, -0.125, 0.0));
    assert!(m.scatter_with(&ray, &hit, v3(0.0, -0.5, 0.0)).is_none());
    assert!(m.scatter_with(&ray, &hit, v3(0.0, 0.5, 0.0)).is_some());
    // a ray that comes from below is reflected downward: absorbed.
    let from_below = Ray::new(v3(0.0, -1.0, 0.0), v3(0.0, 1.0, 0.0));
    assert!(m.scatter_with(&from_below, &hit, v3(0.0, 0.0, 0.0)).is_none());
    // exactly along the surface: the dot product is zero, which is not positive.
    let polished = Metal::new(v3(0.7, 0.6, 0.5), fx(0.0));
    let along = Ray::new(v3(-1.0, 0.0, 0.0), v3(1.0, 0.0, 0.0));
    assert!(polished.scatter_with(&along, &hit, v3(0.0, 0.0, 0.0)).is_none());
}

#[test]
fn schlick_reflectance() {
    // head on (cosine 1): r0 = ((1 - 1.5) / (1 + 1.5))^2 = 0.04
    assert!((to_f64(schlick(fx(1.0), fx(1.5))) - 0.04).abs() < 1e-6);
    // grazing (cosine 0): everything is reflected.
    assert!((to_f64(schlick(fx(0.0), fx(1.5))) - 1.0).abs() < 1e-6);
    // cosine 0.5: 0.04 + 0.96 / 32 = 0.07
    assert!((to_f64(schlick(fx(0.5), fx(1.5))) - 0.07).abs() < 1e-6);
    // equal indices: r0 = 0, the reflectance is (1 - cosine)^5.
    assert_eq!(schlick(fx(1.0), fx(1.0)), fx(0.0));
    assert_eq!(schlick(fx(0.5), fx(1.0)), fx(0.03125));
    assert_eq!(schlick(fx(0.0), fx(1.0)), fx(1.0));
}

#[test]
fn dielectric_attenuation_is_white() {
    let m = Dielectric::new(fx(1.5));
    let holder = placeholder();
    let hit = HitRecord::new(fx(1.0), v3(0.0, 0.0, 0.0), v3(0.0, 1.0, 0.0), &holder);
    let ray = Ray::new(v3(-1.0, 1.0, 0.0), v3(1.0, -1.0, 0.0));
    for coin in [fx(0.0), fx(0.01), fx(0.5), fx(0.999)] {
        let (scattered, attenuation) = m.scatter_with(&ray, &hit, coin).unwrap();
        assert_eq!(attenuation, v3(1.0, 1.0, 1.0));
        assert_eq!(scattered.origin, v3(0.0, 0.0, 0.0));
    }
}

#[test]
fn dielectric_reflects_below_the_threshold_and_refracts_above() {
    let m = Dielectric::new(fx(1.5));
    let holder = placeholder();
    let n = v3(0.0, 1.0, 0.0);
    let hit = HitRecord::new(fx(1.0), v3(0.0, 0.0, 0.0), n, &holder);
    let ray = Ray::new(v3(-1.0, 1.0, 0.0), v3(1.0, -1.0, 0.0));
    // entering at 45 degrees: cosine 0.7071, reflectance 0.04 + 0.96 * 0.2929^5 = 0.04207
    let prob = to_f64(schlick(ray.direction.dot(&n).neg().div(ray.direction.magnitude()), fx(1.5)));
    assert!((prob - 0.04207).abs() < 1e-4);
    let reflected = ray.direction.reflect(&n);
    let refracted = ray.direction.refract(&n, Fixed::one().div(fx(1.5))).unwrap();
    assert_eq!(reflected, v3(1.0, 1.0, 0.0));
    assert_eq!(m.scatter_with(&ray, &hit, fx(0.0)).unwrap().0.direction, reflected);
    assert_eq!(m.scatter_with(&ray, &hit, fx(0.04)).unwrap().0.direction, reflected);
    assert_eq!(m.scatter_with(&ray, &hit, fx(0.05)).unwrap().0.direction, refracted);
    assert_eq!(m.scatter_with(&ray, &hit, fx(0.99)).unwrap().0.direction, refracted);
    // the refracted ray bends toward the normal.
    assert!(refracted.y.raw < 0);
    let sin_out = to_f64(refracted.x);
    assert!((sin_out - (0.5f64).sqrt() / 1.5).abs() < 1e-5);
}

#[test]
fn dielectric_reflects_totally_from_inside() {
    let m = Dielectric::new(fx(1.5));
    let holder = placeholder();
    let n = v3(0.0, 1.0, 0.0);
    let hit = HitRecord::new(fx(1.0), v3(0.0, 0.0, 0.0), n, &holder);
    // leaving the glass at 60 degrees from the normal: 1.5 sin(60) > 1.
    let ray = Ray::new(v3(-0.866, -0.5, 0.0), v3(0.866, 0.5, 0.0));
    let reflected = ray.direction.reflect(&n);
    for coin in [fx(0.0), fx(0.5), fx(0.999)] {
        assert_eq!(m.scatter_with(&ray, &hit, coin).unwrap().0.direction, reflected);
    }
    let mut rng = StdRng::seed_from_u64(3);
    for _ in 0..50 {
        assert_eq!(m.scatter(&ray, &hit, &mut rng).unwrap().0.direction, reflected);
    }
}

#[test]
fn dielectric_of_index_one_does_not_bend_the_ray() {
    let m = Dielectric::new(fx(1.0));
    let holder = placeholder();
    let n = v3(0.0, 0.0, 1.0);
    let hit = HitRecord::new(fx(1.0), v3(0.0, 0.0, 0.0), n, &holder);
    // head on: exact.
    let ray = Ray::new(v3(0.0, 0.0, 5.0), v3(0.0, 0.0, -5.0));
    assert_eq!(m.scatter_with(&ray, &hit, fx(0.5)).unwrap().0.direction, v3(0.0, 0.0, -1.0));
    // slanted, entering and leaving: within three units in the last place.
    for direction in [v3(0.3, 0.2, -1.0), v3(-0.5, 0.1, -0.7), v3(0.3, 0.2, 1.0), v3(0.1, -0.6, 0.9)]
    {
        let slanted = Ray::new(v3(0.0, 0.0, 0.0).sub(direction), direction);
        let unit = direction.make_unit_vector();
        let out = m.scatter_with(&slanted, &hit, fx(0.999)).unwrap().0.direction;
        assert!((out.x.raw - unit.x.raw).abs() <= 3, "{:?} {:?}", out, unit);
        assert!((out.y.raw - unit.y.raw).abs() <= 3, "{:?} {:?}", out, unit);
        assert!((out.z.raw - unit.z.raw).abs() <= 3, "{:?} {:?}", out, unit);
    }
}

#[test]
fn diffuse_light_never_scatters_and_emits_its_texture() {
    let light = DiffuseLight::new(constant(4.0, 4.0, 2.0));
    let holder = placeholder();
    let hit = HitRecord::new(fx(1.0), v3(0.0, 0.0, 0.0), v3(0.0, 1.0, 0.0), &holder);
    let ray = Ray::new(v3(0.0, 1.0, 0.0), v3(0.0, -1.0, 0.0));
    assert!(light.scatter(&ray, &hit).is_none());
    assert_eq!(light.emitted(fx(0.3), fx(0.6), v3(1.0, 2.0, 3.0)), v3(4.0, 4.0, 2.0));
    let wrapped = Material::DiffuseLight(light);
    let mut rng = StdRng::seed_from_u64(5);
    assert!(wrapped.scatter(&ray, &hit, &mut rng).is_none());
    let draw = Draw { bounce: v3(0.1, 0.2, 0.3), coin: fx(0.5) };
    assert!(wrapped.scatter_with(&ray, &hit, &draw).is_none());
    assert_eq!(wrapped.emitted(fx(0.0), fx(0.0), v3(0.0, 0.0, 0.0)), v3(4.0, 4.0, 2.0));
}

#[test]
fn other_materials_emit_black() {
    let black = v3(0.0, 0.0, 0.0);
    let p = v3(1.0, 2.0, 3.0);
    let zero = Fixed::zero();
    assert_eq!(
        Material::Lambertian(Lambertian::new(constant(1.0, 1.0, 1.0))).emitted(zero, zero, p),
        black
    );
    assert_eq!(Material::Metal(Metal::new(v3(1.0, 1.0, 1.0), fx(0.0))).emitted(zero, zero, p), black);
    assert_eq!(Material::Dielectric(Dielectric::new(fx(1.5))).emitted(zero, zero, p), black);
}

#[test]
fn material_dispatches_to_its_variant() {
    let holder = placeholder();
    let n = v3(0.0, 1.0, 0.0);
    let hit = HitRecord::new(fx(1.0), v3(0.0, 0.0, 0.0), n, &holder);
    let ray = Ray::new(v3(-1.0, 1.0, 0.0), v3(1.0, -1.0, 0.0));
    let draw = Draw { bounce: v3(0.25, 0.25, 0.0), coin: fx(0.5) };

    let matte = Lambertian::new(constant(0.1, 0.2, 0.3));
    let expected = matte.scatter_with(&ray, &hit, draw.bounce);
    assert_eq!(Material::Lambertian(matte).scatter_with(&ray, &hit, &draw), expected);

    let metal = Metal::new(v3(0.7, 0.6, 0.5), fx(0.5));
    let expected = metal.scatter_with(&ray, &hit, draw.bounce);
    assert_eq!(Material::Metal(metal).scatter_with(&ray, &hit, &draw), expected);

    let glass = Dielectric::new(fx(1.5));
    let expected = glass.scatter_with(&ray, &hit, draw.coin);
    assert_eq!(Material::Dielectric(glass).scatter_with(&ray, &hit, &draw), expected);
}

#[test]
fn slow_get_double_is_a_fraction() {
    let mut rng = StdRng::seed_from_u64(11);
    let mut below_half = 0;
    for _ in 0..1000 {
        let x = slow_get_double(&mut rng);
        assert!(x.raw >= 0 && x.raw < (1 << 24));
        if x.raw < (1 << 23) {
            below_half += 1;
        }
    }
    assert!(below_half > 400 && below_half < 600);
}
