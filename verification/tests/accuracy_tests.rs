use pathtracer::fixed::Fixed;
use pathtracer::hittable::Sphere;
use pathtracer::material::Dielectric;
use pathtracer::material::Material;
use pathtracer::ray::Ray;
use pathtracer::vec3::Vec3;

const S: i128 = 1 << 24;

fn fx(x: f64) -> Fixed {
    Fixed::from_raw((x * 16777216.0).round() as i64)
}

fn v3(x: f64, y: f64, z: f64) -> Vec3 {
    Vec3::new(fx(x), fx(y), fx(z))
}

fn raw(x: Fixed) -> i128 {
    x.raw as i128
}

fn taxicab(v: Vec3) -> i128 {
    raw(v.x).abs() + raw(v.y).abs() + raw(v.z).abs()
}

fn exact_dot(v: Vec3, w: Vec3) -> i128 {
    raw(v.x) * raw(w.x) + raw(v.y) * raw(w.y) + raw(v.z) * raw(w.z)
}

fn glass() -> Material {
    Material::Dielectric(Dielectric::new(fx(1.5)))
}

struct Case {
    sphere: Sphere,
    ray: Ray,
}

fn cases() -> Vec<Case> {
    let origin = v3(13.0, 2.0, 3.0);
    let mut all = Vec::new();
    for (center, radius) in [
        (v3(0.0, 0.0, -1.0), 0.5),
        (v3(0.0, -1000.0, 0.0), 1000.0),
        (v3(4.0, 1.0, 0.0), 1.0),
        (v3(0.3, 0.2, -2.0), -0.2),
        (v3(-7.3, 0.2, 5.1), 0.2),
    ] {
        let mut k = 0;
        while k < 40 {
            let offset = v3((k as f64) * 0.017 - 0.3, (k as f64) * 0.009 - 0.2, 0.1);
            let toward = center.add(offset.scale(fx(radius))).sub(origin);
            // rays as the camera makes them: as long as the focus distance.
            let direction = toward.make_unit_vector().scale(fx(13.6));
            all.push(Case { sphere: Sphere::new(center, fx(radius), glass()), ray: Ray::new(origin, direction) });
            k += 1;
        }
    }
    all
}

#[test]
fn computed_roots_solve_the_equation_up_to_the_bound() {
    let mut checked = 0;
    for case in cases() {
        let oc = case.ray.origin.sub(case.sphere.center);
        let d = case.ray.direction;
        let a = d.squared_mag();
        let b = oc.dot(&d);
        let c = oc.squared_mag().sub(case.sphere.radius.mul(case.sphere.radius));
        let disc = b.mul(b).sub(a.mul(c));
        if disc.raw <= 0 {
            continue;
        }
        let s = disc.sqrt();
        let bound = S * S * (2 * raw(s) + 2 * S + 1) + raw(a) * (2 * S * raw(s) + raw(a));
        for t in [b.neg().sub(s).div(a), b.neg().add(s).div(a)] {
            let residual = raw(a) * raw(t) * raw(t) + 2 * raw(b) * S * raw(t) + raw(c) * S * S;
            assert!((raw(a) * residual).abs() < bound);
            // the residual is about one unit in the last place of the root times the
            // slope of the equation there, which is twice the root of the discriminant.
            let residual = residual as f64 / (S as f64).powi(3);
            let slope = 2.0 * raw(s) as f64 / S as f64;
            assert!(residual.abs() < (slope + 1.0) * 1e-6, "{} {}", residual, slope);
            checked += 1;
        }
    }
    assert!(checked > 200, "{}", checked);
}

#[test]
fn normal_length_is_within_the_bound() {
    let mut checked = 0;
    let mut worst: f64 = 0.0;
    for case in cases() {
        let hit = match case.sphere.hit(&case.ray, fx(0.001), Fixed::max_value()) {
            Some(hit) => hit,
            None => continue,
        };
        let t = hit.t;
        let r = raw(case.sphere.radius);
        let oc = case.ray.origin.sub(case.sphere.center);
        let d = case.ray.direction;
        let q = hit.point.sub(case.sphere.center);
        let a = d.squared_mag();
        let b = oc.dot(&d);
        let c = oc.squared_mag().sub(case.sphere.radius.mul(case.sphere.radius));
        let s = b.mul(b).sub(a.mul(c)).sqrt();

        let excess = r * r * (exact_dot(hit.normal, hit.normal) - S * S);
        let residual_bound = S * S * (2 * raw(s) + 2 * S + 1) + raw(a) * (2 * S * raw(s) + raw(a));
        let coefficient_error = 3 * S * raw(t) * raw(t) + 6 * S * S * raw(t).abs() + 4 * S * S * S;
        let point_error = S * (2 * (S * taxicab(oc) + raw(t).abs() * taxicab(d)) + 3 * S);
        let division_error = r.abs() * (2 * S * taxicab(q) + 3 * r.abs());
        let bound = S * residual_bound + raw(a) * (coefficient_error + point_error + division_error);
        assert!((raw(a) * excess).abs() < bound);

        // the bound is of the size of the rounding, not of the size of the normal.
        let scale = raw(a) as f64 * (r as f64) * (r as f64) * (S as f64) * (S as f64);
        let relative_bound = bound as f64 / scale;
        let relative_excess = (raw(a) * excess) as f64 / scale;
        assert!(relative_bound < 0.02, "{}", relative_bound);
        assert!(relative_excess.abs() < 2e-3, "{}", relative_excess);
        worst = worst.max(relative_excess.abs());
        checked += 1;
    }
    assert!(checked > 100, "{}", checked);
    assert!(worst > 0.0);
}
