use pathtracer::camera::Camera;
use pathtracer::fixed::Fixed;
use pathtracer::vec3::Vec3;
use rand::rngs::StdRng;
use rand::SeedableRng;

fn fx(x: f64) -> Fixed {
    Fixed::from_raw((x * 16777216.0).round() as i64)
}

fn v3(x: f64, y: f64, z: f64) -> Vec3 {
    Vec3::new(fx(x), fx(y), fx(z))
}

fn to_f64(x: Fixed) -> f64 {
    x.raw as f64 / 16777216.0
}

fn close(a: Vec3, b: (f64, f64, f64), tolerance: f64) -> bool {
    (to_f64(a.x) - b.0).abs() <= tolerance
        && (to_f64(a.y) - b.1).abs() <= tolerance
        && (to_f64(a.z) - b.2).abs() <= tolerance
}

/// A camera at the origin that looks down the negative z axis, with a field
/// of view of 90 degrees (half height 1) and the aspect ratio 2.
fn simple_camera(aperture: f64) -> Camera {
    Camera::new(
        v3(0.0, 0.0, 0.0),
        v3(0.0, 0.0, -1.0),
        v3(0.0, 1.0, 0.0),
        fx(1.0),
        fx(2.0),
        fx(aperture),
        fx(1.0),
    )
}

#[test]
fn camera_basis_is_orthonormal() {
    let camera = simple_camera(0.0);
    assert_eq!(camera.origin, v3(0.0, 0.0, 0.0));
    assert_eq!(camera.w, v3(0.0, 0.0, 1.0));
    assert_eq!(camera.u, v3(1.0, 0.0, 0.0));
    assert_eq!(camera.v, v3(0.0, 1.0, 0.0));
    assert_eq!(camera.lens_radius, fx(0.0));
}

#[test]
fn camera_viewport() {
    let camera = simple_camera(0.0);
    assert_eq!(camera.lower_left_corner, v3(-2.0, -1.0, -1.0));
    assert_eq!(camera.horizontal, v3(4.0, 0.0, 0.0));
    assert_eq!(camera.vertical, v3(0.0, 2.0, 0.0));
}

#[test]
fn camera_viewport_scales_with_the_focus_distance() {
    let camera = Camera::new(
        v3(0.0, 0.0, 0.0),
        v3(0.0, 0.0, -1.0),
        v3(0.0, 1.0, 0.0),
        fx(0.5),
        fx(1.5),
        fx(0.5),
        fx(4.0),
    );
    assert_eq!(camera.lens_radius, fx(0.25));
    assert_eq!(camera.lower_left_corner, v3(-3.0, -2.0, -4.0));
    assert_eq!(camera.horizontal, v3(6.0, 0.0, 0.0));
    assert_eq!(camera.vertical, v3(0.0, 4.0, 0.0));
}

#[test]
fn camera_looking_from_afar() {
    // the viewing parameters of the cover picture: 30 degrees of view.
    let look_from = v3(13.0, 2.0, 3.0);
    let look_at = v3(0.0, 0.0, 0.0);
    let distance = look_from.sub(look_at).magnitude();
    let half_height = (15.0f64).to_radians().tan();
    let camera = Camera::new(
        look_from,
        look_at,
        v3(0.0, 1.0, 0.0),
        fx(half_height),
        fx(1.5),
        fx(0.1),
        distance,
    );
    let d = (13.0f64 * 13.0 + 4.0 + 9.0).sqrt();
    assert!((to_f64(distance) - d).abs() < 1e-6);
    assert!(close(camera.w, (13.0 / d, 2.0 / d, 3.0 / d), 1e-6));
    assert!((to_f64(camera.u.dot(&camera.w))).abs() < 1e-6);
    assert!((to_f64(camera.v.dot(&camera.w))).abs() < 1e-6);
    assert!((to_f64(camera.u.dot(&camera.v))).abs() < 1e-6);
    assert!((to_f64(camera.u.squared_mag()) - 1.0).abs() < 1e-6);
    assert!((to_f64(camera.v.squared_mag()) - 1.0).abs() < 1e-6);
    assert_eq!(camera.lens_radius, fx(0.05));
    // the centre of the viewport is the point looked at.
    let centre = camera
        .lower_left_corner
        .add(camera.horizontal.scale(fx(0.5)))
        .add(camera.vertical.scale(fx(0.5)));
    assert!(close(centre, (0.0, 0.0, 0.0), 1e-5));
    assert!((to_f64(camera.vertical.magnitude()) - 2.0 * half_height * d).abs() < 1e-5);
    assert!((to_f64(camera.horizontal.magnitude()) - 3.0 * half_height * d).abs() < 1e-5);
}

#[test]
fn pinhole_rays_start_at_the_origin() {
    let camera = simple_camera(0.0);
    let centre = camera.ray_through(fx(0.5), fx(0.5), v3(0.3, -0.4, 0.0));
    assert_eq!(centre.origin, v3(0.0, 0.0, 0.0));
    assert_eq!(centre.direction, v3(0.0, 0.0, -1.0));
    let corner = camera.ray_through(fx(0.0), fx(0.0), v3(0.9, 0.1, 0.0));
    assert_eq!(corner.origin, v3(0.0, 0.0, 0.0));
    assert_eq!(corner.direction, v3(-2.0, -1.0, -1.0));
    let top_right = camera.ray_through(fx(1.0), fx(1.0), v3(0.0, 0.0, 0.0));
    assert_eq!(top_right.direction, v3(2.0, 1.0, -1.0));
    let mut rng = StdRng::seed_from_u64(3);
    for _ in 0..20 {
        let ray = camera.get_ray(fx(0.25), fx(0.75), &mut rng);
        assert_eq!(ray.origin, v3(0.0, 0.0, 0.0));
        assert_eq!(ray.direction, v3(-1.0, 0.5, -1.0));
    }
}

#[test]
fn lens_offsets_the_origin_and_keeps_the_target() {
    let camera = simple_camera(1.0);
    let ray = camera.ray_through(fx(0.5), fx(0.5), v3(0.5, -0.25, 0.0));
    // the lens radius is 0.5: the offset is (0.25, -0.125, 0).
    assert_eq!(ray.origin, v3(0.25, -0.125, 0.0));
    assert_eq!(ray.direction, v3(-0.25, 0.125, -1.0));
    // all rays through one viewport point meet in the plane of focus.
    assert_eq!(ray.origin.add(ray.direction), v3(0.0, 0.0, -1.0));
}

#[test]
fn get_ray_draws_from_the_lens() {
    let camera = simple_camera(1.0);
    let mut rng = StdRng::seed_from_u64(17);
    let mut distinct = 0;
    let mut last = v3(9.0, 9.0, 9.0);
    for _ in 0..200 {
        let ray = camera.get_ray(fx(0.25), fx(0.75), &mut rng);
        assert_eq!(ray.origin.z.raw, 0);
        // the origin lies on the lens, a disk of radius one half.
        assert!(to_f64(ray.origin.squared_mag()) < 0.25 + 1e-6);
        // and the ray aims at the viewport point (-1, 0.5, -1).
        let target = ray.origin.add(ray.direction);
        assert!(close(target, (-1.0, 0.5, -1.0), 1e-6));
        if ray.origin != last {
            distinct += 1;
        }
        last = ray.origin;
    }
    assert!(distinct > 190);
}
