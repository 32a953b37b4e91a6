//! The camera: a thin lens that maps viewport coordinates to rays.

use crate::fixed::Fixed;
use crate::ray::Ray;
use crate::sampling::in_unit_ball;
use crate::sampling::random_point_in_unit_disk;
use crate::vec3::Vec3;
use rand::rngs::StdRng;
use vstd::prelude::*;

verus! {

/// A camera.  Its fields are derived once from the viewing parameters and
/// never change.
#[derive(Clone, Copy, Debug)]
pub struct Camera {
    /// The centre of the lens.
    pub origin: Vec3,
    /// The lower left corner of the viewport in the plane of focus.
    pub lower_left_corner: Vec3,
    /// The vector along the full width of the viewport.
    pub horizontal: Vec3,
    /// The vector along the full height of the viewport.
    pub vertical: Vec3,
    /// The unit vector to the right of the camera.
    pub u: Vec3,
    /// The unit vector up from the camera.
    pub v: Vec3,
    /// The unit vector from the target back to the camera.
    pub w: Vec3,
    /// The radius of the lens.
    pub lens_radius: Fixed,
}

impl Camera {
    /// The camera at `look_from` that looks at `look_at`, with `v_up`
    /// pointing upward in the picture.
    ///
    /// `half_height` is the tangent of half the vertical field of view,
    /// `aspect` the width of the picture over its height, `aperture` the
    /// diameter of the lens, and `focus_dist` the distance of the plane that
    /// is in focus.
    ///
    /// The camera's axes are `w = unit(look_from - look_at)`,
    /// `u = unit(v_up x w)` and `v = w x u`.  The viewport has the half
    /// extents `aspect * half_height` and `half_height`, both scaled by
    /// `focus_dist`, and lies `focus_dist` in front of the camera.
    pub fn new(
        look_from: Vec3,
        look_at: Vec3,
        v_up: Vec3,
        half_height: Fixed,
        aspect: Fixed,
        aperture: Fixed,
        focus_dist: Fixed,
    ) -> (r: Camera)
        ensures
            r.origin == look_from,
            r.lens_radius == aperture.div(Fixed::from_int(2)),
            r.w == look_from.sub(look_at).make_unit_vector(),
            r.u == v_up.cross(&r.w).make_unit_vector(),
            r.v == r.w.cross(&r.u),
            r.lower_left_corner == look_from.sub(
                r.u.scale(aspect.mul(half_height).mul(focus_dist)),
            ).sub(r.v.scale(half_height.mul(focus_dist))).sub(r.w.scale(focus_dist)),
            r.horizontal == r.u.scale(
                Fixed::from_int(2).mul(aspect.mul(half_height)).mul(focus_dist),
            ),
            r.vertical == r.v.scale(Fixed::from_int(2).mul(half_height).mul(focus_dist)),
    {
        let half_width = aspect.mul(half_height);
        let lens_radius = aperture.div(Fixed::from_int(2));
        let origin = look_from;
        let w = look_from.sub(look_at).make_unit_vector();
        let u = v_up.cross(&w).make_unit_vector();
        let v = w.cross(&u);
        let lower_left_corner = origin.sub(u.scale(half_width.mul(focus_dist))).sub(
            v.scale(half_height.mul(focus_dist)),
        ).sub(w.scale(focus_dist));
        let horizontal = u.scale(Fixed::from_int(2).mul(half_width).mul(focus_dist));
        let vertical = v.scale(Fixed::from_int(2).mul(half_height).mul(focus_dist));
        Camera { origin, lower_left_corner, horizontal, vertical, u, v, w, lens_radius }
    }

    /// The displacement of a ray's origin on the lens for the point `lens`
    /// of the unit disk: `lens_radius (lens.x u + lens.y v)`.
    pub open spec fn lens_offset(&self, lens: Vec3) -> Vec3 {
        let rd = lens.scale(self.lens_radius);
        self.u.scale(rd.x).add(self.v.scale(rd.y))
    }

    /// The ray through the viewport coordinates `(s, t)` that leaves the
    /// lens at the point `lens` of the unit disk.  It starts at the origin
    /// displaced by the lens offset and aims at the viewport point
    /// `lower_left_corner + s horizontal + t vertical`.
    pub open spec fn spec_ray_through(&self, s: Fixed, t: Fixed, lens: Vec3) -> Ray {
        let offset = self.lens_offset(lens);
        Ray {
            origin: self.origin.add(offset),
            direction: self.lower_left_corner.add(self.horizontal.scale(s)).add(
                self.vertical.scale(t),
            ).sub(self.origin).sub(offset),
        }
    }

    /// Makes the ray through `(s, t)` for a given point of the lens.
    #[verifier::when_used_as_spec(spec_ray_through)]
    pub fn ray_through(&self, s: Fixed, t: Fixed, lens: Vec3) -> (r: Ray)
        ensures
            r == self.spec_ray_through(s, t, lens),
    {
        let rd = lens.scale(self.lens_radius);
        let offset = self.u.scale(rd.x).add(self.v.scale(rd.y));
        Ray::new(
            self.origin.add(offset),
            self.lower_left_corner.add(self.horizontal.scale(s)).add(self.vertical.scale(t)).sub(
                self.origin,
            ).sub(offset),
        )
    }

    /// Makes a ray through the viewport coordinates `(s, t)` from a random
    /// point of the lens, which blurs what is out of focus.
    pub fn get_ray(&self, s: Fixed, t: Fixed, rng: &mut StdRng) -> (r: Ray)
        ensures
            exists|lens: Vec3|
                in_unit_ball(lens) && lens.z.raw == 0 && r == #[trigger] self.spec_ray_through(
                    s,
                    t,
                    lens,
                ),
    {
        let lens = random_point_in_unit_disk(rng);
        self.ray_through(s, t, lens)
    }
}

/// A camera without aperture is a pinhole: every ray starts at its origin,
/// wherever on the lens it was drawn.
pub proof fn lemma_pinhole(camera: &Camera, s: Fixed, t: Fixed, lens: Vec3)
    requires
        camera.lens_radius.raw == 0,
    ensures
        camera.spec_ray_through(s, t, lens).origin == camera.origin,
        camera.spec_ray_through(s, t, lens).direction == camera.lower_left_corner.add(
            camera.horizontal.scale(s),
        ).add(camera.vertical.scale(t)).sub(camera.origin),
{
    let rd = lens.scale(camera.lens_radius);
    assert(lens.x.raw * 0 == 0 && lens.y.raw * 0 == 0 && lens.z.raw * 0 == 0);
    assert(rd.x.raw == 0 && rd.y.raw == 0);
    assert(camera.u.x.raw * 0 == 0 && camera.u.y.raw * 0 == 0 && camera.u.z.raw * 0 == 0);
    assert(camera.v.x.raw * 0 == 0 && camera.v.y.raw * 0 == 0 && camera.v.z.raw * 0 == 0);
}

} // verus!
