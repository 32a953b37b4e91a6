//! Rays: half-lines given by an origin and a direction.

use crate::fixed::Fixed;
use crate::vec3::Vec3;
use vstd::prelude::*;

verus! {

/// A ray.  The direction need not have unit length.
#[derive(Clone, Copy, Debug, PartialEq, Eq, Structural)]
pub struct Ray {
    pub origin: Vec3,
    pub direction: Vec3,
}

impl Ray {
    /// The ray from `origin` along `direction`.
    pub fn new(origin: Vec3, direction: Vec3) -> (r: Ray)
        ensures
            r == (Ray { origin, direction }),
    {
        Ray { origin, direction }
    }

    /// The point `origin + t * direction`.
    pub open spec fn spec_point_at_parameter(&self, t: Fixed) -> Vec3 {
        self.origin.add(self.direction.scale(t))
    }

    /// The point reached after travelling `t` direction lengths.
    #[verifier::when_used_as_spec(spec_point_at_parameter)]
    pub fn point_at_parameter(&self, t: Fixed) -> (r: Vec3)
        ensures
            r == self.spec_point_at_parameter(t),
    {
        self.origin.add(self.direction.scale(t))
    }
}

} // verus!
