//! A Monte Carlo path tracer for scenes of spheres, verified with Verus.
//!
//! The tracer follows rays from a thin-lens [`camera`] into a scene of
//! [`hittable`] shapes, lets each [`material`] scatter, absorb or emit, and
//! sums what comes back ([`render`]).  A picture is rendered in bands of
//! rows that are put together by their indices ([`scheduler`]) and written
//! out as text ([`image`]).
//!
//! All arithmetic is in fixed point ([`fixed`], [`vec3`]): 24 fractional
//! bits in an `i64`, each result rounded toward zero and saturated at
//! about `5.5e11`.  Nothing overflows and nothing panics; the contracts say
//! to the last bit what is computed.  Random numbers come from a generator
//! that the caller owns ([`sampling`]); what depends on them is stated for
//! every outcome, and each function that draws has a counterpart that takes
//! the draws as arguments.

pub mod accuracy;
pub mod camera;
pub mod fixed;
pub mod hittable;
pub mod image;
pub mod material;
pub mod ray;
pub mod render;
pub mod sampling;
pub mod scene;
pub mod scheduler;
pub mod texture;
pub mod vec3;
