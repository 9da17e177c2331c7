//! Rays: a half-line in space together with the instant at which it is cast.
use crate::scalar::Scalar;
use crate::vec3::{Point3, Vec3};
use vstd::prelude::*;

verus! {

/// A ray cast from `origin` along `dir` at the instant `time`.
#[derive(Clone, Copy, Debug, PartialEq, Eq, Structural)]
pub struct Ray {
    pub origin: Point3,
    pub dir: Vec3,
    pub time: Scalar,
}

impl Ray {
    /// The point at parameter `t`: `origin + t dir`.
    pub open spec fn spec_at(&self, t: Scalar) -> Point3 {
        self.origin.offset(self.dir.scaled(t))
    }

    pub fn new(origin: Point3, dir: Vec3, time: Scalar) -> (r: Ray)
        ensures
            r == (Ray { origin, dir, time }),
    {
        Ray { origin, dir, time }
    }

    #[verifier::when_used_as_spec(spec_at)]
    pub fn at(&self, t: Scalar) -> (r: Point3)
        ensures
            r == self.spec_at(t),
    {
        self.origin.offset(self.dir.scaled(t))
    }
}

} // verus!
