//! Rays: a point of origin and a direction.

use crate::scalar::Scalar;
use crate::vec3::Vec3;
use vstd::prelude::*;

verus! {

/// The line `origin + t * direction`. The direction need not have length one.
#[derive(Clone, Copy, Debug, PartialEq, Eq, Structural)]
pub struct Ray {
    pub origin: Vec3,
    pub direction: Vec3,
}

impl Ray {
    /// The point `origin + direction * t`.
    pub open spec fn at_spec(self, t: Scalar) -> Vec3 {
        self.origin.add_spec(self.direction.mul_spec(t))
    }

    /// Whether the squared length of the direction is above zero, so that the
    /// direction can be scaled to length one.
    pub open spec fn directed(self) -> bool {
        self.direction.dot_square_spec()@ > 0
    }

    pub fn new(origin: Vec3, direction: Vec3) -> (r: Ray)
        ensures
            r == (Ray { origin, direction }),
    {
        Ray { origin, direction }
    }

    pub fn origin(&self) -> (r: Vec3)
        ensures
            r == self.origin,
    {
        self.origin
    }

    pub fn direction(&self) -> (r: Vec3)
        ensures
            r == self.direction,
    {
        self.direction
    }

    pub fn at(&self, t: Scalar) -> (r: Vec3)
        ensures
            r == self.at_spec(t),
    {
        self.origin.add(self.direction.mul(t))
    }
}

} // verus!
