//! Rays on the lattice.

use vstd::prelude::*;
use crate::ratio::Ratio;
use crate::vector::{Int3, Vector3, COORD_LIMIT};

verus! {

/// A half line: the points `origin + t * direction` for `t >= 0`. The
/// direction has no fixed length; ray parameters are counted in units of it.
#[derive(Clone, Copy, Debug, PartialEq, Eq, Structural)]
pub struct Ray {
    pub origin: Vector3,
    pub direction: Vector3,
}

impl Ray {
    /// Origin and direction lie within the lattice, and the direction is not
    /// the zero vector.
    pub open spec fn wf(self) -> bool {
        &&& self.origin@.within(COORD_LIMIT as int)
        &&& self.direction@.within(COORD_LIMIT as int)
        &&& !self.direction@.is_zero()
    }

    /// The point of the ray at the parameter `t`, each coordinate rounded
    /// down to the lattice.
    pub open spec fn spec_at(self, t: Ratio) -> Int3 {
        Int3 {
            x: (t.den * self.origin.x + t.num * self.direction.x) / (t.den as int),
            y: (t.den * self.origin.y + t.num * self.direction.y) / (t.den as int),
            z: (t.den * self.origin.z + t.num * self.direction.z) / (t.den as int),
        }
    }

    /// The point of the ray at the parameter `t`, scaled by the
    /// denominator of `t`.
    pub open spec fn spec_scaled_at(self, t: Ratio) -> Int3 {
        self.origin@.scale(t.den as int).plus(self.direction@.scale(t.num as int))
    }

    /// Whether the ray is one of the lattice.
    pub fn is_wf(&self) -> (b: bool)
        ensures
            b == self.wf(),
    {
        self.origin.is_within(COORD_LIMIT) && self.direction.is_within(COORD_LIMIT)
            && !self.direction.is_zero()
    }

    /// The ray from `origin` along `direction`, where that is a ray of the
    /// lattice.
    pub fn new(origin: Vector3, direction: Vector3) -> (r: Option<Ray>)
        ensures
            r.is_some() == (Ray { origin, direction }).wf(),
            r.is_some() ==> r.unwrap() == (Ray { origin, direction }),
    {
        if origin.is_within(COORD_LIMIT) && direction.is_within(COORD_LIMIT)
            && !direction.is_zero() {
            Some(Ray { origin, direction })
        } else {
            None
        }
    }
}

} // verus!
