//! Closed ranges of ray parameters.

use crate::scalar::Scalar;
use crate::scalar::MAX_RAW;
use crate::scalar::MIN_RAW;
use vstd::prelude::*;

verus! {

/// The closed range `[min, max]`; it is empty when `min` lies above `max`.
#[derive(Clone, Copy, Debug, PartialEq, Eq, Structural)]
pub struct Interval {
    pub min: Scalar,
    pub max: Scalar,
}

impl Interval {
    pub open spec fn contains_spec(self, x: Scalar) -> bool {
        self.min@ <= x@ <= self.max@
    }

    pub open spec fn clamp_spec(self, x: Scalar) -> Scalar {
        if x@ < self.min@ {
            self.min
        } else if x@ > self.max@ {
            self.max
        } else {
            x
        }
    }

    pub fn new(min: Scalar, max: Scalar) -> (r: Interval)
        ensures
            r == (Interval { min, max }),
    {
        Interval { min, max }
    }

    /// The range of all numbers.
    pub fn full() -> (r: Interval)
        ensures
            r.min@ == MIN_RAW,
            r.max@ == MAX_RAW,
            forall|x: Scalar| r.contains_spec(x),
    {
        Interval { min: Scalar::neg_infinity(), max: Scalar::infinity() }
    }

    /// The range `[0, -1]`, which holds no number.
    pub fn empty() -> (r: Interval)
        ensures
            r == (Interval { min: Scalar::int_spec(0), max: Scalar::int_spec(-1) }),
            forall|x: Scalar| !r.contains_spec(x),
    {
        Interval { min: Scalar::from_int(0), max: Scalar::from_int(-1) }
    }

    pub fn contains(&self, x: Scalar) -> (r: bool)
        ensures
            r == self.contains_spec(x),
    {
        self.min.raw <= x.raw && x.raw <= self.max.raw
    }

    pub fn clamp(&self, x: Scalar) -> (r: Scalar)
        ensures
            r == self.clamp_spec(x),
    {
        if x.raw < self.min.raw {
            self.min
        } else if x.raw > self.max.raw {
            self.max
        } else {
            x
        }
    }
}

} // verus!
