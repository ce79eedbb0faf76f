//! An interval of fixed-point values, used as the acceptance window for
//! intersection distances and to clamp color intensities.

use vstd::prelude::*;
use crate::fixed::Fx;

verus! {

pub open spec fn i_surrounds(min: int, max: int, x: int) -> bool {
    min < x && x < max
}

pub open spec fn i_clamp(min: int, max: int, x: int) -> int {
    if x < min {
        min
    } else if x > max {
        max
    } else {
        x
    }
}

#[derive(Clone, Copy, Debug)]
pub struct Interval {
    pub min: Fx,
    pub max: Fx,
}

impl Interval {
    pub fn new(min: Fx, max: Fx) -> (r: Interval)
        ensures
            r.min == min,
            r.max == max,
    {
        Interval { min, max }
    }

    /// Whether x lies strictly inside the interval.
    pub fn surrounds(&self, x: Fx) -> (r: bool)
        ensures
            r == i_surrounds(self.min@, self.max@, x@),
    {
        self.min.lt(x) && x.lt(self.max)
    }

    pub fn clamp(&self, x: Fx) -> (r: Fx)
        ensures
            r@ == i_clamp(self.min@, self.max@, x@),
    {
        if x.lt(self.min) {
            self.min
        } else if x.gt(self.max) {
            self.max
        } else {
            x
        }
    }
}

} // verus!
