//! One vertical slice of a silhouette.
use crate::scalar::{
    difference, difference_spec, half, half_spec, magnitude, magnitude_spec, product, product_spec,
    sum, sum_spec,
};
use vstd::prelude::*;

verus! {

/// The vertical extent of a silhouette at one sampling position, from `min`
/// up to `max`. The position is the slice's index in its silhouette. A slice
/// with `min > max` is degenerate: it holds nothing.
#[derive(Copy, Clone, Debug)]
pub struct Line {
    pub min: i64,
    pub max: i64,
}

impl Line {
    pub open spec fn length_spec(self) -> int {
        difference_spec(self.max as int, self.min as int)
    }

    pub open spec fn is_degenerate(self) -> bool {
        self.min > self.max
    }

    /// The area of the trapezoid between this slice and `rhs`, which lies
    /// `dx` to its right: the mean of the magnitude of this slice's length
    /// and the signed length of `rhs`, times `dx`.
    pub open spec fn area_between_spec(self, rhs: Line, dx: int) -> int {
        product_spec(
            half_spec(sum_spec(magnitude_spec(self.length_spec()), rhs.length_spec())),
            dx,
        )
    }

    /// The extent common to this slice and `rhs`.
    pub open spec fn shrink_spec(self, rhs: Line) -> Line {
        Line {
            min: if self.min < rhs.min { rhs.min } else { self.min },
            max: if self.max > rhs.max { rhs.max } else { self.max },
        }
    }

    /// This slice, or for a degenerate slice the empty one at its `min`.
    pub open spec fn clamped_spec(self) -> Line {
        if self.min > self.max {
            Line { min: self.min, max: self.min }
        } else {
            self
        }
    }

    /// `max - min`: negative for a degenerate slice.
    pub fn length(&self) -> (r: i64)
        ensures
            r == self.length_spec(),
    {
        difference(self.max, self.min)
    }

    /// The magnitude of `length`.
    pub fn length_abs(&self) -> (r: i64)
        ensures
            r == magnitude_spec(self.length_spec()),
    {
        magnitude(self.length())
    }

    /// The area of the trapezoid between this slice and `rhs` at the
    /// distance `dx`. Of the two lengths only this slice's is taken by its
    /// magnitude.
    pub fn area_between(&self, rhs: &Self, dx: i64) -> (r: i64)
        ensures
            r == self.area_between_spec(*rhs, dx as int),
    {
        product(half(sum(self.length_abs(), rhs.length())), dx)
    }

    /// Narrows this slice to what it has in common with `rhs`: `min` rises
    /// to that of `rhs` where that is higher, `max` falls to that of `rhs`
    /// where that is lower.
    pub fn shrink(&mut self, rhs: &Self)
        ensures
            *final(self) == old(self).shrink_spec(*rhs),
            final(self).min >= old(self).min,
            final(self).max <= old(self).max,
    {
        if self.min < rhs.min {
            self.min = rhs.min;
        }
        if self.max > rhs.max {
            self.max = rhs.max;
        }
    }

    /// This slice with a degenerate extent replaced by the empty extent at
    /// `min`, so that its length is never negative.
    pub fn clamped(&self) -> (r: Line)
        ensures
            r == self.clamped_spec(),
            r.length_spec() >= 0,
    {
        if self.min > self.max {
            Line { min: self.min, max: self.min }
        } else {
            *self
        }
    }
}

} // verus!
