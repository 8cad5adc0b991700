//! Closed ranges of scalars.

use vstd::prelude::*;
use crate::scalar::{
    Scalar, ONE, TWO, INFINITY, NEG_INFINITY, add_spec, sub_spec, div_spec, min_spec, max_spec, is_finite,
    fx_add, fx_sub, fx_div, fx_min, fx_max,
};

verus! {

/// The numbers from `min` to `max`. With `min` above `max` it holds none.
#[derive(Clone, Copy, Debug, PartialEq, Eq)]
pub struct Interval {
    pub min: Scalar,
    pub max: Scalar,
}

impl Interval {
    /// The interval that holds no number.
    pub open spec fn empty_spec() -> Self {
        Interval { min: INFINITY, max: NEG_INFINITY }
    }

    /// The interval that holds every number.
    pub open spec fn universe_spec() -> Self {
        Interval { min: NEG_INFINITY, max: INFINITY }
    }

    /// The tightest interval that encloses `a` and `b`.
    pub open spec fn union_spec(a: Self, b: Self) -> Self {
        Interval { min: min_spec(a.min, b.min), max: max_spec(a.max, b.max) }
    }

/// The length: the upper end less the lower.
    pub open spec fn size_spec(self) -> Scalar {
        sub_spec(self.max, self.min)
    }

/// Whether `x` lies in the interval, the ends counted in.
    pub open spec fn contains_spec(self, x: Scalar) -> bool {
        self.min <= x <= self.max
    }

/// Whether `x` lies in the interval, the ends left out.
    pub open spec fn surrounds_spec(self, x: Scalar) -> bool {
        self.min < x < self.max
    }

/// The number of the interval nearest to `x`.
    pub open spec fn clamp_spec(self, x: Scalar) -> Scalar {
        if x < self.min {
            self.min
        } else if x > self.max {
            self.max
        } else {
            x
        }
    }

    /// The interval widened by `delta` in all, half of it at each end.
    pub open spec fn expand_spec(self, delta: Scalar) -> Self {
        let padding = div_spec(delta, TWO);
        Interval { min: sub_spec(self.min, padding), max: add_spec(self.max, padding) }
    }

    /// The interval moved by `offset`.
    pub open spec fn shift_spec(self, offset: Scalar) -> Self {
        Interval { min: add_spec(self.min, offset), max: add_spec(self.max, offset) }
    }

    /// The interval is not inside out and does not start below negative
    /// infinity.
    pub open spec fn is_ordered(self) -> bool {
        NEG_INFINITY <= self.min <= self.max
    }

    /// The interval holds a number and does not lie at an infinity.
    pub open spec fn is_proper(self) -> bool {
        self.min <= self.max && (is_finite(self.min) || is_finite(self.max))
    }

    /// The empty interval.
    pub fn new() -> (r: Self)
        ensures
            r == Self::empty_spec(),
    {
        Interval { min: INFINITY, max: NEG_INFINITY }
    }

/// The interval that holds every number.
    pub fn universe() -> (r: Self)
        ensures
            r == Self::universe_spec(),
    {
        Interval { min: NEG_INFINITY, max: INFINITY }
    }

    /// The interval from zero to one.
    pub fn unit() -> (r: Self)
        ensures
            r == (Interval { min: 0, max: ONE }),
    {
        Interval { min: 0, max: ONE }
    }

/// The interval from `min` to `max`.
    pub fn from(min: Scalar, max: Scalar) -> (r: Self)
        ensures
            r == (Interval { min, max }),
    {
        Interval { min, max }
    }

/// The tightest interval that encloses `a` and `b`.
    pub fn from_intervals(a: &Self, b: &Self) -> (r: Self)
        ensures
            r == Self::union_spec(*a, *b),
    {
        Interval { min: fx_min(a.min, b.min), max: fx_max(a.max, b.max) }
    }

/// The length of the interval.
    pub fn size(&self) -> (r: Scalar)
        ensures
            r == self.size_spec(),
    {
        fx_sub(self.max, self.min)
    }

/// Whether `x` lies in the interval, the ends counted in.
    pub fn contains(&self, x: Scalar) -> (r: bool)
        ensures
            r == self.contains_spec(x),
    {
        self.min <= x && x <= self.max
    }

/// Whether `x` lies in the interval, the ends left out.
    pub fn surrounds(&self, x: Scalar) -> (r: bool)
        ensures
            r == self.surrounds_spec(x),
    {
        self.min < x && x < self.max
    }

/// The number of the interval nearest to `x`.
    pub fn clamp(&self, x: Scalar) -> (r: Scalar)
        ensures
            r == self.clamp_spec(x),
    {
        if x < self.min {
            self.min
        } else if x > self.max {
            self.max
        } else {
            x
        }
    }

/// The interval widened by `delta` in all, half of it at each end.
    pub fn into_expand(self, delta: Scalar) -> (r: Self)
        ensures
            r == self.expand_spec(delta),
    {
        let padding: Scalar = fx_div(delta, TWO);
        Interval { min: fx_sub(self.min, padding), max: fx_add(self.max, padding) }
    }

    /// The interval moved by `offset`.
    pub fn shift(&self, offset: Scalar) -> (r: Self)
        ensures
            r == self.shift_spec(offset),
    {
        Interval { min: fx_add(self.min, offset), max: fx_add(self.max, offset) }
    }
}

impl Default for Interval {
    fn default() -> (r: Self)
        ensures
            r == Self::empty_spec(),
    {
        Self::new()
    }
}

} // verus!
