//! Rays: half-lines with a time stamp.

use vstd::prelude::*;
use crate::scalar::Scalar;
use crate::vec3::{Point, Vector};

verus! {

/// The points `orig + t * dir`, seen at the moment `tm`.
#[derive(Clone, Copy, Debug, PartialEq, Eq)]
pub struct Ray {
    pub orig: Point,
    pub dir: Vector,
    pub tm: Scalar,
}

impl Ray {
    /// The point of the ray at the parameter `t`.
    pub open spec fn at_spec(self, t: Scalar) -> Point {
        self.orig.plus_spec(self.dir.scaled_spec(t))
    }

    /// The same ray from an origin moved by `offset`.
    pub open spec fn shifted_spec(self, offset: Vector) -> Self {
        Ray { orig: self.orig.plus_spec(offset), dir: self.dir, tm: self.tm }
    }

    /// A ray at the moment zero.
    pub fn new(origin: Point, direction: Vector) -> (r: Self)
        ensures
            r == (Ray { orig: origin, dir: direction, tm: 0 }),
    {
        Self::with_time(origin, direction, 0)
    }

/// A ray at the moment `time`.
    pub fn with_time(origin: Point, direction: Vector, time: Scalar) -> (r: Self)
        ensures
            r == (Ray { orig: origin, dir: direction, tm: time }),
    {
        Ray { orig: origin, dir: direction, tm: time }
    }

    pub fn origin(&self) -> (p: &Point)
        ensures
            *p == self.orig,
    {
        &self.orig
    }

    pub fn direction(&self) -> (d: &Vector)
        ensures
            *d == self.dir,
    {
        &self.dir
    }

    pub fn time(&self) -> (t: Scalar)
        ensures
            t == self.tm,
    {
        self.tm
    }

/// The point of the ray at the parameter `t`.
    pub fn at(&self, t: Scalar) -> (p: Point)
        ensures
            p == self.at_spec(t),
    {
        self.orig.plus(&self.dir.scaled(t))
    }
}

} // verus!
