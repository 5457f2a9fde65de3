//! Rays: an origin, a direction and the instant the ray was cast.

use vstd::prelude::*;
use crate::scalar::Scalar;
use crate::vector::{Point3, Vector3};

verus! {

/// A half-line through the scene, stamped with the time it was cast at so
/// that moving geometry can be placed.
#[derive(Clone, Copy, Debug)]
pub struct Ray {
    pub orig: Point3,
    pub dir: Vector3,
    pub time: Scalar,
}

impl Ray {
    pub fn new(origin: Point3, direction: Vector3, time: Scalar) -> (r: Ray)
        ensures
            r.orig == origin,
            r.dir == direction,
            r.time == time,
    {
        Ray { orig: origin, dir: direction, time }
    }

    pub fn origin(&self) -> (p: Point3)
        ensures
            p == self.orig,
    {
        self.orig
    }

    pub fn direction(&self) -> (v: Vector3)
        ensures
            v == self.dir,
    {
        self.dir
    }

    pub fn time(&self) -> (t: Scalar)
        ensures
            t == self.time,
    {
        self.time
    }
}

} // verus!
