//! Surfaces as the estimator sees them: what a material emits and how it
//! sends a ray on, and the colour lookup that materials draw on.

use vstd::prelude::*;
use crate::hit::HitRecord;
use crate::ray::Ray;
use crate::scalar::Scalar;
use crate::vector::{Color, Point3};

verus! {

/// A colour for every point of a surface.
pub trait Texture {
    /// `c` is a colour `value` may return for these surface coordinates and
    /// point. An implementation that states nothing allows any colour.
    open spec fn colors(&self, u: Scalar, v: Scalar, p: Point3, c: Color) -> bool {
        true
    }

    fn value(&self, u: Scalar, v: Scalar, p: &Point3) -> (c: Color)
        ensures
            self.colors(u, v, *p, c),
    ;
}

/// How a surface answers a ray that hit it.
pub trait Material {
    /// `outcome` is something `scatter` may return for this ray and hit:
    /// nothing when the ray is absorbed, else the attenuation and the ray
    /// that goes on. An implementation that states nothing allows anything.
    open spec fn scatters(&self, r_in: Ray, rec: HitRecord, outcome: Option<(Color, Ray)>) -> bool {
        true
    }

    /// `c` is a colour `emitted` may return for these surface coordinates and
    /// point. An implementation that states nothing allows any colour.
    open spec fn emits(&self, u: Scalar, v: Scalar, p: Point3, c: Color) -> bool {
        true
    }

    fn scatter(&self, r_in: &Ray, rec: &HitRecord) -> (outcome: Option<(Color, Ray)>)
        ensures
            self.scatters(*r_in, *rec, outcome),
    ;

    fn emitted(&self, u: Scalar, v: Scalar, p: &Point3) -> (c: Color)
        ensures
            self.emits(u, v, *p, c),
    ;
}

/// The same colour everywhere.
#[derive(Clone, Copy, Debug)]
pub struct ConstantTexture {
    pub color: Color,
}

impl ConstantTexture {
    pub fn new(color: Color) -> (t: ConstantTexture)
        ensures
            t.color == color,
    {
        ConstantTexture { color }
    }
}

impl Texture for ConstantTexture {
    open spec fn colors(&self, u: Scalar, v: Scalar, p: Point3, c: Color) -> bool {
        c == self.color
    }

    fn value(&self, u: Scalar, v: Scalar, p: &Point3) -> (c: Color) {
        self.color
    }
}

/// A light: it emits the colour of its texture and never scatters.
#[derive(Clone, Copy, Debug)]
pub struct DiffuseLight<T: Texture> {
    pub emit: T,
}

impl<T: Texture> DiffuseLight<T> {
    pub fn new(emit: T) -> (light: DiffuseLight<T>)
        ensures
            light.emit == emit,
    {
        DiffuseLight { emit }
    }
}

impl<T: Texture> Material for DiffuseLight<T> {
    open spec fn scatters(&self, r_in: Ray, rec: HitRecord, outcome: Option<(Color, Ray)>) -> bool {
        outcome is None
    }

    open spec fn emits(&self, u: Scalar, v: Scalar, p: Point3, c: Color) -> bool {
        self.emit.colors(u, v, p, c)
    }

    fn scatter(&self, r_in: &Ray, rec: &HitRecord) -> (outcome: Option<(Color, Ray)>) {
        None
    }

    fn emitted(&self, u: Scalar, v: Scalar, p: &Point3) -> (c: Color) {
        self.emit.value(u, v, p)
    }
}

} // verus!
