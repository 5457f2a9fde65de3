//! Triples of scalars: directions, points and colours.
//!
//! A vector is carried through the library component by component. Whatever
//! needs arithmetic on the components is left to the caller.

use vstd::prelude::*;
use crate::scalar::Scalar;

verus! {

/// Three scalars, indexed 0, 1, 2 for x, y, z.
#[derive(Clone, Copy, Debug)]
pub struct Vector3 {
    pub e: [Scalar; 3],
}

pub type Point3 = Vector3;

pub type Color = Vector3;

impl Vector3 {
    /// The component on the given axis.
    pub open spec fn at(self, axis: int) -> Scalar {
        self.e@[axis]
    }

    /// The vector with every component negated.
    pub open spec fn negated(self) -> Vector3 {
        Vector3 { e: [self.at(0).negated(), self.at(1).negated(), self.at(2).negated()] }
    }

    /// No component is a not-a-number pattern.
    pub open spec fn is_numeric(self) -> bool {
        !self.at(0).is_nan() && !self.at(1).is_nan() && !self.at(2).is_nan()
    }

    pub fn new(e0: Scalar, e1: Scalar, e2: Scalar) -> (v: Vector3)
        ensures
            v.at(0) == e0,
            v.at(1) == e1,
            v.at(2) == e2,
    {
        Vector3 { e: [e0, e1, e2] }
    }

    pub fn x(&self) -> (s: Scalar)
        ensures
            s == self.at(0),
    {
        self.e[0]
    }

    pub fn y(&self) -> (s: Scalar)
        ensures
            s == self.at(1),
    {
        self.e[1]
    }

    pub fn z(&self) -> (s: Scalar)
        ensures
            s == self.at(2),
    {
        self.e[2]
    }

    /// The component on `axis`.
    pub fn get(&self, axis: usize) -> (s: Scalar)
        requires
            axis < 3,
        ensures
            s == self.at(axis as int),
    {
        self.e[axis]
    }

    /// The same vector with the component on `axis` replaced.
    pub fn with(&self, axis: usize, value: Scalar) -> (v: Vector3)
        requires
            axis < 3,
        ensures
            v.at(axis as int) == value,
            forall|i: int| 0 <= i < 3 && i != axis ==> v.at(i) == self.at(i),
    {
        let e0 = if axis == 0 { value } else { self.e[0] };
        let e1 = if axis == 1 { value } else { self.e[1] };
        let e2 = if axis == 2 { value } else { self.e[2] };
        Vector3 { e: [e0, e1, e2] }
    }

    /// The origin: all three components are positive zero.
    pub fn zero() -> (v: Vector3)
        ensures
            forall|i: int| 0 <= i < 3 ==> v.at(i).bits == 0,
    {
        let z = Scalar::zero();
        Vector3 { e: [z, z, z] }
    }

    /// The unit vector along `axis`: one on that axis, zero on the others.
    pub fn unit(axis: usize) -> (v: Vector3)
        requires
            axis < 3,
        ensures
            v.at(axis as int).bits == crate::scalar::ONE_BITS,
            forall|i: int| 0 <= i < 3 && i != axis ==> v.at(i).bits == 0,
    {
        Vector3::zero().with(axis, Scalar::one())
    }

    /// The opposite vector.
    pub fn neg(&self) -> (v: Vector3)
        ensures
            v == self.negated(),
    {
        Vector3 { e: [self.e[0].neg(), self.e[1].neg(), self.e[2].neg()] }
    }
}

/// Two vectors with the same three components are the same vector.
pub proof fn lemma_vector_ext(a: Vector3, b: Vector3)
    requires
        a.at(0) == b.at(0),
        a.at(1) == b.at(1),
        a.at(2) == b.at(2),
    ensures
        a == b,
{
    assert(a.e =~= b.e);
}

} // verus!
