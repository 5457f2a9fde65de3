//! Axis-aligned bounding boxes and their unions.

use vstd::prelude::*;
use crate::vector::Point3;

verus! {

/// A box with faces parallel to the coordinate planes, given by its corner of
/// least and its corner of greatest coordinates. On every axis the least
/// coordinate is at most the greatest, so neither is a not-a-number pattern.
#[derive(Clone, Copy, Debug)]
pub struct AABB {
    min: Point3,
    max: Point3,
}

impl AABB {
    #[verifier::type_invariant]
    closed spec fn ordered(self) -> bool {
        corners_ordered(self.min, self.max)
    }

    /// The corner of least coordinates.
    pub closed spec fn lower(self) -> Point3 {
        self.min
    }

    /// The corner of greatest coordinates.
    pub closed spec fn upper(self) -> Point3 {
        self.max
    }

    /// The box's invariant: `lower` is at most `upper` on every axis.
    pub open spec fn wf(self) -> bool {
        corners_ordered(self.lower(), self.upper())
    }

    /// `self` reaches at least as far as `inner` in all six directions.
    pub open spec fn contains(self, inner: AABB) -> bool {
        self.contains_on(inner, 0) && self.contains_on(inner, 1) && self.contains_on(inner, 2)
    }

    /// On one axis, `self` reaches at least as far as `inner` both ways.
    pub open spec fn contains_on(self, inner: AABB, axis: int) -> bool {
        self.lower().at(axis).le(inner.lower().at(axis)) && inner.upper().at(axis).le(
            self.upper().at(axis),
        )
    }

    /// The box spanned by the lesser of the lower and the greater of the upper
    /// coordinates of two boxes, axis by axis.
    pub closed spec fn union(self, other: AABB) -> AABB {
        AABB {
            min: Point3 {
                e: [
                    self.min.at(0).lesser(other.min.at(0)),
                    self.min.at(1).lesser(other.min.at(1)),
                    self.min.at(2).lesser(other.min.at(2)),
                ],
            },
            max: Point3 {
                e: [
                    self.max.at(0).greater(other.max.at(0)),
                    self.max.at(1).greater(other.max.at(1)),
                    self.max.at(2).greater(other.max.at(2)),
                ],
            },
        }
    }

    /// A box from its two corners, if they are in order on every axis.
    pub fn new(min: Point3, max: Point3) -> (b: Option<AABB>)
        ensures
            b is Some <==> corners_ordered(min, max),
            b matches Some(bb) ==> bb.lower() == min && bb.upper() == max && bb.wf(),
    {
        if min.x().at_most(max.x()) && min.y().at_most(max.y()) && min.z().at_most(max.z()) {
            Some(AABB { min, max })
        } else {
            None
        }
    }

    pub fn min(&self) -> (p: Point3)
        ensures
            p == self.lower(),
            self.wf(),
    {
        proof {
            use_type_invariant(self);
        }
        self.min
    }

    pub fn max(&self) -> (p: Point3)
        ensures
            p == self.upper(),
            self.wf(),
    {
        proof {
            use_type_invariant(self);
        }
        self.max
    }
}

/// On every axis the first corner's coordinate is at most the second's.
pub open spec fn corners_ordered(min: Point3, max: Point3) -> bool {
    min.at(0).le(max.at(0)) && min.at(1).le(max.at(1)) && min.at(2).le(max.at(2))
}

/// The smallest box that holds both `box0` and `box1`.
pub fn surrounding_box(box0: &AABB, box1: &AABB) -> (b: AABB)
    ensures
        b == box0.union(*box1),
        b.wf(),
        b.contains(*box0),
        b.contains(*box1),
{
    proof {
        use_type_invariant(box0);
        use_type_invariant(box1);
        lemma_union_bounds(*box0, *box1);
    }
    let small = Point3::new(
        box0.min.x().min(box1.min.x()),
        box0.min.y().min(box1.min.y()),
        box0.min.z().min(box1.min.z()),
    );
    let big = Point3::new(
        box0.max.x().max(box1.max.x()),
        box0.max.y().max(box1.max.y()),
        box0.max.z().max(box1.max.z()),
    );
    proof {
        let u = box0.union(*box1);
        assert(small.e =~= u.min.e);
        assert(big.e =~= u.max.e);
    }
    AABB { min: small, max: big }
}

/// The union of two boxes is a box, and it reaches, axis by axis, to the
/// lesser of the two lower and the greater of the two upper coordinates.
pub proof fn lemma_union_corners(a: AABB, b: AABB)
    ensures
        forall|axis: int|
            0 <= axis < 3 ==> #[trigger] a.union(b).lower().at(axis) == a.lower().at(axis).lesser(
                b.lower().at(axis),
            ),
        forall|axis: int|
            0 <= axis < 3 ==> #[trigger] a.union(b).upper().at(axis) == a.upper().at(
                axis,
            ).greater(b.upper().at(axis)),
{
}

/// The union of two boxes holds both of them.
pub proof fn lemma_union_bounds(a: AABB, b: AABB)
    requires
        a.wf(),
        b.wf(),
    ensures
        a.union(b).wf(),
        a.union(b).contains(a),
        a.union(b).contains(b),
{
    lemma_union_corners(a, b);
}

/// The union of two boxes is the least box that holds both: every box that
/// holds both holds their union.
pub proof fn lemma_union_least(a: AABB, b: AABB, c: AABB)
    requires
        a.wf(),
        b.wf(),
        c.wf(),
        c.contains(a),
        c.contains(b),
    ensures
        c.contains(a.union(b)),
{
    lemma_union_corners(a, b);
}

/// Holding is transitive: a box that holds a second holds whatever the second
/// holds.
pub proof fn lemma_contains_transitive(a: AABB, b: AABB, c: AABB)
    requires
        a.contains(b),
        b.contains(c),
    ensures
        a.contains(c),
{
}

} // verus!
