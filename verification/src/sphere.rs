//! Spheres: which of the two intersections of a ray with a sphere counts.

use vstd::prelude::*;
use crate::scalar::Scalar;

verus! {

/// The root lies in the range, ends included. What is not a number lies in
/// no range.
pub open spec fn in_range(root: Scalar, t_min: Scalar, t_max: Scalar) -> bool {
    t_min.le(root) && root.le(t_max)
}

/// The ray parameter at which a sphere is hit: of the two roots of the
/// intersection equation, the smaller if it lies in `[t_min, t_max]`, else
/// the larger if that does, else none. Where the equation has no real roots
/// the caller's roots are not numbers, and there is no hit.
pub fn nearest_root(smaller: Scalar, larger: Scalar, t_min: Scalar, t_max: Scalar) -> (root: Option<
    Scalar,
>)
    ensures
        root == if in_range(smaller, t_min, t_max) {
            Some(smaller)
        } else if in_range(larger, t_min, t_max) {
            Some(larger)
        } else {
            None
        },
{
    if t_min.at_most(smaller) && smaller.at_most(t_max) {
        Some(smaller)
    } else if t_min.at_most(larger) && larger.at_most(t_max) {
        Some(larger)
    } else {
        None
    }
}

/// A sphere asked within a nearer limit answers as it does within a farther
/// one, as long as its answer lies within the nearer limit; else it has no
/// answer. So a sphere reports one nearest hit, whatever limit it is asked
/// with.
pub proof fn lemma_root_is_stable(
    smaller: Scalar,
    larger: Scalar,
    t_min: Scalar,
    t_max: Scalar,
    limit: Scalar,
)
    requires
        smaller.le(larger),
        limit.le(t_max),
    ensures
        nearest_root_spec(smaller, larger, t_min, limit) == match nearest_root_spec(
            smaller,
            larger,
            t_min,
            t_max,
        ) {
            Some(root) => if root.le(limit) {
                Some(root)
            } else {
                None
            },
            None => None,
        },
{
}

/// The root that `nearest_root` returns.
pub open spec fn nearest_root_spec(
    smaller: Scalar,
    larger: Scalar,
    t_min: Scalar,
    t_max: Scalar,
) -> Option<Scalar> {
    if in_range(smaller, t_min, t_max) {
        Some(smaller)
    } else if in_range(larger, t_min, t_max) {
        Some(larger)
    } else {
        None
    }
}

} // verus!
