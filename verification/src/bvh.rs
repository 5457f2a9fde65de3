//! The bounding volume hierarchy: a binary tree over the objects of a scene,
//! built once, in which every inner node carries a box around everything
//! below it.

use vstd::prelude::*;
use vstd::seq_lib::*;
use rand::Rng;
use crate::aabb::{lemma_contains_transitive, lemma_union_bounds, surrounding_box, AABB};
use crate::hit::all_objects;
use crate::vector::Point3;

verus! {

/// An object as the hierarchy sees it: its bounding box, and the box's
/// centre, by which objects are ordered.
#[derive(Clone, Copy, Debug)]
pub struct Bounded {
    pub bbox: AABB,
    pub centroid: Point3,
}

/// A node of the hierarchy. A leaf holds one object, by its index in the list
/// the hierarchy was built from. An inner node has two children and a box
/// that holds the boxes of both.
#[derive(Debug)]
pub enum BVH {
    Leaf { object: usize },
    Node { left: Box<BVH>, right: Box<BVH>, bbox: AABB },
}

/// The place of an object along an axis: the rank of its centre's coordinate.
pub open spec fn place(items: Seq<Bounded>, object: usize, axis: int) -> int {
    items[object as int].centroid.at(axis).rank()
}

/// Every index names an object of `items`.
pub open spec fn in_range(indices: Seq<usize>, items: Seq<Bounded>) -> bool {
    forall|i: int| 0 <= i < indices.len() ==> (#[trigger] indices[i]) < items.len()
}

/// The objects come in the order of their places along `axis`.
pub open spec fn ordered_along(items: Seq<Bounded>, indices: Seq<usize>, axis: int) -> bool {
    forall|i: int, j: int|
        0 <= i < j < indices.len() ==> place(items, #[trigger] indices[i], axis) <= place(
            items,
            #[trigger] indices[j],
            axis,
        )
}

/// No object of `left` lies beyond an object of `right` along `axis`.
pub open spec fn parted_along(
    items: Seq<Bounded>,
    left: Seq<usize>,
    right: Seq<usize>,
    axis: int,
) -> bool {
    forall|i: int, j: int|
        0 <= i < left.len() && 0 <= j < right.len() ==> place(items, #[trigger] left[i], axis)
            <= place(items, #[trigger] right[j], axis)
}

impl BVH {
    /// The objects below the node, from left to right.
    pub open spec fn leaves(self) -> Seq<usize>
        decreases self,
    {
        match self {
            BVH::Leaf { object } => seq![object],
            BVH::Node { left, right, bbox } => left.leaves() + right.leaves(),
        }
    }

    /// The number of nodes, leaves included.
    pub open spec fn size(self) -> nat
        decreases self,
    {
        match self {
            BVH::Leaf { object } => 1,
            BVH::Node { left, right, bbox } => 1 + left.size() + right.size(),
        }
    }

    /// The box around everything below the node: a leaf's is its object's
    /// box, an inner node's is the box it carries.
    pub open spec fn bounds(self, items: Seq<Bounded>) -> AABB {
        match self {
            BVH::Leaf { object } => items[object as int].bbox,
            BVH::Node { left, right, bbox } => bbox,
        }
    }

    /// Every leaf names an object of `items`, and every inner node's box is
    /// the union of its children's.
    pub open spec fn wf(self, items: Seq<Bounded>) -> bool
        decreases self,
    {
        match self {
            BVH::Leaf { object } => object < items.len(),
            BVH::Node { left, right, bbox } => {
                &&& left.wf(items)
                &&& right.wf(items)
                &&& bbox == left.bounds(items).union(right.bounds(items))
            },
        }
    }

    /// Every inner node has split its objects at the midpoint: the left child
    /// holds half of them, rounded down.
    pub open spec fn halved(self) -> bool
        decreases self,
    {
        match self {
            BVH::Leaf { object } => true,
            BVH::Node { left, right, bbox } => {
                &&& left.halved()
                &&& right.halved()
                &&& left.leaves().len() == (left.leaves().len() + right.leaves().len()) / 2
            },
        }
    }

    /// Every inner node has split its objects along an axis: there is an axis
    /// along which no object on the left lies beyond one on the right.
    pub open spec fn parted(self, items: Seq<Bounded>) -> bool
        decreases self,
    {
        match self {
            BVH::Leaf { object } => true,
            BVH::Node { left, right, bbox } => {
                &&& left.parted(items)
                &&& right.parted(items)
                &&& exists|axis: int|
                    0 <= axis < 3 && #[trigger] parted_along(
                        items,
                        left.leaves(),
                        right.leaves(),
                        axis,
                    )
            },
        }
    }

    /// The box around everything below the node.
    pub fn bounding_box(&self, items: &Vec<Bounded>) -> (bbox: AABB)
        requires
            self.wf(items@),
        ensures
            bbox == self.bounds(items@),
    {
        match self {
            BVH::Leaf { object } => items[*object].bbox,
            BVH::Node { left, right, bbox } => *bbox,
        }
    }
}

/// `Rng::gen_range` of the rand crate on the thread's generator, over the
/// three axes: some axis index below three.
#[verifier::external_body]
fn random_axis() -> (axis: usize)
    ensures
        axis < 3,
{
    rand::thread_rng().gen_range(0..3)
}

/// The objects named by `indices`, in the order of their places along `axis`.
pub fn sort_along(items: &Vec<Bounded>, indices: &Vec<usize>, axis: usize) -> (sorted: Vec<usize>)
    requires
        axis < 3,
        in_range(indices@, items@),
    ensures
        sorted@.to_multiset() == indices@.to_multiset(),
        sorted@.len() == indices@.len(),
        in_range(sorted@, items@),
        ordered_along(items@, sorted@, axis as int),
{
    let mut sorted: Vec<usize> = Vec::new();
    let mut i: usize = 0;
    assert(indices@.take(0) =~= Seq::<usize>::empty());
    while i < indices.len()
        invariant
            axis < 3,
            i <= indices.len(),
            sorted@.len() == i,
            in_range(indices@, items@),
            in_range(sorted@, items@),
            ordered_along(items@, sorted@, axis as int),
            sorted@.to_multiset() == indices@.take(i as int).to_multiset(),
        decreases indices.len() - i,
    {
        let x: usize = indices[i];
        let place_x = items[x].centroid.get(axis);
        let mut j: usize = sorted.len();
        while j > 0 && place_x.ranks_below(items[sorted[j - 1]].centroid.get(axis))
            invariant
                axis < 3,
                j <= sorted.len(),
                x < items.len(),
                place_x == items@[x as int].centroid.at(axis as int),
                in_range(sorted@, items@),
                forall|m: int|
                    j <= m < sorted@.len() ==> place(items@, x, axis as int) < place(
                        items@,
                        #[trigger] sorted@[m],
                        axis as int,
                    ),
            decreases j,
        {
            j -= 1;
        }
        let ghost before = sorted@;
        sorted.insert(j, x);
        proof {
            before.insert_ensures(j as int, x);
            to_multiset_insert(before, j as int, x);
            assert(indices@.take(i + 1) =~= indices@.take(i as int).push(x));
            to_multiset_build(indices@.take(i as int), x);
            assert forall|a: int, b: int| 0 <= a < b < sorted@.len() implies place(
                items@,
                #[trigger] sorted@[a],
                axis as int,
            ) <= place(items@, #[trigger] sorted@[b], axis as int) by {
                if b < j {
                    assert(sorted@[a] == before[a] && sorted@[b] == before[b]);
                } else if b == j {
                    assert(sorted@[a] == before[a]);
                    if j > 0 {
                        assert(place(items@, before[j - 1], axis as int) <= place(
                            items@,
                            x,
                            axis as int,
                        ));
                    }
                } else if a < j {
                    assert(sorted@[a] == before[a] && sorted@[b] == before[b - 1]);
                } else if a == j {
                    assert(sorted@[b] == before[b - 1]);
                } else {
                    assert(sorted@[a] == before[a - 1] && sorted@[b] == before[b - 1]);
                }
            }
            assert forall|a: int| 0 <= a < sorted@.len() implies (#[trigger] sorted@[a])
                < items.len() by {
                if a < j {
                    assert(sorted@[a] == before[a]);
                } else if a > j {
                    assert(sorted@[a] == before[a - 1]);
                }
            }
        }
        i += 1;
    }
    assert(indices@.take(i as int) =~= indices@);
    sorted
}

/// Splits the objects named by `indices` in two along `axis`: sorted by their
/// places along the axis, the first half, rounded down, goes left and the rest
/// goes right.
pub fn split(items: &Vec<Bounded>, indices: &Vec<usize>, axis: usize) -> (halves: (
    Vec<usize>,
    Vec<usize>,
))
    requires
        axis < 3,
        in_range(indices@, items@),
    ensures
        (halves.0@ + halves.1@).to_multiset() == indices@.to_multiset(),
        halves.0@.len() == indices@.len() / 2,
        halves.0@.len() + halves.1@.len() == indices@.len(),
        in_range(halves.0@, items@),
        in_range(halves.1@, items@),
        ordered_along(items@, halves.0@ + halves.1@, axis as int),
        parted_along(items@, halves.0@, halves.1@, axis as int),
{
    let mut left = sort_along(items, indices, axis);
    let ghost sorted = left@;
    let mid: usize = left.len() / 2;
    let right = left.split_off(mid);
    proof {
        assert(left@ + right@ =~= sorted);
        assert forall|i: int, j: int| 0 <= i < left@.len() && 0 <= j < right@.len() implies place(
            items@,
            #[trigger] left@[i],
            axis as int,
        ) <= place(items@, #[trigger] right@[j], axis as int) by {
            assert(left@[i] == sorted[i] && right@[j] == sorted[mid + j]);
        }
        assert forall|i: int| 0 <= i < left@.len() implies (#[trigger] left@[i]) < items.len() by {
            assert(left@[i] == sorted[i]);
        }
        assert forall|j: int| 0 <= j < right@.len() implies (#[trigger] right@[j])
            < items.len() by {
            assert(right@[j] == sorted[mid + j]);
        }
    }
    (left, right)
}

/// Two lists of the same objects: whatever one of them names, the other names.
proof fn lemma_same_objects(a: Seq<usize>, b: Seq<usize>, i: int)
    requires
        a.to_multiset() == b.to_multiset(),
        0 <= i < a.len(),
    ensures
        b.contains(a[i]),
{
    assert(a.contains(a[i]));
    to_multiset_contains(a, a[i]);
    to_multiset_contains(b, a[i]);
}

/// A parting of two lists along an axis holds of any two lists of the same
/// objects.
proof fn lemma_parted_rearranged(
    items: Seq<Bounded>,
    left: Seq<usize>,
    right: Seq<usize>,
    new_left: Seq<usize>,
    new_right: Seq<usize>,
    axis: int,
)
    requires
        parted_along(items, left, right, axis),
        new_left.to_multiset() == left.to_multiset(),
        new_right.to_multiset() == right.to_multiset(),
    ensures
        parted_along(items, new_left, new_right, axis),
{
    assert forall|i: int, j: int|
        0 <= i < new_left.len() && 0 <= j < new_right.len() implies place(
        items,
        #[trigger] new_left[i],
        axis,
    ) <= place(items, #[trigger] new_right[j], axis) by {
        lemma_same_objects(new_left, left, i);
        lemma_same_objects(new_right, right, j);
        let a = left.index_of(new_left[i]);
        let b = right.index_of(new_right[j]);
        assert(left[a] == new_left[i] && right[b] == new_right[j]);
    }
}

/// The hierarchy over the objects named by `indices`. The axis of each split
/// is drawn at random.
fn build(items: &Vec<Bounded>, indices: Vec<usize>) -> (tree: BVH)
    requires
        indices@.len() >= 1,
        in_range(indices@, items@),
    ensures
        tree.wf(items@),
        tree.halved(),
        tree.parted(items@),
        tree.leaves().len() == indices@.len(),
        tree.leaves().to_multiset() == indices@.to_multiset(),
    decreases indices@.len(),
{
    if indices.len() == 1 {
        assert(indices@ =~= seq![indices@[0]]);
        BVH::Leaf { object: indices[0] }
    } else {
        let axis = random_axis();
        let (left_part, right_part) = split(items, &indices, axis);
        let ghost left_objects = left_part@;
        let ghost right_objects = right_part@;
        let left = build(items, left_part);
        let right = build(items, right_part);
        let bbox = surrounding_box(&left.bounding_box(items), &right.bounding_box(items));
        proof {
            lemma_multiset_commutative(left.leaves(), right.leaves());
            lemma_multiset_commutative(left_objects, right_objects);
            lemma_parted_rearranged(
                items@,
                left_objects,
                right_objects,
                left.leaves(),
                right.leaves(),
                axis as int,
            );
        }
        BVH::Node { left: Box::new(left), right: Box::new(right), bbox }
    }
}

impl BVH {
    /// The hierarchy over all of `items`; none when there are no items. The
    /// leaves name every object exactly once. At each inner node the objects
    /// are sorted along an axis drawn at random and split at the midpoint.
    pub fn new(items: &Vec<Bounded>) -> (tree: Option<BVH>)
        ensures
            tree is None <==> items@.len() == 0,
            tree matches Some(t) ==> {
                &&& t.wf(items@)
                &&& t.halved()
                &&& t.parted(items@)
                &&& t.leaves().to_multiset() == all_objects(items@.len()).to_multiset()
                &&& t.leaves().len() == items@.len()
                &&& t.leaves().no_duplicates()
                &&& forall|object: usize| object < items@.len() ==> t.leaves().contains(object)
            },
    {
        if items.len() == 0 {
            return None;
        }
        let mut indices: Vec<usize> = Vec::new();
        let mut i: usize = 0;
        while i < items.len()
            invariant
                i <= items.len(),
                indices@ == all_objects(i as nat),
            decreases items.len() - i,
        {
            indices.push(i);
            assert(indices@ =~= all_objects((i + 1) as nat));
            i += 1;
        }
        let tree = build(items, indices);
        proof {
            let all = all_objects(items@.len());
            let leaves = tree.leaves();
            assert(all.no_duplicates());
            all.lemma_multiset_has_no_duplicates();
            leaves.lemma_multiset_has_no_duplicates_conv();
            assert forall|object: usize| object < items@.len() implies leaves.contains(object) by {
                assert(all[object as int] == object);
                lemma_same_objects(all, leaves, object as int);
            }
        }
        Some(tree)
    }
}

/// The box of a node holds the box of every object below it.
pub proof fn lemma_bounds_hold_leaves(tree: BVH, items: Seq<Bounded>, i: int)
    requires
        tree.wf(items),
        forall|k: int| 0 <= k < items.len() ==> (#[trigger] items[k]).bbox.wf(),
        0 <= i < tree.leaves().len(),
    ensures
        tree.leaves()[i] < items.len(),
        tree.bounds(items).wf(),
        tree.bounds(items).contains(items[tree.leaves()[i] as int].bbox),
    decreases tree,
{
    match tree {
        BVH::Leaf { object } => {
            assert(items[object as int].bbox.wf());
        },
        BVH::Node { left, right, bbox } => {
            lemma_leaves_nonempty(*left);
            lemma_leaves_nonempty(*right);
            lemma_bounds_hold_leaves(*left, items, 0);
            lemma_bounds_hold_leaves(*right, items, 0);
            lemma_union_bounds(left.bounds(items), right.bounds(items));
            if i < left.leaves().len() {
                lemma_bounds_hold_leaves(*left, items, i);
                lemma_contains_transitive(
                    bbox,
                    left.bounds(items),
                    items[tree.leaves()[i] as int].bbox,
                );
            } else {
                let j = i - left.leaves().len();
                lemma_bounds_hold_leaves(*right, items, j);
                assert(tree.leaves()[i] == right.leaves()[j]);
                lemma_contains_transitive(
                    bbox,
                    right.bounds(items),
                    items[tree.leaves()[i] as int].bbox,
                );
            }
        },
    }
}

/// Every node has at least one leaf below it.
pub proof fn lemma_leaves_nonempty(tree: BVH)
    ensures
        tree.leaves().len() >= 1,
    decreases tree,
{
    match tree {
        BVH::Leaf { object } => {},
        BVH::Node { left, right, bbox } => {
            lemma_leaves_nonempty(*left);
            lemma_leaves_nonempty(*right);
        },
    }
}

} // verus!
