//! Searching the hierarchy for the nearest hit of a ray.
//!
//! The search itself decides nothing about geometry. It asks its caller two
//! kinds of question, whether the ray crosses a box within the reach that is
//! left and what the ray meets on an object within that reach, and from the
//! answers decides where to look next and which hit to keep.

use vstd::prelude::*;
use crate::aabb::AABB;
use crate::bvh::BVH;
use crate::hit::{
    answers, closer, keep_closer, lemma_linear_all_miss, lemma_linear_is_nearest,
    lemma_linear_joined, linear, reach, within, answer, HitRecord, Hittable,
};
use crate::ray::Ray;
use crate::scalar::Scalar;

verus! {

/// What the search wants tested next.
#[derive(Clone, Copy, Debug)]
pub enum Probe {
    /// Does the ray cross this box within the reach?
    Bounds(AABB),
    /// What does the ray meet on this object within the reach?
    Object(usize),
    /// Nothing: the search is over.
    Done,
}

/// A search under way: the subtrees still to be looked at, the next one
/// last, the far end of the range searched, and the nearest hit found so far.
pub struct Walk<'a> {
    stack: Vec<&'a BVH>,
    t_max: Scalar,
    best: Option<HitRecord>,
}

/// A search as a mathematical value.
pub struct WalkModel {
    pub pending: Seq<BVH>,
    pub t_max: Scalar,
    pub best: Option<HitRecord>,
}

/// The number of nodes in the subtrees still to be looked at.
pub open spec fn weight(pending: Seq<BVH>) -> nat
    decreases pending.len(),
{
    if pending.len() == 0 {
        0
    } else {
        weight(pending.drop_last()) + pending.last().size()
    }
}

impl WalkModel {
    /// A search of the whole of `tree` that has found nothing yet.
    pub open spec fn begin(tree: BVH, t_max: Scalar) -> WalkModel {
        WalkModel { pending: seq![tree], t_max, best: None }
    }

    /// The question the search poses: about the subtree that is next.
    pub open spec fn probe(self) -> Probe {
        if self.pending.len() == 0 {
            Probe::Done
        } else {
            match self.pending.last() {
                BVH::Leaf { object } => Probe::Object(object),
                BVH::Node { left, right, bbox } => Probe::Bounds(bbox),
            }
        }
    }

    /// How far the search still reaches.
    pub open spec fn reach(self) -> Scalar {
        reach(self.best, self.t_max)
    }

    /// The search after the box of the next subtree was tested. If the ray
    /// crosses the box, the two children take the subtree's place, the left
    /// one next; if not, the subtree is dropped. If the next subtree is not an
    /// inner node, nothing changes.
    pub open spec fn after_bounds(self, crossed: bool) -> WalkModel {
        if self.pending.len() == 0 {
            self
        } else {
            match self.pending.last() {
                BVH::Leaf { object } => self,
                BVH::Node { left, right, bbox } => WalkModel {
                    pending: if crossed {
                        self.pending.drop_last().push(*right).push(*left)
                    } else {
                        self.pending.drop_last()
                    },
                    ..self
                },
            }
        }
    }

    /// The search after the next subtree's object was tested: the leaf is
    /// done with, and the nearer of the hit found so far and the object's is
    /// kept. If the next subtree is not a leaf, nothing changes.
    pub open spec fn after_object(self, outcome: Option<HitRecord>) -> WalkModel {
        if self.pending.len() == 0 {
            self
        } else {
            match self.pending.last() {
                BVH::Leaf { object } => WalkModel {
                    pending: self.pending.drop_last(),
                    best: closer(self.best, outcome),
                    ..self
                },
                BVH::Node { left, right, bbox } => self,
            }
        }
    }

    /// The number of nodes the search has still to deal with.
    pub open spec fn work(self) -> nat {
        weight(self.pending)
    }
}

/// Every answer to the question posed leaves the search with less to do.
pub proof fn lemma_work_decreases(walk: WalkModel, crossed: bool, outcome: Option<HitRecord>)
    ensures
        walk.probe() is Bounds ==> walk.after_bounds(crossed).work() < walk.work(),
        walk.probe() is Object ==> walk.after_object(outcome).work() < walk.work(),
        walk.probe() is Done <==> walk.work() == 0,
{
    if walk.pending.len() > 0 {
        let rest = walk.pending.drop_last();
        match walk.pending.last() {
            BVH::Leaf { object } => {},
            BVH::Node { left, right, bbox } => {
                let one = rest.push(*right);
                let two = one.push(*left);
                assert(one.drop_last() =~= rest);
                assert(two.drop_last() =~= one);
                assert(weight(one) == weight(rest) + right.size());
                assert(weight(two) == weight(one) + left.size());
                assert(walk.pending.last().size() == 1 + left.size() + right.size());
            },
        }
    }
}

impl<'a> View for Walk<'a> {
    type V = WalkModel;

    closed spec fn view(&self) -> WalkModel {
        WalkModel {
            pending: self.stack@.map_values(|node: &BVH| *node),
            t_max: self.t_max,
            best: self.best,
        }
    }
}

impl<'a> Walk<'a> {
    /// Begins the search of `tree` for the nearest hit no farther than `t_max`.
    pub fn start(tree: &'a BVH, t_max: Scalar) -> (walk: Walk<'a>)
        ensures
            walk@ == WalkModel::begin(*tree, t_max),
    {
        let mut stack: Vec<&'a BVH> = Vec::new();
        stack.push(tree);
        let walk = Walk { stack, t_max, best: None };
        assert(walk@.pending =~= seq![*tree]);
        walk
    }

    /// What to test next.
    pub fn probe(&self) -> (p: Probe)
        ensures
            p == self@.probe(),
    {
        let n = self.stack.len();
        if n == 0 {
            Probe::Done
        } else {
            match self.stack[n - 1] {
                BVH::Leaf { object } => Probe::Object(*object),
                BVH::Node { left, right, bbox } => Probe::Bounds(*bbox),
            }
        }
    }

    /// How far the next test has to look: to the nearest hit found so far, or
    /// to the end of the range while there is none.
    pub fn reach(&self) -> (limit: Scalar)
        ensures
            limit == self@.reach(),
    {
        match self.best {
            Some(b) => b.t,
            None => self.t_max,
        }
    }

    /// The nearest hit found so far; when nothing is left to test, the
    /// nearest hit there is.
    pub fn best(&self) -> (b: Option<HitRecord>)
        ensures
            b == self@.best,
    {
        self.best
    }

    /// Takes the answer to a `Probe::Bounds`: whether the ray crosses the box.
    pub fn bounds_tested(&mut self, crossed: bool)
        ensures
            final(self)@ == old(self)@.after_bounds(crossed),
    {
        let n = self.stack.len();
        if n == 0 {
            return ;
        }
        let top: &'a BVH = self.stack[n - 1];
        let ghost rest = self@.pending.drop_last();
        match top {
            BVH::Leaf { object } => {},
            BVH::Node { left, right, bbox } => {
                self.stack.pop();
                assert(self@.pending =~= rest);
                if crossed {
                    self.stack.push(&**right);
                    self.stack.push(&**left);
                    assert(self@.pending =~= rest.push(**right).push(**left));
                }
            },
        }
    }

    /// Takes the answer to a `Probe::Object`: what the ray meets on the object.
    pub fn object_tested(&mut self, outcome: Option<HitRecord>)
        ensures
            final(self)@ == old(self)@.after_object(outcome),
    {
        let n = self.stack.len();
        if n == 0 {
            return ;
        }
        let top: &'a BVH = self.stack[n - 1];
        let ghost rest = self@.pending.drop_last();
        match top {
            BVH::Leaf { object } => {
                self.stack.pop();
                assert(self@.pending =~= rest);
                self.best = keep_closer(self.best, outcome);
            },
            BVH::Node { left, right, bbox } => {},
        }
    }
}

/// The answer that the search takes for the object of a leaf: what the
/// object may return within the reach, or nothing where the leaf names no
/// object of the list.
pub open spec fn may_meet<H: Hittable>(
    objects: Seq<H>,
    object: usize,
    r: Ray,
    t_min: Scalar,
    limit: Scalar,
    outcome: Option<HitRecord>,
) -> bool {
    if object < objects.len() {
        objects[object as int].hits(r, t_min, limit, outcome)
    } else {
        outcome is None
    }
}

/// The search `walk`, carried on with the box test `crosses` and the objects
/// `objects`, may end with `outcome`.
pub open spec fn searches<H: Hittable, F: Fn(&AABB, &Ray, Scalar, Scalar) -> bool>(
    walk: WalkModel,
    objects: Seq<H>,
    crosses: F,
    r: Ray,
    t_min: Scalar,
    outcome: Option<HitRecord>,
) -> bool
    decreases walk.work(),
{
    match walk.probe() {
        Probe::Done => outcome == walk.best,
        Probe::Bounds(bbox) => exists|crossed: bool|
            {
                &&& call_ensures(crosses, (&bbox, &r, t_min, walk.reach()), crossed)
                &&& #[trigger] walk.after_bounds(crossed).work() < walk.work()
                &&& searches(walk.after_bounds(crossed), objects, crosses, r, t_min, outcome)
            },
        Probe::Object(object) => exists|met: Option<HitRecord>|
            {
                &&& may_meet(objects, object, r, t_min, walk.reach(), met)
                &&& #[trigger] walk.after_object(met).work() < walk.work()
                &&& searches(walk.after_object(met), objects, crosses, r, t_min, outcome)
            },
    }
}

/// Searches `tree` for the nearest hit of the ray in `[t_min, t_max]`. The
/// leaves of the tree name the objects of `objects`, and `crosses` tells
/// whether the ray crosses a box within a range. A subtree is searched only
/// if the ray crosses its box within the reach that is left, the left child
/// before the right; of the hits found the nearest is returned.
pub fn search<H: Hittable, F: Fn(&AABB, &Ray, Scalar, Scalar) -> bool>(
    tree: &BVH,
    objects: &Vec<H>,
    crosses: &F,
    r: &Ray,
    t_min: Scalar,
    t_max: Scalar,
) -> (outcome: Option<HitRecord>)
    requires
        forall|bbox: &AABB, ray: &Ray, from: Scalar, to: Scalar|
            call_requires(*crosses, (bbox, ray, from, to)),
    ensures
        searches(WalkModel::begin(*tree, t_max), objects@, *crosses, *r, t_min, outcome),
{
    let mut walk = Walk::start(tree, t_max);
    let ghost begun = walk@;
    loop
        invariant
            forall|bbox: &AABB, ray: &Ray, from: Scalar, to: Scalar|
                call_requires(*crosses, (bbox, ray, from, to)),
            forall|end: Option<HitRecord>|
                searches(walk@, objects@, *crosses, *r, t_min, end) ==> searches(
                    begun,
                    objects@,
                    *crosses,
                    *r,
                    t_min,
                    end,
                ),
        ensures
            walk@.probe() is Done,
            searches(begun, objects@, *crosses, *r, t_min, walk@.best),
        decreases walk@.work(),
    {
        let ghost before = walk@;
        match walk.probe() {
            Probe::Done => {
                assert(searches(walk@, objects@, *crosses, *r, t_min, walk@.best));
                break ;
            },
            Probe::Bounds(bbox) => {
                let crossed = crosses(&bbox, r, t_min, walk.reach());
                walk.bounds_tested(crossed);
                proof {
                    lemma_work_decreases(before, crossed, None);
                    assert forall|end: Option<HitRecord>|
                        searches(walk@, objects@, *crosses, *r, t_min, end) implies searches(
                        before,
                        objects@,
                        *crosses,
                        *r,
                        t_min,
                        end,
                    ) by {
                        assert(before.after_bounds(crossed).work() < before.work());
                    }
                }
            },
            Probe::Object(object) => {
                let met = if object < objects.len() {
                    objects[object].hit(r, t_min, walk.reach())
                } else {
                    None
                };
                walk.object_tested(met);
                proof {
                    lemma_work_decreases(before, false, met);
                    assert forall|end: Option<HitRecord>|
                        searches(walk@, objects@, *crosses, *r, t_min, end) implies searches(
                        before,
                        objects@,
                        *crosses,
                        *r,
                        t_min,
                        end,
                    ) by {
                        assert(may_meet(objects@, object, *r, t_min, before.reach(), met));
                        assert(before.after_object(met).work() < before.work());
                    }
                }
            },
        }
    }
    walk.best()
}

/// The outcome of the search `walk` when a box asked within `limit` answers
/// `crosses(box, limit)` and object `o` asked within `limit` answers
/// `meets(o, limit)`.
pub open spec fn sweep(
    walk: WalkModel,
    crosses: spec_fn(AABB, Scalar) -> bool,
    meets: spec_fn(usize, Scalar) -> Option<HitRecord>,
) -> Option<HitRecord>
    decreases walk.work(),
{
    match walk.probe() {
        Probe::Done => walk.best,
        Probe::Bounds(bbox) => {
            proof {
                lemma_work_decreases(walk, crosses(bbox, walk.reach()), None);
            }
            sweep(walk.after_bounds(crosses(bbox, walk.reach())), crosses, meets)
        },
        Probe::Object(object) => {
            proof {
                lemma_work_decreases(walk, false, meets(object, walk.reach()));
            }
            sweep(walk.after_object(meets(object, walk.reach())), crosses, meets)
        },
    }
}

/// A search whose box test and objects each have one answer for every
/// limit, the answers `crosses` and `meets`, ends as `sweep` says.
pub proof fn lemma_searches_is_sweep<H: Hittable, F: Fn(&AABB, &Ray, Scalar, Scalar) -> bool>(
    walk: WalkModel,
    objects: Seq<H>,
    test: F,
    r: Ray,
    t_min: Scalar,
    crosses: spec_fn(AABB, Scalar) -> bool,
    meets: spec_fn(usize, Scalar) -> Option<HitRecord>,
    outcome: Option<HitRecord>,
)
    requires
        forall|bbox: AABB, limit: Scalar, crossed: bool| #[trigger]
            call_ensures(test, (&bbox, &r, t_min, limit), crossed) ==> crossed == crosses(
                bbox,
                limit,
            ),
        forall|object: usize, limit: Scalar, met: Option<HitRecord>| #[trigger]
            may_meet(objects, object, r, t_min, limit, met) ==> met == meets(object, limit),
        searches(walk, objects, test, r, t_min, outcome),
    ensures
        outcome == sweep(walk, crosses, meets),
    decreases walk.work(),
{
    match walk.probe() {
        Probe::Done => {},
        Probe::Bounds(bbox) => {
            let crossed = choose|crossed: bool|
                {
                    &&& call_ensures(test, (&bbox, &r, t_min, walk.reach()), crossed)
                    &&& #[trigger] walk.after_bounds(crossed).work() < walk.work()
                    &&& searches(walk.after_bounds(crossed), objects, test, r, t_min, outcome)
                };
            lemma_searches_is_sweep(
                walk.after_bounds(crossed),
                objects,
                test,
                r,
                t_min,
                crosses,
                meets,
                outcome,
            );
        },
        Probe::Object(object) => {
            let met = choose|met: Option<HitRecord>|
                {
                    &&& may_meet(objects, object, r, t_min, walk.reach(), met)
                    &&& #[trigger] walk.after_object(met).work() < walk.work()
                    &&& searches(walk.after_object(met), objects, test, r, t_min, outcome)
                };
            lemma_searches_is_sweep(
                walk.after_object(met),
                objects,
                test,
                r,
                t_min,
                crosses,
                meets,
                outcome,
            );
        },
    }
}

/// The object, asked within `limit`, answers with nothing.
pub open spec fn misses(
    meets: spec_fn(usize, Scalar) -> Option<HitRecord>,
    object: usize,
    limit: Scalar,
) -> bool {
    meets(object, limit) is None
}

/// The box answers never hide a hit: wherever in `tree` the ray is said not
/// to cross a node's box within some limit, no object below that node
/// answers with a hit within that limit.
pub open spec fn sound(
    tree: BVH,
    crosses: spec_fn(AABB, Scalar) -> bool,
    meets: spec_fn(usize, Scalar) -> Option<HitRecord>,
) -> bool
    decreases tree,
{
    match tree {
        BVH::Leaf { object } => true,
        BVH::Node { left, right, bbox } => {
            &&& sound(*left, crosses, meets)
            &&& sound(*right, crosses, meets)
            &&& forall|limit: Scalar, i: int|
                !crosses(bbox, limit) && 0 <= i < tree.leaves().len() ==> #[trigger] misses(
                    meets,
                    tree.leaves()[i],
                    limit,
                )
        },
    }
}

/// The objects below the subtrees still to be looked at, in the order in
/// which the search comes to them.
pub open spec fn agenda(pending: Seq<BVH>) -> Seq<usize>
    decreases pending.len(),
{
    if pending.len() == 0 {
        Seq::empty()
    } else {
        pending.last().leaves() + agenda(pending.drop_last())
    }
}

/// A search with sound box answers finds what asking the objects on its
/// agenda one after the other finds.
pub proof fn lemma_sweep_is_linear(
    walk: WalkModel,
    crosses: spec_fn(AABB, Scalar) -> bool,
    meets: spec_fn(usize, Scalar) -> Option<HitRecord>,
)
    requires
        forall|k: int| 0 <= k < walk.pending.len() ==> sound(#[trigger] walk.pending[k], crosses, meets),
    ensures
        sweep(walk, crosses, meets) == linear(agenda(walk.pending), walk.best, walk.t_max, meets),
    decreases walk.work(),
{
    if walk.pending.len() == 0 {
    } else {
        let rest = walk.pending.drop_last();
        let top = walk.pending.last();
        assert(forall|k: int| 0 <= k < rest.len() ==> rest[k] == walk.pending[k]);
        assert(sound(walk.pending[walk.pending.len() - 1], crosses, meets));
        lemma_linear_joined(top.leaves(), agenda(rest), walk.best, walk.t_max, meets);
        match top {
            BVH::Leaf { object } => {
                let outcome = meets(object, walk.reach());
                let next = walk.after_object(outcome);
                lemma_work_decreases(walk, false, outcome);
                lemma_sweep_is_linear(next, crosses, meets);
                assert(top.leaves().drop_last() =~= Seq::<usize>::empty());
                assert(top.leaves().last() == object);
                assert(linear(top.leaves().drop_last(), walk.best, walk.t_max, meets)
                    == walk.best);
                assert(linear(top.leaves(), walk.best, walk.t_max, meets) == closer(
                    walk.best,
                    outcome,
                ));
            },
            BVH::Node { left, right, bbox } => {
                let crossed = crosses(bbox, walk.reach());
                let next = walk.after_bounds(crossed);
                lemma_work_decreases(walk, crossed, None);
                if crossed {
                    let one = rest.push(*right);
                    let two = one.push(*left);
                    assert forall|k: int| 0 <= k < two.len() implies sound(
                        #[trigger] two[k],
                        crosses,
                        meets,
                    ) by {
                        if k < rest.len() {
                            assert(two[k] == walk.pending[k]);
                        }
                    }
                    lemma_sweep_is_linear(next, crosses, meets);
                    assert(one.drop_last() =~= rest);
                    assert(two.drop_last() =~= one);
                    assert(agenda(one) == right.leaves() + agenda(rest));
                    assert(agenda(two) == left.leaves() + agenda(one));
                    assert(agenda(two) =~= top.leaves() + agenda(rest));
                } else {
                    lemma_sweep_is_linear(next, crosses, meets);
                    assert forall|i: int| 0 <= i < top.leaves().len() implies meets(
                        #[trigger] top.leaves()[i],
                        reach(walk.best, walk.t_max),
                    ) is None by {
                        assert(!crosses(bbox, walk.reach()));
                        assert(misses(meets, top.leaves()[i], walk.reach()));
                    }
                    lemma_linear_all_miss(top.leaves(), walk.best, walk.t_max, meets);
                }
            },
        }
    }
}

/// Searching a hierarchy with sound box answers finds exactly what asking its
/// objects one after the other, from the leftmost leaf to the rightmost,
/// finds.
pub proof fn lemma_search_is_linear(
    tree: BVH,
    t_max: Scalar,
    crosses: spec_fn(AABB, Scalar) -> bool,
    meets: spec_fn(usize, Scalar) -> Option<HitRecord>,
)
    requires
        sound(tree, crosses, meets),
    ensures
        sweep(WalkModel::begin(tree, t_max), crosses, meets) == linear(
            tree.leaves(),
            None,
            t_max,
            meets,
        ),
{
    let walk = WalkModel::begin(tree, t_max);
    lemma_sweep_is_linear(walk, crosses, meets);
    assert(walk.pending.drop_last() =~= Seq::<BVH>::empty());
    assert(walk.pending.last() == tree);
    assert(agenda(walk.pending.drop_last()) =~= Seq::<usize>::empty());
    assert(agenda(walk.pending) =~= tree.leaves());
}

/// No two different objects have hits within `t_max` that are equally far.
pub open spec fn no_ties(objects: Seq<usize>, hits: Seq<Option<HitRecord>>, t_max: Scalar) -> bool {
    forall|i: int, j: int|
        0 <= i < objects.len() && 0 <= j < objects.len() && objects[i] != objects[j] ==> !(answer(hits, #[trigger] objects[i], t_max) matches Some(a) && answer(hits, #[trigger] objects[j], t_max) matches Some(b)
            && a.t.same(b.t))
}

/// The order in which objects are asked decides only between hits that are
/// equally far. Two lists of the same objects yield a hit or none together,
/// and hits of the same `t`; where no two objects tie, they yield the same
/// hit.
pub proof fn lemma_order_breaks_ties_only(
    first: Seq<usize>,
    second: Seq<usize>,
    hits: Seq<Option<HitRecord>>,
    t_max: Scalar,
)
    requires
        forall|i: int| 0 <= i < first.len() ==> second.contains(#[trigger] first[i]),
        forall|j: int| 0 <= j < second.len() ==> first.contains(#[trigger] second[j]),
    ensures
        linear(first, None, t_max, answers(hits)) is None <==> linear(
            second,
            None,
            t_max,
            answers(hits),
        ) is None,
        linear(first, None, t_max, answers(hits)) matches Some(a) ==> (linear(
            second,
            None,
            t_max,
            answers(hits),
        ) matches Some(b) ==> a.t.same(b.t)),
        no_ties(first, hits, t_max) ==> linear(first, None, t_max, answers(hits)) == linear(
            second,
            None,
            t_max,
            answers(hits),
        ),
{
    let one = linear(first, None, t_max, answers(hits));
    let two = linear(second, None, t_max, answers(hits));
    let i = lemma_linear_is_nearest(first, hits, t_max);
    let j = lemma_linear_is_nearest(second, hits, t_max);
    if one is Some {
        let a = one->0;
        let k = second.index_of(first[i]);
        assert(second[k] == first[i]);
        assert(answer(hits, second[k], t_max) is Some);
        assert(two is Some);
        let b = two->0;
        let m = first.index_of(second[j]);
        assert(first[m] == second[j]);
        assert(answer(hits, first[m], t_max) == Some(b));
        assert(a.t.le(b.t));
        assert(b.t.le(a.t));
        if no_ties(first, hits, t_max) {
            if first[i] != first[m] {
                assert(answer(hits, first[i], t_max) == Some(a));
                assert(false);
            }
        }
    } else {
        if two is Some {
            let m = first.index_of(second[j]);
            assert(first[m] == second[j]);
            assert(answer(hits, first[m], t_max) is Some);
            assert(false);
        }
    }
}

/// Searching the hierarchy and asking the objects of a list one after the
/// other agree. When every object reports its one nearest hit whenever that
/// lies within the limit it is asked with, when the box answers are sound,
/// and when the hierarchy's leaves are the list's objects, then the search
/// and the list yield a hit or none together, and hits of the same `t`;
/// where no two objects tie, they yield the same hit.
pub proof fn lemma_search_agrees_with_list(
    tree: BVH,
    objects: Seq<usize>,
    hits: Seq<Option<HitRecord>>,
    t_max: Scalar,
    crosses: spec_fn(AABB, Scalar) -> bool,
)
    requires
        sound(tree, crosses, answers(hits)),
        forall|i: int| 0 <= i < objects.len() ==> tree.leaves().contains(#[trigger] objects[i]),
        forall|j: int| 0 <= j < tree.leaves().len() ==> objects.contains(#[trigger] tree.leaves()[j]),
    ensures
        sweep(WalkModel::begin(tree, t_max), crosses, answers(hits)) is None <==> linear(
            objects,
            None,
            t_max,
            answers(hits),
        ) is None,
        sweep(WalkModel::begin(tree, t_max), crosses, answers(hits)) matches Some(a) ==> (linear(
            objects,
            None,
            t_max,
            answers(hits),
        ) matches Some(b) ==> a.t.same(b.t)),
        no_ties(objects, hits, t_max) ==> sweep(
            WalkModel::begin(tree, t_max),
            crosses,
            answers(hits),
        ) == linear(objects, None, t_max, answers(hits)),
{
    lemma_search_is_linear(tree, t_max, crosses, answers(hits));
    lemma_order_breaks_ties_only(objects, tree.leaves(), hits, t_max);
}

/// The hierarchy and the list agree on what a ray hits. Take objects that
/// each have one nearest hit and report it whenever it lies within the limit
/// they are asked with, a box test that has one answer for every box and
/// limit and never hides a hit, and a hierarchy whose leaves are the objects
/// of the list. Then whatever the search of the hierarchy ends with and
/// whatever the scan of the list ends with are a hit or none together, and
/// hits of the same `t`; where no two objects tie, they are the same hit.
pub proof fn lemma_hierarchy_agrees_with_list<H: Hittable, F: Fn(&AABB, &Ray, Scalar, Scalar) -> bool>(
    tree: BVH,
    objects: Seq<H>,
    test: F,
    r: Ray,
    t_min: Scalar,
    t_max: Scalar,
    crosses: spec_fn(AABB, Scalar) -> bool,
    hits: Seq<Option<HitRecord>>,
    found: Option<HitRecord>,
    listed: Option<HitRecord>,
)
    requires
        objects.len() <= usize::MAX,
        forall|bbox: AABB, limit: Scalar, crossed: bool| #[trigger]
            call_ensures(test, (&bbox, &r, t_min, limit), crossed) ==> crossed == crosses(
                bbox,
                limit,
            ),
        hits.len() == objects.len(),
        forall|i: int, limit: Scalar, met: Option<HitRecord>|
            0 <= i < objects.len() && #[trigger] objects[i].hits(r, t_min, limit, met) ==> met
                == within(hits[i], limit),
        sound(tree, crosses, answers(hits)),
        forall|j: int|
            0 <= j < tree.leaves().len() ==> (#[trigger] tree.leaves()[j]) < objects.len(),
        forall|object: usize| object < objects.len() ==> tree.leaves().contains(object),
        searches(WalkModel::begin(tree, t_max), objects, test, r, t_min, found),
        crate::hit::scan(objects, r, t_min, t_max, listed),
    ensures
        found is None <==> listed is None,
        found matches Some(a) ==> (listed matches Some(b) ==> a.t.same(b.t)),
        no_ties(crate::hit::all_objects(objects.len()), hits, t_max) ==> found == listed,
{
    let meets = answers(hits);
    let in_order = crate::hit::all_objects(objects.len());
    assert forall|object: usize, limit: Scalar, met: Option<HitRecord>| #[trigger]
        may_meet(objects, object, r, t_min, limit, met) implies met == meets(object, limit) by {
        if object < objects.len() {
            assert(objects[object as int].hits(r, t_min, limit, met));
        }
    }
    lemma_searches_is_sweep(
        WalkModel::begin(tree, t_max),
        objects,
        test,
        r,
        t_min,
        crosses,
        meets,
        found,
    );
    crate::hit::lemma_scan_is_linear(objects, r, t_min, t_max, meets, listed);
    assert forall|i: int| 0 <= i < in_order.len() implies tree.leaves().contains(
        #[trigger] in_order[i],
    ) by {
        assert(in_order[i] == i as usize);
    }
    assert forall|j: int| 0 <= j < tree.leaves().len() implies in_order.contains(
        #[trigger] tree.leaves()[j],
    ) by {
        let object = tree.leaves()[j];
        assert(in_order[object as int] == object);
    }
    lemma_search_agrees_with_list(tree, in_order, hits, t_max, crosses);
}

} // verus!
