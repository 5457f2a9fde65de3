//! What a ray meets: hit records, the capability of being hit, and the two
//! structural wrappers that are themselves hittable, a list and a normal flip.

use vstd::prelude::*;
use rand::seq::SliceRandom;
use crate::aabb::{surrounding_box, AABB};
use crate::ray::Ray;
use crate::scalar::Scalar;
use crate::vector::{Point3, Vector3};

verus! {

/// One intersection of a ray with a surface. `material` is the handle of the
/// struck object's material in the scene's table of materials.
#[derive(Clone, Copy, Debug)]
pub struct HitRecord {
    pub position: Point3,
    pub normal: Vector3,
    pub t: Scalar,
    pub u: Scalar,
    pub v: Scalar,
    pub front_face: bool,
    pub material: usize,
}

impl HitRecord {
    /// The record with the front-face flag inverted and all else kept.
    pub open spec fn flipped(self) -> HitRecord {
        HitRecord { front_face: !self.front_face, ..self }
    }

    /// The record with the normal set against a ray whose direction has the dot
    /// product `facing` with `outward_normal`.
    pub open spec fn faced(self, facing: Scalar, outward_normal: Vector3) -> HitRecord {
        let front = facing.lt(Scalar { bits: 0 });
        HitRecord {
            front_face: front,
            normal: if front {
                outward_normal
            } else {
                outward_normal.negated()
            },
            ..self
        }
    }

    /// Orients the stored normal against the incoming ray. `facing` is the dot
    /// product of the ray's direction with `outward_normal`: the ray strikes
    /// the front face exactly when it is negative, and the stored normal is
    /// the outward normal then and its opposite otherwise.
    pub fn set_face_normal(&mut self, facing: Scalar, outward_normal: Vector3)
        ensures
            *final(self) == old(self).faced(facing, outward_normal),
            final(self).front_face <==> facing.lt(Scalar { bits: 0 }),
    {
        self.front_face = facing.less(Scalar::zero());
        self.normal = if self.front_face {
            outward_normal
        } else {
            outward_normal.neg()
        };
    }
}

/// The stored normal never points along the ray. `facing` is the dot product
/// of the ray's direction with the outward normal; with the opposite normal
/// the dot product is the opposite number. So the dot product of the
/// direction with the normal that `set_face_normal` stores is `facing` where
/// the front face is struck and its opposite elsewhere, and that is never
/// above zero.
pub proof fn lemma_stored_normal_opposes(rec: HitRecord, facing: Scalar, outward_normal: Vector3)
    requires
        !facing.is_nan(),
    ensures
        ({
            let faced = rec.faced(facing, outward_normal);
            let stored = if faced.front_face {
                facing
            } else {
                facing.negated()
            };
            &&& faced.front_face <==> facing.lt(Scalar { bits: 0 })
            &&& faced.normal == if faced.front_face {
                outward_normal
            } else {
                outward_normal.negated()
            }
            &&& stored.le(Scalar { bits: 0 })
        }),
{
    crate::scalar::lemma_negated(facing);
    assert(0u64 & crate::scalar::MAGNITUDE_MASK == 0) by (bit_vector);
    assert(0u64 & crate::scalar::SIGN_BIT == 0) by (bit_vector);
}

/// Of what was found so far and what the next object returned, the one to
/// keep: the candidate if nothing was found yet or if it is strictly nearer,
/// and what was found otherwise. On equal distance the earlier one stays.
pub open spec fn closer(best: Option<HitRecord>, candidate: Option<HitRecord>) -> Option<
    HitRecord,
> {
    match candidate {
        None => best,
        Some(c) => match best {
            None => candidate,
            Some(b) => if c.t.lt(b.t) {
                candidate
            } else {
                best
            },
        },
    }
}

/// How far the search still reaches: to the hit found so far, or to `t_max`
/// while there is none.
pub open spec fn reach(best: Option<HitRecord>, t_max: Scalar) -> Scalar {
    match best {
        Some(b) => b.t,
        None => t_max,
    }
}

/// Keeps the nearer of the hit found so far and a new candidate.
pub fn keep_closer(best: Option<HitRecord>, candidate: Option<HitRecord>) -> (kept: Option<
    HitRecord,
>)
    ensures
        kept == closer(best, candidate),
{
    match candidate {
        None => best,
        Some(c) => match best {
            None => candidate,
            Some(b) => if c.t.less(b.t) {
                candidate
            } else {
                best
            },
        },
    }
}

/// What an object reports when it is asked within `limit` and its nearest
/// hit anywhere is `hit`: that hit if it lies within the limit, else nothing.
pub open spec fn within(hit: Option<HitRecord>, limit: Scalar) -> Option<HitRecord> {
    match hit {
        Some(rec) => if rec.t.le(limit) {
            hit
        } else {
            None
        },
        None => None,
    }
}

/// What object `object` reports when asked within `limit`, where
/// `hits[object]` is its nearest hit anywhere. An object that `hits` does not
/// know reports nothing.
pub open spec fn answer(hits: Seq<Option<HitRecord>>, object: usize, limit: Scalar) -> Option<
    HitRecord,
> {
    if object < hits.len() {
        within(hits[object as int], limit)
    } else {
        None
    }
}

/// The answers of objects that each have one nearest hit, `hits[object]`, and
/// report it whenever it lies within the limit they are asked with.
pub open spec fn answers(hits: Seq<Option<HitRecord>>) -> spec_fn(usize, Scalar) -> Option<
    HitRecord,
> {
    |object: usize, limit: Scalar| answer(hits, object, limit)
}

/// The outcome of asking `objects` one after the other, each within the reach
/// left by those before it, when object `o` asked within `limit` answers
/// `meets(o, limit)`; `best` is what was found before the first of them.
pub open spec fn linear(
    objects: Seq<usize>,
    best: Option<HitRecord>,
    t_max: Scalar,
    meets: spec_fn(usize, Scalar) -> Option<HitRecord>,
) -> Option<HitRecord>
    decreases objects.len(),
{
    if objects.len() == 0 {
        best
    } else {
        let before = linear(objects.drop_last(), best, t_max, meets);
        closer(before, meets(objects.last(), reach(before, t_max)))
    }
}

/// Asking one list of objects and then another is asking the two lists joined.
pub proof fn lemma_linear_joined(
    first: Seq<usize>,
    second: Seq<usize>,
    best: Option<HitRecord>,
    t_max: Scalar,
    meets: spec_fn(usize, Scalar) -> Option<HitRecord>,
)
    ensures
        linear(first + second, best, t_max, meets) == linear(
            second,
            linear(first, best, t_max, meets),
            t_max,
            meets,
        ),
    decreases second.len(),
{
    if second.len() == 0 {
        assert(first + second =~= first);
    } else {
        assert((first + second).drop_last() =~= first + second.drop_last());
        assert((first + second).last() == second.last());
        lemma_linear_joined(first, second.drop_last(), best, t_max, meets);
    }
}

/// Objects that all answer with nothing leave what was found as it was.
pub proof fn lemma_linear_all_miss(
    objects: Seq<usize>,
    best: Option<HitRecord>,
    t_max: Scalar,
    meets: spec_fn(usize, Scalar) -> Option<HitRecord>,
)
    requires
        forall|i: int|
            0 <= i < objects.len() ==> meets(#[trigger] objects[i], reach(best, t_max)) is None,
    ensures
        linear(objects, best, t_max, meets) == best,
    decreases objects.len(),
{
    if objects.len() > 0 {
        assert forall|i: int| 0 <= i < objects.drop_last().len() implies meets(
            #[trigger] objects.drop_last()[i],
            reach(best, t_max),
        ) is None by {
            assert(objects.drop_last()[i] == objects[i]);
        }
        lemma_linear_all_miss(objects.drop_last(), best, t_max, meets);
        assert(meets(objects[objects.len() - 1], reach(best, t_max)) is None);
    }
}

/// Asked in order, objects that each report their one nearest hit yield the
/// nearest hit of all within `t_max`, and of several equally near the one
/// asked first. The outcome is nothing exactly when no object has a hit
/// within `t_max`. Otherwise it is the hit of some object `i`: no object has a
/// nearer hit, and every object asked before `i` has a strictly farther one.
pub proof fn lemma_linear_is_nearest(
    objects: Seq<usize>,
    hits: Seq<Option<HitRecord>>,
    t_max: Scalar,
) -> (i: int)
    ensures
        linear(objects, None, t_max, answers(hits)) is None <==> forall|j: int|
            0 <= j < objects.len() ==> answer(hits, #[trigger] objects[j], t_max) is None,
        linear(objects, None, t_max, answers(hits)) matches Some(b) ==> {
            &&& 0 <= i < objects.len()
            &&& objects[i] < hits.len()
            &&& hits[objects[i] as int] == Some(b)
            &&& b.t.le(t_max)
            &&& forall|j: int|
                0 <= j < objects.len() ==> (answer(hits, #[trigger] objects[j], t_max) matches Some(c) ==> b.t.le(c.t))
            &&& forall|j: int|
                0 <= j < i ==> (answer(hits, #[trigger] objects[j], t_max) matches Some(
                    c,
                ) ==> b.t.lt(c.t))
        },
    decreases objects.len(),
{
    let meets = answers(hits);
    if objects.len() == 0 {
        0
    } else {
        let front = objects.drop_last();
        let last = objects.len() - 1;
        let k = lemma_linear_is_nearest(front, hits, t_max);
        let before = linear(front, None, t_max, meets);
        let candidate = meets(objects.last(), reach(before, t_max));
        let out = closer(before, candidate);
        assert(forall|j: int| 0 <= j < front.len() ==> front[j] == objects[j]);
        assert(candidate == answer(hits, objects[last], reach(before, t_max)));
        match before {
            None => {
                if out is None {
                    assert forall|j: int| 0 <= j < objects.len() implies answer(hits, #[trigger] objects[j], t_max) is None by {
                        if j < last {
                            assert(front[j] == objects[j]);
                        }
                    }
                } else {
                    assert forall|j: int| 0 <= j < last implies (answer(hits, #[trigger] objects[j], t_max) matches Some(c) ==> out->0.t.lt(c.t)) by {
                        assert(front[j] == objects[j]);
                    }
                }
                last
            },
            Some(b) => {
                assert(objects[k] < hits.len() && hits[objects[k] as int] == Some(b));
                assert(answer(hits, objects[k], t_max) is Some);
                if out == before {
                    assert forall|j: int| 0 <= j < objects.len() implies (answer(hits, #[trigger] objects[j], t_max) matches Some(c) ==> b.t.le(c.t)) by {
                        if j < last {
                            assert(front[j] == objects[j]);
                        }
                    }
                    assert forall|j: int| 0 <= j < k implies (answer(hits, #[trigger] objects[j], t_max) matches Some(c) ==> b.t.lt(c.t)) by {
                        assert(front[j] == objects[j]);
                    }
                    k
                } else {
                    let c = out->0;
                    assert(c.t.lt(b.t));
                    assert forall|j: int| 0 <= j < last implies (answer(hits, #[trigger] objects[j], t_max) matches Some(d) ==> c.t.lt(d.t)) by {
                        assert(front[j] == objects[j]);
                        let found = answer(hits, objects[j], t_max);
                        if found is Some {
                            assert(b.t.le(found->0.t));
                        }
                    }
                    last
                }
            },
        }
    }
}

/// Of two objects that a ray both hits, the list returns the hit with the
/// smaller `t`, whichever of the two is asked first; when the two are equally
/// far, the hit of the first.
pub proof fn lemma_nearer_of_two(first: HitRecord, second: HitRecord, t_max: Scalar)
    requires
        first.t.le(t_max),
        second.t.le(t_max),
    ensures
        linear(seq![0usize, 1usize], None, t_max, answers(seq![Some(first), Some(second)]))
            == Some(
            if second.t.lt(first.t) {
                second
            } else {
                first
            },
        ),
{
    let objects = seq![0usize, 1usize];
    let meets = answers(seq![Some(first), Some(second)]);
    assert(objects.drop_last() =~= seq![0usize]);
    assert(objects.drop_last().drop_last() =~= Seq::<usize>::empty());
    assert(linear(objects.drop_last().drop_last(), None, t_max, meets) is None);
    assert(linear(objects.drop_last(), None, t_max, meets) == Some(first));
}

/// Anything a ray can be tested against. Each capability comes with a
/// relation that says what the method may return. An implementation that
/// states nothing leaves the relation at its default, under which anything
/// may come back; a composite states what it does in terms of its parts.
pub trait Hittable {
    /// `outcome` is something `hit` may return for this ray and range.
    open spec fn hits(&self, r: Ray, t_min: Scalar, t_max: Scalar, outcome: Option<HitRecord>) -> bool {
        true
    }

    /// `bbox` is something `bounding_box` may return for this shutter
    /// interval.
    open spec fn bounded_by(&self, t0: Scalar, t1: Scalar, bbox: Option<AABB>) -> bool {
        true
    }

    /// Whether `random` may be asked for a direction.
    open spec fn can_sample(&self) -> bool {
        true
    }

    /// `d` is a direction `random` may return for the origin `o`.
    open spec fn samples(&self, o: Vector3, d: Vector3) -> bool {
        true
    }

    /// The intersection of the ray with this object in `[t_min, t_max]`, if any.
    fn hit(&self, r: &Ray, t_min: Scalar, t_max: Scalar) -> (outcome: Option<HitRecord>)
        ensures
            self.hits(*r, t_min, t_max, outcome),
    ;

    /// A box around the object over the shutter interval, if it has one.
    fn bounding_box(&self, t0: Scalar, t1: Scalar) -> (bbox: Option<AABB>)
        ensures
            self.bounded_by(t0, t1, bbox),
    ;

    /// A random direction from `o` towards the object.
    fn random(&self, o: Vector3) -> (d: Vector3)
        requires
            self.can_sample(),
        ensures
            self.samples(o, d),
    ;
}

/// A collection of objects of one kind, hit as one: the nearest hit wins.
pub struct HittableList<H: Hittable> {
    list: Vec<H>,
}

impl<H: Hittable> View for HittableList<H> {
    type V = Seq<H>;

    closed spec fn view(&self) -> Seq<H> {
        self.list@
    }
}

/// One step of a scan: with `before` found so far, `member` may return
/// `candidate` within the reach that is left, and `outcome` is the nearer of
/// the two.
pub open spec fn scan_step<H: Hittable>(
    member: H,
    r: Ray,
    t_min: Scalar,
    t_max: Scalar,
    before: Option<HitRecord>,
    candidate: Option<HitRecord>,
    outcome: Option<HitRecord>,
) -> bool {
    member.hits(r, t_min, reach(before, t_max), candidate) && outcome == closer(before, candidate)
}

/// Scanning `members` in order, each within the reach left by those before
/// it, may end with `outcome`.
pub open spec fn scan<H: Hittable>(
    members: Seq<H>,
    r: Ray,
    t_min: Scalar,
    t_max: Scalar,
    outcome: Option<HitRecord>,
) -> bool
    decreases members.len(),
{
    if members.len() == 0 {
        outcome is None
    } else {
        exists|before: Option<HitRecord>, candidate: Option<HitRecord>|
            scan(members.drop_last(), r, t_min, t_max, before) && #[trigger] scan_step(
                members.last(),
                r,
                t_min,
                t_max,
                before,
                candidate,
                outcome,
            )
    }
}

/// The union of two boxes, where there are two.
pub open spec fn join(acc: Option<AABB>, next: Option<AABB>) -> Option<AABB> {
    match (acc, next) {
        (Some(a), Some(b)) => Some(a.union(b)),
        _ => None,
    }
}

/// One step of gathering the boxes: with the union `acc` of the boxes so
/// far, `member` may return `next`, and `outcome` is the union of the two.
/// Once a box is missing no further member is asked.
pub open spec fn gather_step<H: Hittable>(
    member: H,
    t0: Scalar,
    t1: Scalar,
    acc: Option<AABB>,
    next: Option<AABB>,
    outcome: Option<AABB>,
) -> bool {
    match acc {
        Some(a) => member.bounded_by(t0, t1, next) && outcome == join(acc, next),
        None => outcome is None,
    }
}

/// Gathering the boxes of `members` may end with `outcome`: nothing for no
/// members, the first member's box for one, and otherwise the union of all
/// boxes, or nothing as soon as one member has none.
pub open spec fn gather<H: Hittable>(
    members: Seq<H>,
    t0: Scalar,
    t1: Scalar,
    outcome: Option<AABB>,
) -> bool
    decreases members.len(),
{
    if members.len() == 0 {
        outcome is None
    } else if members.len() == 1 {
        members[0].bounded_by(t0, t1, outcome)
    } else {
        exists|acc: Option<AABB>, next: Option<AABB>|
            gather(members.drop_last(), t0, t1, acc) && #[trigger] gather_step(
                members.last(),
                t0,
                t1,
                acc,
                next,
                outcome,
            )
    }
}

/// The indices of `count` objects in their own order: 0, 1, 2 and so on.
pub open spec fn all_objects(count: nat) -> Seq<usize> {
    Seq::new(count, |i: int| i as usize)
}

/// A list whose members each have one answer for every limit, the answer
/// `meets(i, limit)` for member `i`, yields what asking the members in order
/// yields.
pub proof fn lemma_scan_is_linear<H: Hittable>(
    members: Seq<H>,
    r: Ray,
    t_min: Scalar,
    t_max: Scalar,
    meets: spec_fn(usize, Scalar) -> Option<HitRecord>,
    outcome: Option<HitRecord>,
)
    requires
        members.len() <= usize::MAX,
        forall|i: int, limit: Scalar, x: Option<HitRecord>|
            0 <= i < members.len() && #[trigger] members[i].hits(r, t_min, limit, x) ==> x
                == meets(i as usize, limit),
        scan(members, r, t_min, t_max, outcome),
    ensures
        outcome == linear(all_objects(members.len()), None, t_max, meets),
    decreases members.len(),
{
    let objects = all_objects(members.len());
    if members.len() > 0 {
        let front = members.drop_last();
        let (before, candidate) = choose|before: Option<HitRecord>, candidate: Option<HitRecord>|
            scan(front, r, t_min, t_max, before) && #[trigger] scan_step(
                members.last(),
                r,
                t_min,
                t_max,
                before,
                candidate,
                outcome,
            );
        assert forall|i: int, limit: Scalar, x: Option<HitRecord>|
            0 <= i < front.len() && #[trigger] front[i].hits(r, t_min, limit, x) implies x
            == meets(i as usize, limit) by {
            assert(front[i] == members[i]);
        }
        lemma_scan_is_linear(front, r, t_min, t_max, meets, before);
        assert(objects.drop_last() =~= all_objects(front.len()));
        assert(objects.last() == (members.len() - 1) as usize);
        assert(members[members.len() - 1].hits(r, t_min, reach(before, t_max), candidate));
    }
}

impl<H: Hittable> HittableList<H> {
    /// The empty list.
    pub fn new() -> (l: HittableList<H>)
        ensures
            l@.len() == 0,
    {
        HittableList { list: Vec::new() }
    }

    /// The number of members.
    pub fn len(&self) -> (n: usize)
        ensures
            n == self@.len(),
    {
        self.list.len()
    }

    /// The member at `index`, if there is one.
    pub fn get(&self, index: usize) -> (member: Option<&H>)
        ensures
            member is Some <==> index < self@.len(),
            member matches Some(m) ==> *m == self@[index as int],
    {
        if index < self.list.len() {
            Some(&self.list[index])
        } else {
            None
        }
    }

    /// Appends a member.
    pub fn push(&mut self, hittable: H)
        ensures
            final(self)@ == old(self)@.push(hittable),
    {
        self.list.push(hittable)
    }
}

impl<H: Hittable> Default for HittableList<H> {
    fn default() -> (l: HittableList<H>)
        ensures
            l@.len() == 0,
    {
        HittableList::new()
    }
}

/// `SliceRandom::choose` of the rand crate on the thread's generator: one
/// member of the slice picked at random, and nothing exactly when the slice
/// is empty.
#[verifier::external_body]
fn choose_member<H>(list: &Vec<H>) -> (pick: Option<&H>)
    ensures
        pick is None <==> list@.len() == 0,
        pick matches Some(h) ==> list@.contains(*h),
{
    list.choose(&mut rand::thread_rng())
}

impl<H: Hittable> Hittable for HittableList<H> {
    open spec fn hits(&self, r: Ray, t_min: Scalar, t_max: Scalar, outcome: Option<HitRecord>) -> bool {
        scan(self@, r, t_min, t_max, outcome)
    }

    open spec fn bounded_by(&self, t0: Scalar, t1: Scalar, bbox: Option<AABB>) -> bool {
        gather(self@, t0, t1, bbox)
    }

    open spec fn can_sample(&self) -> bool {
        self@.len() > 0 && forall|i: int| 0 <= i < self@.len() ==> (#[trigger] self@[i]).can_sample()
    }

    open spec fn samples(&self, o: Vector3, d: Vector3) -> bool {
        exists|i: int| 0 <= i < self@.len() && (#[trigger] self@[i]).samples(o, d)
    }

    /// Tests every member in order, each only as far as the nearest hit found
    /// before it, and returns the nearest hit; of two equally near, the one
    /// met first.
    fn hit(&self, r: &Ray, t_min: Scalar, t_max: Scalar) -> (outcome: Option<HitRecord>)
        ensures
            self@.len() == 0 ==> outcome is None,
    {
        let mut best: Option<HitRecord> = None;
        let mut closest_so_far = t_max;
        let mut i: usize = 0;
        while i < self.list.len()
            invariant
                i <= self.list.len(),
                closest_so_far == reach(best, t_max),
                scan(self@.take(i as int), *r, t_min, t_max, best),
                self@.len() == 0 ==> best is None,
            decreases self.list.len() - i,
        {
            let candidate = self.list[i].hit(r, t_min, closest_so_far);
            let kept = keep_closer(best, candidate);
            proof {
                let grown = self@.take(i + 1);
                assert(grown.drop_last() =~= self@.take(i as int));
                assert(grown.last() == self@[i as int]);
                assert(scan(grown.drop_last(), *r, t_min, t_max, best));
                assert(scan_step(grown.last(), *r, t_min, t_max, best, candidate, kept));
                assert(grown.len() > 0);
                assert(scan(grown, *r, t_min, t_max, kept));
            }
            best = kept;
            closest_so_far =
            match best {
                Some(b) => b.t,
                None => t_max,
            };
            i += 1;
        }
        assert(self@.take(i as int) =~= self@);
        best
    }

    /// The union of the members' boxes; none if the list is empty or a member
    /// has no box.
    fn bounding_box(&self, t0: Scalar, t1: Scalar) -> (bbox: Option<AABB>)
        ensures
            self@.len() == 0 ==> bbox is None,
    {
        if self.list.len() == 0 {
            return None;
        }
        let mut acc = self.list[0].bounding_box(t0, t1);
        assert(self@.take(1).len() == 1 && self@.take(1)[0] == self@[0]);
        let mut i: usize = 1;
        while i < self.list.len()
            invariant
                1 <= i <= self.list.len(),
                gather(self@.take(i as int), t0, t1, acc),
            decreases self.list.len() - i,
        {
            let ghost grown = self@.take(i + 1);
            assert(grown.drop_last() =~= self@.take(i as int));
            assert(grown.last() == self@[i as int]);
            match acc {
                Some(so_far) => {
                    let next = self.list[i].bounding_box(t0, t1);
                    let joined = match next {
                        Some(b) => Some(surrounding_box(&so_far, &b)),
                        None => None,
                    };
                    assert(gather_step(grown.last(), t0, t1, acc, next, joined));
                    acc = joined;
                },
                None => {
                    assert(gather_step(grown.last(), t0, t1, acc, None, None));
                },
            }
            assert(gather(grown, t0, t1, acc));
            i += 1;
        }
        assert(self@.take(i as int) =~= self@);
        acc
    }

    /// A direction towards one member, chosen at random.
    fn random(&self, o: Vector3) -> (d: Vector3) {
        match choose_member(&self.list) {
            Some(member) => {
                let ghost i = self@.index_of(*member);
                assert(self@[i] == *member);
                member.random(o)
            },
            None => Vector3::unit(0),
        }
    }
}

/// An object seen from the other side: whatever it reports as front face is
/// reported as back face, and the reverse.
#[derive(Clone)]
pub struct FlipNormal<H: Hittable> {
    hittable: H,
}

impl<H: Hittable> FlipNormal<H> {
    /// The wrapped object.
    pub closed spec fn inner(&self) -> H {
        self.hittable
    }

    pub fn new(hittable: H) -> (f: FlipNormal<H>)
        ensures
            f.inner() == hittable,
    {
        FlipNormal { hittable }
    }
}

/// A hit with its front-face flag inverted; no hit stays no hit.
pub open spec fn flip(outcome: Option<HitRecord>) -> Option<HitRecord> {
    match outcome {
        Some(rec) => Some(rec.flipped()),
        None => None,
    }
}

/// Inverts the front-face flag of a hit.
pub fn flip_outcome(outcome: Option<HitRecord>) -> (flipped: Option<HitRecord>)
    ensures
        flipped == flip(outcome),
{
    match outcome {
        Some(mut rec) => {
            rec.front_face = !rec.front_face;
            Some(rec)
        },
        None => None,
    }
}

impl<H: Hittable> Hittable for FlipNormal<H> {
    open spec fn hits(&self, r: Ray, t_min: Scalar, t_max: Scalar, outcome: Option<HitRecord>) -> bool {
        exists|inner: Option<HitRecord>| #[trigger]
            self.inner().hits(r, t_min, t_max, inner) && outcome == flip(inner)
    }

    open spec fn bounded_by(&self, t0: Scalar, t1: Scalar, bbox: Option<AABB>) -> bool {
        self.inner().bounded_by(t0, t1, bbox)
    }

    open spec fn can_sample(&self) -> bool {
        self.inner().can_sample()
    }

    open spec fn samples(&self, o: Vector3, d: Vector3) -> bool {
        self.inner().samples(o, d)
    }

    fn hit(&self, r: &Ray, t_min: Scalar, t_max: Scalar) -> (outcome: Option<HitRecord>) {
        let inner = self.hittable.hit(r, t_min, t_max);
        assert(self.inner().hits(*r, t_min, t_max, inner));
        flip_outcome(inner)
    }

    fn bounding_box(&self, t0: Scalar, t1: Scalar) -> (bbox: Option<AABB>) {
        self.hittable.bounding_box(t0, t1)
    }

    fn random(&self, o: Vector3) -> (d: Vector3) {
        self.hittable.random(o)
    }
}

} // verus!
