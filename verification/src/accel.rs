//! A list of objects behind a bounding volume hierarchy: hittable like the
//! list itself, but searched through the hierarchy.

use vstd::prelude::*;
use crate::aabb::AABB;
use crate::bvh::{Bounded, BVH};
use crate::hit::{HitRecord, Hittable};
use crate::ray::Ray;
use crate::scalar::{Scalar, ONE_BITS};
use crate::vector::{Point3, Vector3};
use crate::walk::{search, searches, WalkModel};

verus! {

/// Objects together with the hierarchy over them and the test that tells
/// whether a ray crosses a box within a range. The hierarchy is built once,
/// when the value is made, and never changes.
pub struct Accelerated<H: Hittable, F: Fn(&AABB, &Ray, Scalar, Scalar) -> bool> {
    objects: Vec<H>,
    items: Vec<Bounded>,
    tree: BVH,
    crosses: F,
}

impl<H: Hittable, F: Fn(&AABB, &Ray, Scalar, Scalar) -> bool> Accelerated<H, F> {
    #[verifier::type_invariant]
    closed spec fn inv(self) -> bool {
        &&& self.items@.len() == self.objects@.len()
        &&& self.tree.wf(self.items@)
        &&& forall|bbox: &AABB, ray: &Ray, from: Scalar, to: Scalar|
            call_requires(self.crosses, (bbox, ray, from, to))
    }

    /// The objects.
    pub closed spec fn members(self) -> Seq<H> {
        self.objects@
    }

    /// The objects as the hierarchy sees them.
    pub closed spec fn bounds(self) -> Seq<Bounded> {
        self.items@
    }

    /// The hierarchy.
    pub closed spec fn hierarchy(self) -> BVH {
        self.tree
    }

    /// The box test.
    pub closed spec fn box_test(self) -> F {
        self.crosses
    }

    /// Builds the hierarchy over `objects`, where `items[i]` is the box and
    /// centre of `objects[i]`, and `crosses` is a box test that may be asked
    /// anything. There is no value when there are no objects or not one item
    /// for each of them.
    pub fn new(objects: Vec<H>, items: Vec<Bounded>, crosses: F) -> (world: Option<Self>)
        requires
            forall|bbox: &AABB, ray: &Ray, from: Scalar, to: Scalar|
                call_requires(crosses, (bbox, ray, from, to)),
        ensures
            world is Some <==> objects@.len() == items@.len() && objects@.len() > 0,
            world matches Some(w) ==> {
                &&& w.members() == objects@
                &&& w.bounds() == items@
                &&& w.box_test() == crosses
                &&& w.hierarchy().wf(items@)
                &&& w.hierarchy().halved()
                &&& w.hierarchy().parted(items@)
                &&& w.hierarchy().leaves().len() == items@.len()
                &&& w.hierarchy().leaves().no_duplicates()
                &&& forall|object: usize|
                    object < items@.len() ==> w.hierarchy().leaves().contains(object)
            },
    {
        if objects.len() != items.len() {
            return None;
        }
        match BVH::new(&items) {
            Some(tree) => Some(Accelerated { objects, items, tree, crosses }),
            None => None,
        }
    }
}

/// Item `i` is what object `i` was seen as: the box that the object may
/// return for the shutter interval, with the centre that `centre` may return
/// for that box.
pub open spec fn seen_as<H: Hittable, C: Fn(&AABB) -> Point3>(
    objects: Seq<H>,
    items: Seq<Bounded>,
    t0: Scalar,
    t1: Scalar,
    centre: C,
    i: int,
) -> bool {
    &&& objects[i].bounded_by(t0, t1, Some(items[i].bbox))
    &&& call_ensures(centre, (&items[i].bbox,), items[i].centroid)
}

impl<H: Hittable, F: Fn(&AABB, &Ray, Scalar, Scalar) -> bool> Accelerated<H, F> {
    /// Builds the hierarchy over `objects`, asking each for its box over the
    /// shutter interval and `centre` for the centre of each box. There is no
    /// value when there are no objects or when an object has no box.
    pub fn over<C: Fn(&AABB) -> Point3>(
        objects: Vec<H>,
        t0: Scalar,
        t1: Scalar,
        centre: &C,
        crosses: F,
    ) -> (world: Option<Self>)
        requires
            forall|bbox: &AABB| call_requires(*centre, (bbox,)),
            forall|bbox: &AABB, ray: &Ray, from: Scalar, to: Scalar|
                call_requires(crosses, (bbox, ray, from, to)),
        ensures
            world is None ==> objects@.len() == 0 || exists|i: int|
                0 <= i < objects@.len() && (#[trigger] objects@[i]).bounded_by(t0, t1, None),
            world matches Some(w) ==> {
                &&& w.members() == objects@
                &&& w.box_test() == crosses
                &&& w.bounds().len() == objects@.len()
                &&& objects@.len() > 0
                &&& forall|i: int|
                    0 <= i < objects@.len() ==> #[trigger] seen_as(
                        objects@,
                        w.bounds(),
                        t0,
                        t1,
                        *centre,
                        i,
                    )
                &&& w.hierarchy().wf(w.bounds())
                &&& w.hierarchy().halved()
                &&& w.hierarchy().parted(w.bounds())
                &&& w.hierarchy().leaves().len() == objects@.len()
                &&& w.hierarchy().leaves().no_duplicates()
                &&& forall|object: usize|
                    object < objects@.len() ==> w.hierarchy().leaves().contains(object)
            },
    {
        let mut items: Vec<Bounded> = Vec::new();
        let mut i: usize = 0;
        while i < objects.len()
            invariant
                i <= objects.len(),
                items@.len() == i,
                forall|bbox: &AABB| call_requires(*centre, (bbox,)),
                forall|k: int|
                    0 <= k < i ==> #[trigger] seen_as(objects@, items@, t0, t1, *centre, k),
            decreases objects.len() - i,
        {
            match objects[i].bounding_box(t0, t1) {
                Some(bbox) => {
                    let centroid = centre(&bbox);
                    let ghost before = items@;
                    items.push(Bounded { bbox, centroid });
                    assert forall|k: int| 0 <= k < i + 1 implies #[trigger] seen_as(
                        objects@,
                        items@,
                        t0,
                        t1,
                        *centre,
                        k,
                    ) by {
                        if k < i {
                            assert(seen_as(objects@, before, t0, t1, *centre, k));
                            assert(items@[k] == before[k]);
                        }
                    }
                },
                None => {
                    assert(objects@[i as int].bounded_by(t0, t1, None));
                    return None;
                },
            }
            i += 1;
        }
        Accelerated::new(objects, items, crosses)
    }
}

impl<H: Hittable, F: Fn(&AABB, &Ray, Scalar, Scalar) -> bool> Hittable for Accelerated<H, F> {
    open spec fn hits(&self, r: Ray, t_min: Scalar, t_max: Scalar, outcome: Option<HitRecord>) -> bool {
        searches(
            WalkModel::begin(self.hierarchy(), t_max),
            self.members(),
            self.box_test(),
            r,
            t_min,
            outcome,
        )
    }

    open spec fn bounded_by(&self, t0: Scalar, t1: Scalar, bbox: Option<AABB>) -> bool {
        bbox == Some(self.hierarchy().bounds(self.bounds()))
    }

    open spec fn samples(&self, o: Vector3, d: Vector3) -> bool {
        d.at(0).bits == ONE_BITS && d.at(1).bits == 0 && d.at(2).bits == 0
    }

    /// The nearest hit, found by searching the hierarchy.
    fn hit(&self, r: &Ray, t_min: Scalar, t_max: Scalar) -> (outcome: Option<HitRecord>) {
        proof {
            use_type_invariant(self);
        }
        search(&self.tree, &self.objects, &self.crosses, r, t_min, t_max)
    }

    /// The box of the hierarchy's root, which holds every object's box.
    fn bounding_box(&self, t0: Scalar, t1: Scalar) -> (bbox: Option<AABB>) {
        proof {
            use_type_invariant(self);
        }
        Some(self.tree.bounding_box(&self.items))
    }

    /// The unit vector along x: the hierarchy is no light to aim at.
    fn random(&self, o: Vector3) -> (d: Vector3) {
        Vector3::unit(0)
    }
}

} // verus!
