//! Axis-aligned rectangles: a bounded patch of a plane on which one
//! coordinate is constant.

use vstd::prelude::*;
use crate::aabb::AABB;
use crate::hit::HitRecord;
use crate::ray::Ray;
use crate::scalar::{Scalar, ONE_BITS};
use crate::vector::{Point3, Vector3};

verus! {

/// The principal plane a rectangle is parallel to, named by its two free axes.
#[derive(Clone, Copy, Debug, PartialEq, Eq, Structural)]
pub enum Plane {
    XY,
    XZ,
    YZ,
}

impl Plane {
    /// The axes of the plane as `(constant, first free, second free)`: the
    /// constant axis is the one the plane's name leaves out, and the free axes
    /// come in the order of the name.
    pub open spec fn axes(self) -> (int, int, int) {
        match self {
            Plane::YZ => (0, 1, 2),
            Plane::XZ => (1, 0, 2),
            Plane::XY => (2, 0, 1),
        }
    }
}

/// The axis indices of a plane as `(constant, first free, second free)`.
pub fn get_axis_index(plane: &Plane) -> (axes: (usize, usize, usize))
    ensures
        axes.0 == plane.axes().0,
        axes.1 == plane.axes().1,
        axes.2 == plane.axes().2,
        axes.0 < 3,
        axes.1 < axes.2 < 3,
        axes.0 != axes.1,
        axes.0 != axes.2,
{
    match plane {
        Plane::YZ => (0, 1, 2),
        Plane::XZ => (1, 0, 2),
        Plane::XY => (2, 0, 1),
    }
}

/// The three roles of a plane's axes are played by the three axes, each by
/// one: every axis is the constant one, the first free one or the second.
pub proof fn lemma_axes_cover(plane: Plane, axis: int)
    requires
        0 <= axis < 3,
    ensures
        axis == plane.axes().0 || axis == plane.axes().1 || axis == plane.axes().2,
        plane.axes().0 != plane.axes().1,
        plane.axes().0 != plane.axes().2,
        plane.axes().1 != plane.axes().2,
{
}

/// Where a ray meets the plane of a rectangle, as the caller computed it from
/// the ray: the ray parameter `t`, the point's two free coordinates `a` and
/// `b`, the same two as fractions `u` and `v` of the rectangle's extent, and
/// the point itself.
#[derive(Clone, Copy, Debug)]
pub struct Crossing {
    pub t: Scalar,
    pub a: Scalar,
    pub b: Scalar,
    pub u: Scalar,
    pub v: Scalar,
    pub position: Point3,
}

/// The part of the plane `k` along the constant axis that lies within
/// `[a0, a1]` on the first and `[b0, b1]` on the second free axis.
#[derive(Clone, Copy, Debug)]
pub struct AARect {
    pub plane: Plane,
    pub a0: Scalar,
    pub a1: Scalar,
    pub b0: Scalar,
    pub b1: Scalar,
    pub k: Scalar,
    pub material: usize,
}

impl AARect {
    /// The crossing counts as a hit: its parameter lies in `[t_min, t_max]`
    /// and its point within the rectangle's bounds, borders included. A
    /// coordinate that is not a number lies in no interval.
    pub open spec fn admits(self, crossing: Crossing, t_min: Scalar, t_max: Scalar) -> bool {
        &&& t_min.le(crossing.t) && crossing.t.le(t_max)
        &&& self.a0.le(crossing.a) && crossing.a.le(self.a1)
        &&& self.b0.le(crossing.b) && crossing.b.le(self.b1)
    }

    /// The outward normal: the unit vector along the constant axis.
    pub open spec fn outward_normal(self) -> Vector3 {
        let k = self.plane.axes().0;
        Vector3 {
            e: [
                Scalar { bits: if k == 0 { ONE_BITS } else { 0 } },
                Scalar { bits: if k == 1 { ONE_BITS } else { 0 } },
                Scalar { bits: if k == 2 { ONE_BITS } else { 0 } },
            ],
        }
    }

    /// The record of a hit at `crossing`. The ray strikes the front face when
    /// it travels against the outward normal, that is, when its direction is
    /// negative along the constant axis; the stored normal is the outward
    /// normal then and its opposite otherwise.
    pub open spec fn record(self, r: Ray, crossing: Crossing) -> HitRecord {
        let front = r.dir.at(self.plane.axes().0).lt(Scalar { bits: 0 });
        HitRecord {
            position: crossing.position,
            normal: if front {
                self.outward_normal()
            } else {
                self.outward_normal().negated()
            },
            t: crossing.t,
            u: crossing.u,
            v: crossing.v,
            front_face: front,
            material: self.material,
        }
    }

    /// The box of the rectangle with the plane thickened to `[k_low, k_high]`.
    pub open spec fn corners(self, k_low: Scalar, k_high: Scalar) -> (Point3, Point3) {
        let (k, a, b) = self.plane.axes();
        (
            Point3 {
                e: [
                    if k == 0 { k_low } else if a == 0 { self.a0 } else { self.b0 },
                    if k == 1 { k_low } else if a == 1 { self.a0 } else { self.b0 },
                    if k == 2 { k_low } else if a == 2 { self.a0 } else { self.b0 },
                ],
            },
            Point3 {
                e: [
                    if k == 0 { k_high } else if a == 0 { self.a1 } else { self.b1 },
                    if k == 1 { k_high } else if a == 1 { self.a1 } else { self.b1 },
                    if k == 2 { k_high } else if a == 2 { self.a1 } else { self.b1 },
                ],
            },
        )
    }

    pub fn new(
        plane: Plane,
        a0: Scalar,
        a1: Scalar,
        b0: Scalar,
        b1: Scalar,
        k: Scalar,
        material: usize,
    ) -> (rect: AARect)
        ensures
            rect.plane == plane,
            rect.a0 == a0,
            rect.a1 == a1,
            rect.b0 == b0,
            rect.b1 == b1,
            rect.k == k,
            rect.material == material,
    {
        AARect { plane, a0, a1, b0, b1, k, material }
    }

    /// Decides whether the ray hits the rectangle where it meets the plane,
    /// and describes the hit. There is a hit exactly when the crossing lies
    /// in `[t_min, t_max]` and within the rectangle.
    pub fn hit(&self, r: &Ray, crossing: &Crossing, t_min: Scalar, t_max: Scalar) -> (outcome:
        Option<HitRecord>)
        ensures
            outcome is Some <==> self.admits(*crossing, t_min, t_max),
            outcome matches Some(rec) ==> rec == self.record(*r, *crossing),
    {
        let (k_axis_index, _a_axis_index, _b_axis_index) = get_axis_index(&self.plane);
        let t = crossing.t;
        if !(t_min.at_most(t) && t.at_most(t_max)) {
            None
        } else {
            let a = crossing.a;
            let b = crossing.b;
            if !(self.a0.at_most(a) && a.at_most(self.a1) && self.b0.at_most(b) && b.at_most(
                self.b1,
            )) {
                None
            } else {
                let normal = Vector3::unit(k_axis_index);
                proof {
                    crate::vector::lemma_vector_ext(normal, self.outward_normal());
                }
                let mut rec = HitRecord {
                    position: crossing.position,
                    normal,
                    t,
                    u: crossing.u,
                    v: crossing.v,
                    front_face: false,
                    material: self.material,
                };
                rec.set_face_normal(r.direction().get(k_axis_index), normal);
                Some(rec)
            }
        }
    }

    /// The rectangle's bounding box. A rectangle has no thickness, so the
    /// caller pads the plane to `[k_low, k_high]` along the constant axis.
    /// There is a box exactly when the bounds are in order on all three axes.
    pub fn bounding_box(&self, k_low: Scalar, k_high: Scalar) -> (bbox: Option<AABB>)
        ensures
            bbox is Some <==> self.a0.le(self.a1) && self.b0.le(self.b1) && k_low.le(k_high),
            bbox matches Some(b) ==> b.lower() == self.corners(k_low, k_high).0 && b.upper()
                == self.corners(k_low, k_high).1 && b.wf(),
    {
        let (k_axis_index, a_axis_index, b_axis_index) = get_axis_index(&self.plane);
        let min = Vector3::zero().with(a_axis_index, self.a0).with(b_axis_index, self.b0).with(
            k_axis_index,
            k_low,
        );
        let max = Vector3::zero().with(a_axis_index, self.a1).with(b_axis_index, self.b1).with(
            k_axis_index,
            k_high,
        );
        proof {
            crate::vector::lemma_vector_ext(min, self.corners(k_low, k_high).0);
            crate::vector::lemma_vector_ext(max, self.corners(k_low, k_high).1);
        }
        AABB::new(min, max)
    }
}

/// The six faces of the box between the corners `lo` and `hi`: for each
/// axis the rectangle in the plane through `hi` and then the one in the plane
/// through `lo`, first for z, then for y, then for x. All six carry
/// `material`.
pub open spec fn faces(lo: Point3, hi: Point3, material: usize) -> Seq<AARect> {
    seq![
        AARect {
            plane: Plane::XY,
            a0: lo.at(0),
            a1: hi.at(0),
            b0: lo.at(1),
            b1: hi.at(1),
            k: hi.at(2),
            material,
        },
        AARect {
            plane: Plane::XY,
            a0: lo.at(0),
            a1: hi.at(0),
            b0: lo.at(1),
            b1: hi.at(1),
            k: lo.at(2),
            material,
        },
        AARect {
            plane: Plane::XZ,
            a0: lo.at(0),
            a1: hi.at(0),
            b0: lo.at(2),
            b1: hi.at(2),
            k: hi.at(1),
            material,
        },
        AARect {
            plane: Plane::XZ,
            a0: lo.at(0),
            a1: hi.at(0),
            b0: lo.at(2),
            b1: hi.at(2),
            k: lo.at(1),
            material,
        },
        AARect {
            plane: Plane::YZ,
            a0: lo.at(1),
            a1: hi.at(1),
            b0: lo.at(2),
            b1: hi.at(2),
            k: hi.at(0),
            material,
        },
        AARect {
            plane: Plane::YZ,
            a0: lo.at(1),
            a1: hi.at(1),
            b0: lo.at(2),
            b1: hi.at(2),
            k: lo.at(0),
            material,
        },
    ]
}

/// The six rectangles that make up the box between two opposite corners.
pub fn cube_faces(lo: Point3, hi: Point3, material: usize) -> (sides: Vec<AARect>)
    ensures
        sides@ == faces(lo, hi, material),
        sides@.len() == 6,
{
    let mut sides: Vec<AARect> = Vec::new();
    sides.push(AARect::new(Plane::XY, lo.x(), hi.x(), lo.y(), hi.y(), hi.z(), material));
    sides.push(AARect::new(Plane::XY, lo.x(), hi.x(), lo.y(), hi.y(), lo.z(), material));
    sides.push(AARect::new(Plane::XZ, lo.x(), hi.x(), lo.z(), hi.z(), hi.y(), material));
    sides.push(AARect::new(Plane::XZ, lo.x(), hi.x(), lo.z(), hi.z(), lo.y(), material));
    sides.push(AARect::new(Plane::YZ, lo.y(), hi.y(), lo.z(), hi.z(), hi.x(), material));
    sides.push(AARect::new(Plane::YZ, lo.y(), hi.y(), lo.z(), hi.z(), lo.x(), material));
    assert(sides@ =~= faces(lo, hi, material));
    sides
}

} // verus!
