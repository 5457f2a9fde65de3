//! The recursive estimator of the light that arrives along a ray.
//!
//! The estimator follows a ray from surface to surface. What it returns is
//! the path it took, as the terms that make up the light carried: the
//! caller folds them into one colour.

use vstd::prelude::*;
use crate::hit::{HitRecord, Hittable};
use crate::material::Material;
use crate::ray::Ray;
use crate::scalar::{Scalar, INFINITY_BITS};
use crate::vector::{Color, Vector3};

verus! {

/// The pattern of the least ray parameter at which a surface counts as hit,
/// one hundred-thousandth. A ray that leaves a surface starts on it, and
/// would otherwise hit that surface again at once.
pub const NEAR_BITS: u64 = 0x3EE4_F8B5_88E3_68F1;

/// What one surface on the path contributes: the light it emits itself, and
/// the factor by which it dims, channel by channel, the light that reaches it
/// along the scattered ray.
#[derive(Clone, Copy, Debug)]
pub struct Bounce {
    pub emitted: Color,
    pub attenuation: Color,
}

/// The path of one ray. `tail` is the light at the far end of the path and
/// `bounces` are the surfaces that scattered the ray, the farthest first.
/// The light that the path carries is computed from the far end:
/// start with `tail`, and for each bounce in order replace the light by
/// `emitted + attenuation * light`.
#[derive(Debug)]
pub struct Path {
    pub bounces: Vec<Bounce>,
    pub tail: Color,
}

/// A path as a mathematical value.
pub struct PathModel {
    pub bounces: Seq<Bounce>,
    pub tail: Color,
}

impl View for Path {
    type V = PathModel;

    open spec fn view(&self) -> PathModel {
        PathModel { bounces: self.bounces@, tail: self.tail }
    }
}

/// No light at all: all three channels are positive zero.
pub open spec fn black() -> Color {
    Vector3 { e: [Scalar { bits: 0 }, Scalar { bits: 0 }, Scalar { bits: 0 }] }
}

/// The range in which the estimator looks for surfaces: from the near limit
/// to infinity.
pub open spec fn near() -> Scalar {
    Scalar { bits: NEAR_BITS }
}

pub open spec fn far() -> Scalar {
    Scalar { bits: INFINITY_BITS }
}

/// The path that ends where it starts, with the light `tail`.
pub open spec fn ends_with(tail: Color) -> Option<PathModel> {
    Some(PathModel { bounces: Seq::empty(), tail })
}

/// The path `inner` of the scattered ray, seen from the surface that
/// scattered it. Where the scattered ray's path failed, this one fails.
pub open spec fn seen_through(inner: Option<PathModel>, bounce: Bounce) -> Option<PathModel> {
    match inner {
        Some(p) => Some(PathModel { bounces: p.bounces.push(bounce), tail: p.tail }),
        None => None,
    }
}

/// The ray's path may end at its first surface with `outcome`: it meets
/// nothing, and the light is the background; or it meets a surface whose
/// material is not in the table, and there is no path; or the surface emits
/// `emitted` and does not scatter, and the light is `emitted`.
pub open spec fn ends_here<W: Hittable, M: Material>(
    world: W,
    materials: Seq<M>,
    ray: Ray,
    background: Color,
    met: Option<HitRecord>,
    emitted: Color,
    outcome: Option<PathModel>,
) -> bool {
    world.hits(ray, near(), far(), met) && match met {
        None => outcome == ends_with(background),
        Some(rec) => if rec.material >= materials.len() {
            outcome is None
        } else {
            let m = materials[rec.material as int];
            m.emits(rec.u, rec.v, rec.position, emitted) && m.scatters(ray, rec, None) && outcome
                == ends_with(emitted)
        },
    }
}

/// The ray may meet the surface `rec`, which emits and attenuates as `bounce`
/// says and scatters the ray on as `next`.
pub open spec fn scatters_on<W: Hittable, M: Material>(
    world: W,
    materials: Seq<M>,
    ray: Ray,
    rec: HitRecord,
    bounce: Bounce,
    next: Ray,
) -> bool {
    &&& world.hits(ray, near(), far(), Some(rec))
    &&& rec.material < materials.len()
    &&& materials[rec.material as int].scatters(ray, rec, Some((bounce.attenuation, next)))
    &&& materials[rec.material as int].emits(rec.u, rec.v, rec.position, bounce.emitted)
}

/// Following `ray` for at most `depth` surfaces may yield `outcome`. With no
/// depth left the path is black. Otherwise the path ends at the first surface,
/// or that surface scatters the ray and the path goes on, one surface deeper,
/// along the scattered ray.
pub open spec fn traces<W: Hittable, M: Material>(
    world: W,
    materials: Seq<M>,
    ray: Ray,
    background: Color,
    depth: nat,
    outcome: Option<PathModel>,
) -> bool
    decreases depth,
{
    if depth == 0 {
        outcome == ends_with(black())
    } else {
        ||| exists|met: Option<HitRecord>, emitted: Color| #[trigger]
            ends_here(world, materials, ray, background, met, emitted, outcome)
        ||| exists|rec: HitRecord, bounce: Bounce, next: Ray, inner: Option<PathModel>|
            #![trigger scatters_on(world, materials, ray, rec, bounce, next), seen_through(inner, bounce)]
            scatters_on(world, materials, ray, rec, bounce, next) && traces(
                world,
                materials,
                next,
                background,
                (depth - 1) as nat,
                inner,
            ) && outcome == seen_through(inner, bounce)
    }
}

/// The view of an optional path.
pub open spec fn model(path: Option<Path>) -> Option<PathModel> {
    match path {
        Some(p) => Some(p@),
        None => None,
    }
}

/// Follows `ray` through `world` for at most `depth` surfaces and returns its
/// path; `color` is the light of the background, which a ray that meets
/// nothing carries. `materials` is the table that the hit records' material
/// handles index. There is no path when a record names a material that the
/// table does not hold.
pub fn ray_color<W: Hittable, M: Material>(
    ray: &Ray,
    color: Color,
    world: &W,
    materials: &Vec<M>,
    depth: u64,
) -> (path: Option<Path>)
    ensures
        traces(*world, materials@, *ray, color, depth as nat, model(path)),
        depth == 0 ==> model(path) == ends_with(black()),
    decreases depth,
{
    if depth == 0 {
        // the bounce limit is spent: no more light is gathered
        let tail = Vector3::zero();
        proof {
            crate::vector::lemma_vector_ext(tail, black());
        }
        let path = Path { bounces: Vec::new(), tail };
        assert(path@.bounces =~= Seq::<Bounce>::empty());
        return Some(path);
    }
    let met = world.hit(ray, Scalar::from_bits(NEAR_BITS), Scalar::infinity());
    match met {
        Some(rec) => {
            if rec.material >= materials.len() {
                assert(ends_here(*world, materials@, *ray, color, met, color, None));
                return None;
            }
            let material = &materials[rec.material];
            let emitted: Color = material.emitted(rec.u, rec.v, &rec.position);
            match material.scatter(ray, &rec) {
                Some((attenuation, scattered)) => {
                    let bounce = Bounce { emitted, attenuation };
                    let inner = ray_color(&scattered, color, world, materials, depth - 1);
                    let ghost seen = seen_through(model(inner), bounce);
                    assert(scatters_on(*world, materials@, *ray, rec, bounce, scattered));
                    match inner {
                        Some(mut path) => {
                            path.bounces.push(bounce);
                            assert(model(Some(path)) == seen);
                            Some(path)
                        },
                        None => None,
                    }
                },
                None => {
                    let path = Path { bounces: Vec::new(), tail: emitted };
                    assert(path@.bounces =~= Seq::<Bounce>::empty());
                    assert(ends_here(*world, materials@, *ray, color, met, emitted, Some(path@)));
                    Some(path)
                },
            }
        },
        None => {
            let path = Path { bounces: Vec::new(), tail: color };
            assert(path@.bounces =~= Seq::<Bounce>::empty());
            assert(ends_here(*world, materials@, *ray, color, met, color, Some(path@)));
            Some(path)
        },
    }
}

} // verus!
