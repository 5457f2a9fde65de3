//! The rules by which the materials send a ray on.
//!
//! Every rule takes, as plain values, what has to be computed on the ray and
//! the hit before it can be applied, a dot product, a reflected direction,
//! a random draw, and decides what the material returns.

use vstd::prelude::*;
use crate::hit::HitRecord;
use crate::ray::Ray;
use crate::scalar::{Scalar, ONE_BITS};
use crate::vector::{Color, Vector3};

verus! {

/// The pattern of the length, a hundred-millionth, below which a component of
/// a direction counts as zero.
pub const NEAR_ZERO_BITS: u64 = 0x3E45_798E_E230_8C3A;

/// Every component of the vector is closer to zero than a hundred-millionth.
pub open spec fn is_near_zero(v: Vector3) -> bool {
    let limit = Scalar { bits: NEAR_ZERO_BITS };
    v.at(0).absolute().lt(limit) && v.at(1).absolute().lt(limit) && v.at(2).absolute().lt(limit)
}

/// Whether every component of the vector is closer to zero than a
/// hundred-millionth.
pub fn near_zero(v: &Vector3) -> (b: bool)
    ensures
        b == is_near_zero(*v),
{
    let limit = Scalar::from_bits(NEAR_ZERO_BITS);
    v.x().abs().less(limit) && v.y().abs().less(limit) && v.z().abs().less(limit)
}

/// The colour white: one in all three channels.
pub open spec fn white() -> Color {
    Vector3 { e: [Scalar { bits: ONE_BITS }, Scalar { bits: ONE_BITS }, Scalar { bits: ONE_BITS }] }
}

/// What a diffuse surface returns. `attenuation` is the colour of its texture
/// at the hit, and `candidate` the hit's normal plus a random unit vector.
/// The ray goes on from the hit along the candidate, or along the normal
/// itself where the candidate is near zero. A diffuse surface always scatters.
pub fn lambertian(rec: &HitRecord, attenuation: Color, candidate: Vector3, time: Scalar) -> (outcome:
    Option<(Color, Ray)>)
    ensures
        outcome == Some(
            (
                attenuation,
                Ray {
                    orig: rec.position,
                    dir: if is_near_zero(candidate) {
                        rec.normal
                    } else {
                        candidate
                    },
                    time,
                },
            ),
        ),
{
    let direction = if near_zero(&candidate) {
        rec.normal
    } else {
        candidate
    };
    Some((attenuation, Ray::new(rec.position, direction, time)))
}

/// What a metal returns. `fuzzed` is the incoming direction reflected about
/// the normal and perturbed by the fuzz, and `facing` its dot product with
/// the normal. The ray goes on along `fuzzed` if that points out of the
/// surface, that is, if `facing` is above zero; otherwise it is absorbed.
pub fn metal(rec: &HitRecord, albedo: Color, fuzzed: Vector3, facing: Scalar, time: Scalar) -> (outcome:
    Option<(Color, Ray)>)
    ensures
        outcome is Some <==> (Scalar { bits: 0 }).lt(facing),
        outcome matches Some(pair) ==> pair == (
            albedo,
            Ray { orig: rec.position, dir: fuzzed, time },
        ),
{
    if Scalar::zero().less(facing) {
        Some((albedo, Ray::new(rec.position, fuzzed, time)))
    } else {
        None
    }
}

/// Whether glass reflects rather than refracts. `bend` is the ratio of the
/// refractive indices times the sine of the angle of incidence: above one
/// there is no refracted ray. `reflectance` is the share of light that the
/// surface reflects at this angle, and `draw` a uniform random number: the
/// ray is reflected when the reflectance exceeds it.
pub open spec fn reflects(bend: Scalar, reflectance: Scalar, draw: Scalar) -> bool {
    (Scalar { bits: ONE_BITS }).lt(bend) || draw.lt(reflectance)
}

/// What glass returns: white, and a ray from the hit along `reflected` or
/// along `refracted`. Glass never absorbs.
pub fn dielectric(
    rec: &HitRecord,
    reflected: Vector3,
    refracted: Vector3,
    bend: Scalar,
    reflectance: Scalar,
    draw: Scalar,
    time: Scalar,
) -> (outcome: Option<(Color, Ray)>)
    ensures
        outcome == Some(
            (
                white(),
                Ray {
                    orig: rec.position,
                    dir: if reflects(bend, reflectance, draw) {
                        reflected
                    } else {
                        refracted
                    },
                    time,
                },
            ),
        ),
{
    let cannot_refract = Scalar::one().less(bend);
    let direction = if cannot_refract || draw.less(reflectance) {
        reflected
    } else {
        refracted
    };
    let one = Scalar::one();
    let attenuation = Vector3::new(one, one, one);
    proof {
        crate::vector::lemma_vector_ext(attenuation, white());
    }
    Some((attenuation, Ray::new(rec.position, direction, time)))
}

/// What the medium inside a volume returns: the colour of its texture, and a
/// ray from the hit in a direction drawn uniformly at random. It always
/// scatters.
pub fn isotropic(rec: &HitRecord, attenuation: Color, direction: Vector3, time: Scalar) -> (outcome:
    Option<(Color, Ray)>)
    ensures
        outcome == Some((attenuation, Ray { orig: rec.position, dir: direction, time })),
{
    Some((attenuation, Ray::new(rec.position, direction, time)))
}

/// Which of a checker's two colours shows at a point. `sines` is the product
/// of the sines of the point's scaled coordinates: where it is below zero
/// the odd colour shows, elsewhere the even one.
pub fn checker(sines: Scalar, odd: Color, even: Color) -> (c: Color)
    ensures
        c == if sines.lt(Scalar { bits: 0 }) {
            odd
        } else {
            even
        },
{
    if sines.less(Scalar::zero()) {
        odd
    } else {
        even
    }
}

} // verus!
