use raytracer::hit::HitRecord;
use raytracer::rect::{cube_faces, Plane};
use raytracer::scalar::Scalar;
use raytracer::scatter::{checker, dielectric, isotropic, lambertian, metal, near_zero, NEAR_ZERO_BITS};
use raytracer::sphere::nearest_root;
use raytracer::texture::ImageTexture;
use raytracer::vector::Vector3;

fn s(x: f64) -> Scalar {
    Scalar::from_bits(x.to_bits())
}

fn f(x: Scalar) -> f64 {
    f64::from_bits(x.to_bits())
}

fn v(x: f64, y: f64, z: f64) -> Vector3 {
    Vector3::new(s(x), s(y), s(z))
}

fn triple(p: Vector3) -> (f64, f64, f64) {
    (f(p.x()), f(p.y()), f(p.z()))
}

fn rec() -> HitRecord {
    HitRecord {
        position: v(1.0, 2.0, 3.0),
        normal: v(0.0, 1.0, 0.0),
        t: s(4.0),
        u: s(0.25),
        v: s(0.75),
        front_face: true,
        material: 0,
    }
}

#[test]
fn near_zero_threshold() {
    assert_eq!(NEAR_ZERO_BITS, 1e-8f64.to_bits());
    assert!(near_zero(&v(0.0, 0.0, 0.0)));
    assert!(near_zero(&v(-0.0, 9e-9, -9e-9)));
    assert!(!near_zero(&v(1e-8, 0.0, 0.0)));
    assert!(!near_zero(&v(0.0, -1e-8, 0.0)));
    assert!(!near_zero(&v(0.0, 0.0, 1.0)));
    assert!(!near_zero(&v(f64::NAN, 0.0, 0.0)));
    assert!(!near_zero(&v(0.0, f64::INFINITY, 0.0)));
}

#[test]
fn abs_clears_the_sign() {
    for x in [0.0f64, -0.0, 1.5, -1.5, f64::INFINITY, f64::NEG_INFINITY, 5e-324, -5e-324] {
        assert_eq!(s(x).abs().to_bits(), x.abs().to_bits());
    }
    assert!(f(s(f64::NAN).abs()).is_nan());
}

#[test]
fn lambertian_scatters_along_the_candidate() {
    let (attenuation, ray) = lambertian(&rec(), v(0.1, 0.2, 0.3), v(0.5, 1.5, -0.5), s(0.5)).unwrap();
    assert_eq!(triple(attenuation), (0.1, 0.2, 0.3));
    assert_eq!(triple(ray.origin()), (1.0, 2.0, 3.0));
    assert_eq!(triple(ray.direction()), (0.5, 1.5, -0.5));
    assert_eq!(f(ray.time()), 0.5);
}

#[test]
fn lambertian_falls_back_to_the_normal() {
    let (_, ray) = lambertian(&rec(), v(0.1, 0.2, 0.3), v(1e-9, -1e-9, 0.0), s(0.0)).unwrap();
    assert_eq!(triple(ray.direction()), (0.0, 1.0, 0.0));
    let (_, ray) = lambertian(&rec(), v(0.1, 0.2, 0.3), v(1e-9, -1e-9, 1e-7), s(0.0)).unwrap();
    assert_eq!(triple(ray.direction()), (1e-9, -1e-9, 1e-7));
}

#[test]
fn metal_absorbs_what_points_into_the_surface() {
    let albedo = v(0.7, 0.6, 0.5);
    let out = metal(&rec(), albedo, v(1.0, 1.0, 0.0), s(1.0), s(0.25));
    let (attenuation, ray) = out.unwrap();
    assert_eq!(triple(attenuation), (0.7, 0.6, 0.5));
    assert_eq!(triple(ray.origin()), (1.0, 2.0, 3.0));
    assert_eq!(triple(ray.direction()), (1.0, 1.0, 0.0));
    assert_eq!(f(ray.time()), 0.25);
    assert!(metal(&rec(), albedo, v(1.0, -1.0, 0.0), s(-1.0), s(0.0)).is_none());
    assert!(metal(&rec(), albedo, v(1.0, 0.0, 0.0), s(0.0), s(0.0)).is_none());
    assert!(metal(&rec(), albedo, v(1.0, 0.0, 0.0), s(-0.0), s(0.0)).is_none());
    assert!(metal(&rec(), albedo, v(1.0, 0.0, 0.0), s(f64::NAN), s(0.0)).is_none());
    assert!(metal(&rec(), albedo, v(1.0, 1e-300, 0.0), s(1e-300), s(0.0)).is_some());
}

#[test]
fn dielectric_never_absorbs() {
    let reflected = v(0.0, 1.0, 0.0);
    let refracted = v(0.0, -1.0, 0.0);
    // a ray entering glass of index 1.5 head on: bend is 0, reflectance 0.04
    for draw in [0.0f64, 0.03, 0.04, 0.5, 0.999] {
        let (attenuation, ray) =
            dielectric(&rec(), reflected, refracted, s(0.0), s(0.04), s(draw), s(0.0)).unwrap();
        assert_eq!(triple(attenuation), (1.0, 1.0, 1.0));
        assert_eq!(triple(ray.origin()), (1.0, 2.0, 3.0));
        let expected = if 0.04 > draw { (0.0, 1.0, 0.0) } else { (0.0, -1.0, 0.0) };
        assert_eq!(triple(ray.direction()), expected);
    }
    // leaving glass at a flat angle: no refracted ray, whatever is drawn
    for draw in [0.0f64, 0.5, 0.999] {
        let (_, ray) =
            dielectric(&rec(), reflected, refracted, s(1.2), s(0.0), s(draw), s(0.0)).unwrap();
        assert_eq!(triple(ray.direction()), (0.0, 1.0, 0.0));
    }
    // at exactly one the ray still refracts
    let (_, ray) = dielectric(&rec(), reflected, refracted, s(1.0), s(0.0), s(0.5), s(0.0)).unwrap();
    assert_eq!(triple(ray.direction()), (0.0, -1.0, 0.0));
    // whatever the numbers, there is a ray
    for bend in [f64::NAN, -1.0, 0.0, 1.0, 2.0, f64::INFINITY] {
        for reflectance in [f64::NAN, 0.0, 0.5, 1.0] {
            for draw in [f64::NAN, 0.0, 0.5] {
                assert!(dielectric(&rec(), reflected, refracted, s(bend), s(reflectance), s(draw), s(0.0))
                    .is_some());
            }
        }
    }
}

#[test]
fn isotropic_scatters_anywhere() {
    let (attenuation, ray) = isotropic(&rec(), v(0.9, 0.8, 0.7), v(-0.3, 0.2, 0.1), s(0.75)).unwrap();
    assert_eq!(triple(attenuation), (0.9, 0.8, 0.7));
    assert_eq!(triple(ray.origin()), (1.0, 2.0, 3.0));
    assert_eq!(triple(ray.direction()), (-0.3, 0.2, 0.1));
    assert_eq!(f(ray.time()), 0.75);
}

#[test]
fn checker_picks_by_sign() {
    let (odd, even) = (v(1.0, 1.0, 1.0), v(0.3, 0.3, 1.0));
    assert_eq!(triple(checker(s(-0.5), odd, even)), (1.0, 1.0, 1.0));
    assert_eq!(triple(checker(s(0.5), odd, even)), (0.3, 0.3, 1.0));
    assert_eq!(triple(checker(s(0.0), odd, even)), (0.3, 0.3, 1.0));
    assert_eq!(triple(checker(s(-0.0), odd, even)), (0.3, 0.3, 1.0));
}

#[test]
fn nearest_root_prefers_the_smaller() {
    let pick = |a: f64, b: f64, lo: f64, hi: f64| nearest_root(s(a), s(b), s(lo), s(hi)).map(f);
    assert_eq!(pick(4.0, 6.0, 0.001, f64::INFINITY), Some(4.0));
    assert_eq!(pick(-1.0, 1.0, 0.001, f64::INFINITY), Some(1.0));
    assert_eq!(pick(-6.0, -4.0, 0.001, f64::INFINITY), None);
    assert_eq!(pick(4.0, 6.0, 0.001, 3.0), None);
    assert_eq!(pick(4.0, 6.0, 5.0, 10.0), Some(6.0));
    assert_eq!(pick(4.0, 6.0, 4.0, 4.0), Some(4.0));
    assert_eq!(pick(4.0, 6.0, 6.0, 6.0), Some(6.0));
    assert_eq!(pick(f64::NAN, f64::NAN, 0.001, f64::INFINITY), None);
}

#[test]
fn image_texture_needs_a_matching_buffer() {
    assert!(ImageTexture::new(vec![0; 12], 2, 2).is_some());
    assert!(ImageTexture::new(vec![0; 11], 2, 2).is_none());
    assert!(ImageTexture::new(vec![0; 13], 2, 2).is_none());
    assert!(ImageTexture::new(vec![0; 15], 2, 2).is_none());
    assert!(ImageTexture::new(Vec::new(), 0, 0).is_none());
    assert!(ImageTexture::new(Vec::new(), 0, 5).is_none());
    assert!(ImageTexture::new(vec![0; 3], 1, 1).is_some());
    assert!(ImageTexture::new(vec![0; 3], u32::MAX, u32::MAX).is_none());
}

#[test]
fn image_texture_lookup_is_clamped() {
    // two columns, three rows; sample (i, j) holds (10 * j + i, 100, 200)
    let mut data = Vec::new();
    for j in 0..3u8 {
        for i in 0..2u8 {
            data.extend([10 * j + i, 100, 200]);
        }
    }
    let image = ImageTexture::new(data, 2, 3).unwrap();
    assert_eq!(image.width(), 2);
    assert_eq!(image.height(), 3);
    assert_eq!(image.texel(0, 0), (0, 100, 200));
    assert_eq!(image.texel(1, 0), (1, 100, 200));
    assert_eq!(image.texel(0, 2), (20, 100, 200));
    assert_eq!(image.texel(1, 2), (21, 100, 200));
    assert_eq!(image.texel(2, 1), (11, 100, 200));
    assert_eq!(image.texel(7, 9), (21, 100, 200));
    assert_eq!(image.texel(u32::MAX, u32::MAX), (21, 100, 200));
    assert_eq!(image.texel(0, 3), (20, 100, 200));
}

#[test]
fn cube_has_six_faces() {
    let sides = cube_faces(v(0.0, 1.0, 2.0), v(165.0, 330.0, 167.0), 5);
    assert_eq!(sides.len(), 6);
    let summary: Vec<(Plane, f64, f64, f64, f64, f64)> = sides
        .iter()
        .map(|r| (r.plane, f(r.a0), f(r.a1), f(r.b0), f(r.b1), f(r.k)))
        .collect();
    assert_eq!(
        summary,
        vec![
            (Plane::XY, 0.0, 165.0, 1.0, 330.0, 167.0),
            (Plane::XY, 0.0, 165.0, 1.0, 330.0, 2.0),
            (Plane::XZ, 0.0, 165.0, 2.0, 167.0, 330.0),
            (Plane::XZ, 0.0, 165.0, 2.0, 167.0, 1.0),
            (Plane::YZ, 1.0, 330.0, 2.0, 167.0, 165.0),
            (Plane::YZ, 1.0, 330.0, 2.0, 167.0, 0.0),
        ]
    );
    assert!(sides.iter().all(|r| r.material == 5));
}

#[test]
fn both_roots_lie_on_the_sphere() {
    let spheres = [((0.0f64, 0.0f64, 0.0f64), 1.0f64), ((3.0, -2.0, 7.5), 2.5), ((-100.0, 4.0, 0.25), 0.2)];
    let offsets = [(0.0f64, 0.0f64), (0.3, -0.2), (-0.6, 0.5), (0.05, 0.9)];
    for (center, radius) in spheres {
        for (dy, dz) in offsets {
            // a ray from afar aimed near the centre
            let origin = (center.0 - 10.0, center.1 + 1.0, center.2 - 2.0);
            let aim = (center.0, center.1 + dy * radius, center.2 + dz * radius);
            let d = (aim.0 - origin.0, aim.1 - origin.1, aim.2 - origin.2);
            let oc = (origin.0 - center.0, origin.1 - center.1, origin.2 - center.2);
            let a = d.0 * d.0 + d.1 * d.1 + d.2 * d.2;
            let half_b = oc.0 * d.0 + oc.1 * d.1 + oc.2 * d.2;
            let c = oc.0 * oc.0 + oc.1 * oc.1 + oc.2 * oc.2 - radius * radius;
            let disc = half_b * half_b - a * c;
            assert!(disc > 0.0);
            let (smaller, larger) = ((-half_b - disc.sqrt()) / a, (-half_b + disc.sqrt()) / a);
            for t in [smaller, larger] {
                let p = (origin.0 + t * d.0, origin.1 + t * d.1, origin.2 + t * d.2);
                let distance =
                    ((p.0 - center.0).powi(2) + (p.1 - center.1).powi(2) + (p.2 - center.2).powi(2)).sqrt();
                assert!((distance - radius).abs() < 1e-9 * (1.0 + radius));
            }
            let near = nearest_root(s(smaller), s(larger), s(0.001), s(f64::INFINITY)).map(f);
            assert_eq!(near, Some(smaller));
            let far = nearest_root(s(smaller), s(larger), s((smaller + larger) / 2.0), s(f64::INFINITY)).map(f);
            assert_eq!(far, Some(larger));
        }
    }
}
