use raytracer::aabb::AABB;
use raytracer::hit::{HitRecord, Hittable, HittableList};
use raytracer::integrator::{ray_color, Path};
use raytracer::material::{ConstantTexture, DiffuseLight, Material, Texture};
use raytracer::ray::Ray;
use raytracer::scalar::Scalar;
use raytracer::vector::{Color, Point3, Vector3};

fn s(x: f64) -> Scalar {
    Scalar::from_bits(x.to_bits())
}

fn f(x: Scalar) -> f64 {
    f64::from_bits(x.to_bits())
}

fn v(x: f64, y: f64, z: f64) -> Vector3 {
    Vector3::new(s(x), s(y), s(z))
}

fn triple(p: Vector3) -> (f64, f64, f64) {
    (f(p.x()), f(p.y()), f(p.z()))
}

/// The light that a path carries, folded from its far end.
fn radiance(path: &Path) -> (f64, f64, f64) {
    let mut light = triple(path.tail);
    for bounce in &path.bounces {
        let (e, a) = (triple(bounce.emitted), triple(bounce.attenuation));
        light = (e.0 + a.0 * light.0, e.1 + a.1 * light.1, e.2 + a.2 * light.2);
    }
    light
}

/// A sphere of radius one at the origin.
struct UnitBall {
    material: usize,
}

impl Hittable for UnitBall {
    fn hit(&self, r: &Ray, t_min: Scalar, t_max: Scalar) -> Option<HitRecord> {
        let (o, d) = (triple(r.origin()), triple(r.direction()));
        let a = d.0 * d.0 + d.1 * d.1 + d.2 * d.2;
        let half_b = o.0 * d.0 + o.1 * d.1 + o.2 * d.2;
        let c = o.0 * o.0 + o.1 * o.1 + o.2 * o.2 - 1.0;
        let disc = half_b * half_b - a * c;
        if disc < 0.0 {
            return None;
        }
        let mut t = (-half_b - disc.sqrt()) / a;
        if !(f(t_min) <= t && t <= f(t_max)) {
            t = (-half_b + disc.sqrt()) / a;
            if !(f(t_min) <= t && t <= f(t_max)) {
                return None;
            }
        }
        let p = (o.0 + t * d.0, o.1 + t * d.1, o.2 + t * d.2);
        let mut rec = HitRecord {
            position: v(p.0, p.1, p.2),
            normal: v(p.0, p.1, p.2),
            t: s(t),
            u: s(0.0),
            v: s(0.0),
            front_face: false,
            material: self.material,
        };
        rec.set_face_normal(s(d.0 * p.0 + d.1 * p.1 + d.2 * p.2), v(p.0, p.1, p.2));
        Some(rec)
    }

    fn bounding_box(&self, _t0: Scalar, _t1: Scalar) -> Option<AABB> {
        AABB::new(v(-1.0, -1.0, -1.0), v(1.0, 1.0, 1.0))
    }

    fn random(&self, _o: Vector3) -> Vector3 {
        v(1.0, 0.0, 0.0)
    }
}

/// A diffuse surface that scatters straight along the normal.
struct Matte {
    albedo: (f64, f64, f64),
}

/// A polished surface that reflects the ray about the normal.
struct Mirror {
    tint: (f64, f64, f64),
}

enum Surface {
    Matte(Matte),
    Mirror(Mirror),
    Lamp(DiffuseLight<ConstantTexture>),
}

impl Material for Surface {
    fn scatter(&self, r_in: &Ray, rec: &HitRecord) -> Option<(Color, Ray)> {
        match self {
            Surface::Matte(m) => Some((
                v(m.albedo.0, m.albedo.1, m.albedo.2),
                Ray::new(rec.position, rec.normal, r_in.time()),
            )),
            Surface::Mirror(m) => {
                let (d, n) = (triple(r_in.direction()), triple(rec.normal));
                let dn = 2.0 * (d.0 * n.0 + d.1 * n.1 + d.2 * n.2);
                Some((
                    v(m.tint.0, m.tint.1, m.tint.2),
                    Ray::new(rec.position, v(d.0 - dn * n.0, d.1 - dn * n.1, d.2 - dn * n.2), r_in.time()),
                ))
            }
            Surface::Lamp(l) => l.scatter(r_in, rec),
        }
    }

    fn emitted(&self, u: Scalar, w: Scalar, p: &Point3) -> Color {
        match self {
            Surface::Lamp(l) => l.emitted(u, w, p),
            _ => v(0.0, 0.0, 0.0),
        }
    }
}

fn white() -> Color {
    v(1.0, 1.0, 1.0)
}

fn towards_the_ball() -> Ray {
    Ray::new(v(0.0, 0.0, 5.0), v(0.0, 0.0, -1.0), s(0.0))
}

#[test]
fn no_depth_no_light() {
    let world = UnitBall { material: 0 };
    let materials = vec![Surface::Lamp(DiffuseLight::new(ConstantTexture::new(v(4.0, 4.0, 4.0))))];
    for ray in [towards_the_ball(), Ray::new(v(0.0, 0.0, 5.0), v(0.0, 1.0, 0.0), s(0.0))] {
        let path = ray_color(&ray, white(), &world, &materials, 0).unwrap();
        assert!(path.bounces.is_empty());
        assert_eq!(
            (path.tail.x().to_bits(), path.tail.y().to_bits(), path.tail.z().to_bits()),
            (0, 0, 0)
        );
        assert_eq!(radiance(&path), (0.0, 0.0, 0.0));
    }
    let empty: HittableList<UnitBall> = HittableList::new();
    let path = ray_color(&towards_the_ball(), white(), &empty, &materials, 0).unwrap();
    assert_eq!(radiance(&path), (0.0, 0.0, 0.0));
}

#[test]
fn ray_that_meets_nothing_carries_the_background() {
    let world = UnitBall { material: 0 };
    let materials = vec![Surface::Matte(Matte { albedo: (0.5, 0.5, 0.5) })];
    let away = Ray::new(v(0.0, 0.0, 5.0), v(0.0, 1.0, 0.0), s(0.0));
    let background = v(0.7, 0.8, 1.0);
    let path = ray_color(&away, background, &world, &materials, 50).unwrap();
    assert!(path.bounces.is_empty());
    assert_eq!(radiance(&path), (0.7, 0.8, 1.0));
}

#[test]
fn matte_ball_is_darker_than_the_white_background() {
    let world = UnitBall { material: 0 };
    let materials = vec![Surface::Matte(Matte { albedo: (0.4, 0.2, 0.1) })];
    // the centre of the picture: the ray meets the ball and leaves along the normal
    let path = ray_color(&towards_the_ball(), white(), &world, &materials, 50).unwrap();
    assert_eq!(path.bounces.len(), 1);
    assert_eq!(radiance(&path), (0.4, 0.2, 0.1));
    let light = radiance(&path);
    assert!(light.0 < 1.0 && light.1 < 1.0 && light.2 < 1.0);
    // well outside the ball: exactly the background
    let past = Ray::new(v(0.0, 0.0, 5.0), v(0.6, 0.0, -0.8), s(0.0));
    let path = ray_color(&past, white(), &world, &materials, 50).unwrap();
    assert_eq!(radiance(&path), (1.0, 1.0, 1.0));
}

#[test]
fn lamp_emits_and_ends_the_path() {
    let world = UnitBall { material: 1 };
    let materials = vec![
        Surface::Matte(Matte { albedo: (0.5, 0.5, 0.5) }),
        Surface::Lamp(DiffuseLight::new(ConstantTexture::new(v(4.0, 3.0, 2.0)))),
    ];
    let path = ray_color(&towards_the_ball(), v(0.0, 0.0, 0.0), &world, &materials, 50).unwrap();
    assert!(path.bounces.is_empty());
    assert_eq!(radiance(&path), (4.0, 3.0, 2.0));
}

#[test]
fn path_inside_a_mirror_ball_ends_with_the_depth() {
    // from the centre of a mirror ball the ray bounces back and forth for ever
    let world = UnitBall { material: 0 };
    let materials = vec![Surface::Mirror(Mirror { tint: (0.5, 0.5, 0.5) })];
    let inside = Ray::new(v(0.0, 0.0, 0.0), v(0.0, 0.0, 1.0), s(0.0));
    for depth in [1u64, 2, 3, 7] {
        let path = ray_color(&inside, white(), &world, &materials, depth).unwrap();
        assert_eq!(path.bounces.len() as u64, depth);
        assert_eq!(radiance(&path), (0.0, 0.0, 0.0));
    }
}

#[test]
fn bounces_are_kept_from_the_far_end() {
    // a ball that glows and reflects: every bounce adds light
    struct Glow;
    impl Material for Glow {
        fn scatter(&self, r_in: &Ray, rec: &HitRecord) -> Option<(Color, Ray)> {
            let d = triple(r_in.direction());
            let dim = if rec.front_face { 0.5 } else { 0.25 };
            Some((v(dim, dim, dim), Ray::new(rec.position, v(-d.0, -d.1, -d.2), r_in.time())))
        }
        fn emitted(&self, _u: Scalar, _w: Scalar, _p: &Point3) -> Color {
            v(1.0, 1.0, 1.0)
        }
    }
    let world = UnitBall { material: 0 };
    let materials = vec![Glow];
    // the ray strikes the front of the ball, is sent back and meets nothing
    let path = ray_color(&towards_the_ball(), v(8.0, 8.0, 8.0), &world, &materials, 50).unwrap();
    assert_eq!(path.bounces.len(), 1);
    assert_eq!(radiance(&path), (5.0, 5.0, 5.0));
    // from inside, the ray strikes the back of the ball again and again
    let inside = Ray::new(v(0.0, 0.0, 0.0), v(0.0, 0.0, 1.0), s(0.0));
    let path = ray_color(&inside, v(8.0, 8.0, 8.0), &world, &materials, 3).unwrap();
    assert_eq!(path.bounces.len(), 3);
    // 1 + 0.25 * (1 + 0.25 * (1 + 0.25 * 0))
    assert_eq!(radiance(&path), (1.3125, 1.3125, 1.3125));
}

#[test]
fn unknown_material_gives_no_path() {
    let world = UnitBall { material: 3 };
    let materials = vec![Surface::Matte(Matte { albedo: (0.5, 0.5, 0.5) })];
    assert!(ray_color(&towards_the_ball(), white(), &world, &materials, 50).is_none());
    // the handle is looked up only when something is hit
    let away = Ray::new(v(0.0, 0.0, 5.0), v(0.0, 1.0, 0.0), s(0.0));
    assert!(ray_color(&away, white(), &world, &materials, 50).is_some());
    assert!(ray_color(&towards_the_ball(), white(), &world, &materials, 0).is_some());
}

#[test]
fn constant_texture_and_light() {
    let texture = ConstantTexture::new(v(0.1, 0.2, 0.3));
    assert_eq!(triple(texture.value(s(0.5), s(0.25), &v(1.0, 2.0, 3.0))), (0.1, 0.2, 0.3));
    let light = DiffuseLight::new(texture);
    assert_eq!(triple(light.emitted(s(0.0), s(1.0), &v(9.0, 9.0, 9.0))), (0.1, 0.2, 0.3));
    let rec = HitRecord {
        position: v(0.0, 0.0, 1.0),
        normal: v(0.0, 0.0, 1.0),
        t: s(4.0),
        u: s(0.0),
        v: s(0.0),
        front_face: true,
        material: 0,
    };
    assert!(light.scatter(&towards_the_ball(), &rec).is_none());
}
