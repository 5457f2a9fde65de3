use raytracer::integrator::NEAR_BITS;
use raytracer::scalar::{Scalar, INFINITY_BITS, MAGNITUDE_MASK, ONE_BITS, SIGN_BIT};
use raytracer::vector::Vector3;

fn s(x: f64) -> Scalar {
    Scalar::from_bits(x.to_bits())
}

fn f(x: Scalar) -> f64 {
    f64::from_bits(x.to_bits())
}

fn samples() -> Vec<f64> {
    vec![
        f64::NEG_INFINITY,
        f64::MIN,
        -1.0e300,
        -2.5,
        -1.0,
        -0.001,
        -f64::MIN_POSITIVE,
        -5e-324,
        -0.0,
        0.0,
        5e-324,
        f64::MIN_POSITIVE,
        0.00001,
        0.001,
        0.5,
        1.0,
        1.0000000000000002,
        2.5,
        1.0e300,
        f64::MAX,
        f64::INFINITY,
        f64::NAN,
        -f64::NAN,
    ]
}

#[test]
fn constants_are_the_patterns_of_their_numbers() {
    assert_eq!(ONE_BITS, 1.0f64.to_bits());
    assert_eq!(INFINITY_BITS, f64::INFINITY.to_bits());
    assert_eq!(NEAR_BITS, 0.00001f64.to_bits());
    assert_eq!(SIGN_BIT, (-0.0f64).to_bits());
    assert_eq!(MAGNITUDE_MASK, !SIGN_BIT);
    assert_eq!(f(Scalar::zero()), 0.0);
    assert_eq!(f(Scalar::one()), 1.0);
    assert_eq!(f(Scalar::infinity()), f64::INFINITY);
}

#[test]
fn bits_round_trip() {
    for x in samples() {
        assert_eq!(s(x).to_bits(), x.to_bits());
    }
}

#[test]
fn less_agrees_with_the_hardware() {
    for a in samples() {
        for b in samples() {
            assert_eq!(s(a).less(s(b)), a < b, "{a} < {b}");
        }
    }
}

#[test]
fn at_most_agrees_with_the_hardware() {
    for a in samples() {
        for b in samples() {
            assert_eq!(s(a).at_most(s(b)), a <= b, "{a} <= {b}");
        }
    }
}

#[test]
fn nan_is_recognised() {
    for a in samples() {
        assert_eq!(s(a).nan(), a.is_nan());
    }
}

#[test]
fn neg_flips_the_sign_exactly() {
    for a in samples() {
        assert_eq!(s(a).neg().to_bits(), (-a).to_bits());
        if !a.is_nan() {
            assert_eq!(s(a).neg().to_bits(), (-1.0 * a).to_bits());
        }
        assert_eq!(s(a).neg().neg().to_bits(), a.to_bits());
    }
}

#[test]
fn min_and_max_pick_one_of_the_two() {
    assert_eq!(f(s(1.0).min(s(2.0))), 1.0);
    assert_eq!(f(s(2.0).min(s(1.0))), 1.0);
    assert_eq!(f(s(1.0).max(s(2.0))), 2.0);
    assert_eq!(f(s(2.0).max(s(1.0))), 2.0);
    assert_eq!(f(s(-3.0).min(s(-4.0))), -4.0);
    assert_eq!(f(s(-3.0).max(s(-4.0))), -3.0);
    for a in samples() {
        for b in samples() {
            if a.is_nan() || b.is_nan() {
                continue;
            }
            assert_eq!(f(s(a).min(s(b))), a.min(b));
            assert_eq!(f(s(a).max(s(b))), a.max(b));
        }
    }
}

#[test]
fn ranks_below_orders_every_pattern() {
    let all = samples();
    for a in &all {
        for b in &all {
            let ab = s(*a).ranks_below(s(*b));
            let ba = s(*b).ranks_below(s(*a));
            assert!(!(ab && ba));
            if !a.is_nan() && !b.is_nan() {
                assert_eq!(ab, a < b);
            }
            for c in &all {
                if ab && s(*b).ranks_below(s(*c)) {
                    assert!(s(*a).ranks_below(s(*c)));
                }
            }
        }
    }
    // what is not a number ranks beyond the infinities
    assert!(s(f64::INFINITY).ranks_below(s(f64::NAN)));
}

#[test]
fn vector_components_and_updates() {
    let v = Vector3::new(s(1.0), s(2.0), s(3.0));
    assert_eq!(f(v.x()), 1.0);
    assert_eq!(f(v.y()), 2.0);
    assert_eq!(f(v.z()), 3.0);
    assert_eq!(f(v.get(0)), 1.0);
    assert_eq!(f(v.get(1)), 2.0);
    assert_eq!(f(v.get(2)), 3.0);
    let w = v.with(1, s(9.0));
    assert_eq!((f(w.x()), f(w.y()), f(w.z())), (1.0, 9.0, 3.0));
    let n = v.neg();
    assert_eq!((f(n.x()), f(n.y()), f(n.z())), (-1.0, -2.0, -3.0));
    let z = Vector3::zero();
    assert_eq!((z.x().to_bits(), z.y().to_bits(), z.z().to_bits()), (0, 0, 0));
    for axis in 0..3usize {
        let u = Vector3::unit(axis);
        for i in 0..3usize {
            assert_eq!(f(u.get(i)), if i == axis { 1.0 } else { 0.0 });
        }
    }
}
