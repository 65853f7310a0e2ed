use ray_bvh::scalar::{Scalar, INFINITY_BITS, ONE_BITS, SIGN_BIT};

fn s(x: f32) -> Scalar {
    Scalar::from_bits(x.to_bits())
}

fn f(x: Scalar) -> f32 {
    f32::from_bits(x.to_bits())
}

fn samples() -> Vec<f32> {
    vec![
        0.0,
        -0.0,
        1.0,
        -1.0,
        0.5,
        -0.5,
        2.0,
        -2.0,
        1.0e-45,
        -1.0e-45,
        1.1754944e-38,
        -1.1754944e-38,
        3.4028235e38,
        -3.4028235e38,
        f32::INFINITY,
        f32::NEG_INFINITY,
        f32::NAN,
        -f32::NAN,
        f32::from_bits(0x7f80_0001),
        f32::from_bits(0xffff_ffff),
        4.7683716e-7,
        0.2,
        1.0000001,
        0.99999994,
        123456.79,
        -123456.79,
    ]
}

#[test]
fn constants_are_the_encodings() {
    assert_eq!(ONE_BITS, 1.0f32.to_bits());
    assert_eq!(INFINITY_BITS, f32::INFINITY.to_bits());
    assert_eq!(SIGN_BIT, (-0.0f32).to_bits());
    assert_eq!(f(Scalar::one()), 1.0);
    assert_eq!(Scalar::zero().to_bits(), 0);
    assert_eq!(f(Scalar::zero()), 0.0);
}

#[test]
fn bits_round_trip() {
    for x in samples() {
        assert_eq!(s(x).to_bits(), x.to_bits());
    }
    assert_eq!(Scalar::from_bits(0x1234_5678).to_bits(), 0x1234_5678);
}

#[test]
fn nan_is_recognised() {
    for x in samples() {
        assert_eq!(s(x).is_nan(), x.is_nan(), "{:?}", x);
    }
}

#[test]
fn sign_is_recognised() {
    for x in samples() {
        assert_eq!(s(x).is_sign_negative(), x.is_sign_negative(), "{:?}", x);
    }
}

#[test]
fn less_than_agrees_with_floats() {
    for a in samples() {
        for b in samples() {
            assert_eq!(s(a).lt(s(b)), a < b, "{:?} < {:?}", a, b);
        }
    }
}

#[test]
fn greater_than_agrees_with_floats() {
    for a in samples() {
        for b in samples() {
            assert_eq!(s(a).gt(s(b)), a > b, "{:?} > {:?}", a, b);
        }
    }
}

#[test]
fn at_least_agrees_with_floats() {
    for a in samples() {
        for b in samples() {
            assert_eq!(s(a).ge(s(b)), a >= b, "{:?} >= {:?}", a, b);
        }
    }
}

#[test]
fn at_most_agrees_with_floats() {
    for a in samples() {
        for b in samples() {
            assert_eq!(s(a).le(s(b)), a <= b, "{:?} <= {:?}", a, b);
        }
    }
}

#[test]
fn negative_zero_is_not_less_than_zero() {
    assert!(!s(-0.0).lt(s(0.0)));
    assert!(!s(0.0).lt(s(-0.0)));
    assert!(s(-0.0).ge(s(0.0)));
    assert!(s(0.0).ge(s(-0.0)));
}

#[test]
fn abs_clears_the_sign() {
    for x in samples() {
        assert_eq!(s(x).abs().to_bits(), x.abs().to_bits(), "{:?}", x);
    }
}

#[test]
fn neg_flips_the_sign() {
    for x in samples() {
        assert_eq!(s(x).neg().to_bits(), (-x).to_bits(), "{:?}", x);
    }
}

#[test]
fn zero_minus_agrees_with_floats() {
    for x in samples() {
        let r = f(s(x).zero_minus());
        let e = 0.0f32 - x;
        if e.is_nan() {
            assert!(r.is_nan());
        } else {
            assert_eq!(r.to_bits(), e.to_bits(), "{:?}", x);
        }
    }
}

#[test]
fn max_and_min_agree_with_floats() {
    for a in samples() {
        for b in samples() {
            let hi = f(s(a).max(s(b)));
            let lo = f(s(a).min(s(b)));
            let ehi = a.max(b);
            let elo = a.min(b);
            if ehi.is_nan() {
                assert!(hi.is_nan());
                assert!(lo.is_nan());
            } else {
                assert_eq!(hi, ehi, "max {:?} {:?}", a, b);
                assert_eq!(lo, elo, "min {:?} {:?}", a, b);
            }
        }
    }
}

#[test]
fn max_ignores_a_nan() {
    assert_eq!(s(f32::NAN).max(s(3.0)).to_bits(), 3.0f32.to_bits());
    assert_eq!(s(3.0).max(s(f32::NAN)).to_bits(), 3.0f32.to_bits());
    assert_eq!(s(f32::NAN).min(s(3.0)).to_bits(), 3.0f32.to_bits());
    assert_eq!(s(3.0).min(s(f32::NAN)).to_bits(), 3.0f32.to_bits());
}

#[test]
fn max_of_equals_is_the_first() {
    assert_eq!(s(0.0).max(s(-0.0)).to_bits(), 0.0f32.to_bits());
    assert_eq!(s(-0.0).max(s(0.0)).to_bits(), (-0.0f32).to_bits());
    assert_eq!(s(0.0).min(s(-0.0)).to_bits(), 0.0f32.to_bits());
    assert_eq!(s(-0.0).min(s(0.0)).to_bits(), (-0.0f32).to_bits());
}

#[test]
fn total_key_orders_like_total_cmp() {
    for a in samples() {
        for b in samples() {
            let got = s(a).total_key().cmp(&s(b).total_key());
            assert_eq!(got, a.total_cmp(&b), "{:?} {:?}", a, b);
        }
    }
}

#[test]
fn total_key_of_known_values() {
    assert_eq!(s(0.0).total_key(), 0);
    assert_eq!(s(-0.0).total_key(), -1);
    assert_eq!(s(1.0).total_key(), 0x3f80_0000);
    assert_eq!(s(-1.0).total_key(), -0x3f80_0001);
}
