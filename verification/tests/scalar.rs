use aerospace_units::scalar::Scalar;
use std::cmp::Ordering;

fn s(x: f64) -> Scalar {
    Scalar::from_bits(x.to_bits())
}

/// Values from every class of binary64: zeros, subnormals, normals around
/// binade borders, the extremes, infinities and NaNs of both signs.
fn samples() -> Vec<f64> {
    let mut v = vec![
        0.0,
        -0.0,
        f64::from_bits(1),
        -f64::from_bits(1),
        f64::from_bits(0x000F_FFFF_FFFF_FFFF),
        f64::MIN_POSITIVE,
        -f64::MIN_POSITIVE,
        0.5,
        1.0,
        -1.0,
        f64::from_bits(0x3FEF_FFFF_FFFF_FFFF),
        f64::from_bits(0x3FF0_0000_0000_0001),
        2.0,
        std::f64::consts::PI,
        -std::f64::consts::PI,
        999.9999999999999,
        1000.0,
        1_000_000.0,
        -1_000_000.0,
        1e300,
        -1e300,
        f64::MAX,
        f64::MIN,
        f64::INFINITY,
        f64::NEG_INFINITY,
        f64::NAN,
        -f64::NAN,
        f64::from_bits(0x7FF0_0000_0000_0001),
        f64::from_bits(0xFFFF_FFFF_FFFF_FFFF),
    ];
    // a run of neighbours around one, to catch an order that is off by a bit
    for i in 0..8u64 {
        v.push(f64::from_bits(0x3FEF_FFFF_FFFF_FFFC + i));
    }
    v
}

#[test]
fn bits_go_in_and_out_unchanged() {
    for x in samples() {
        assert_eq!(s(x).to_bits(), x.to_bits());
    }
}

#[test]
fn order_agrees_with_the_machine() {
    for a in samples() {
        for b in samples() {
            assert_eq!(s(a) < s(b), a < b, "{a:?} < {b:?}");
            assert_eq!(s(a) <= s(b), a <= b, "{a:?} <= {b:?}");
            assert_eq!(s(a) > s(b), a > b, "{a:?} > {b:?}");
            assert_eq!(s(a) >= s(b), a >= b, "{a:?} >= {b:?}");
            assert_eq!(s(a).partial_cmp(&s(b)), a.partial_cmp(&b), "{a:?} ? {b:?}");
        }
    }
}

#[test]
fn equality_agrees_with_the_machine() {
    for a in samples() {
        for b in samples() {
            assert_eq!(s(a) == s(b), a == b, "{a:?} == {b:?}");
            assert_eq!(s(a) != s(b), a != b, "{a:?} != {b:?}");
        }
    }
}

#[test]
fn a_nan_is_unordered_and_unequal_even_to_itself() {
    let nan = s(f64::NAN);
    assert!(nan.is_nan());
    assert!(nan != nan);
    assert_eq!(nan.partial_cmp(&nan), None);
    assert_eq!(nan.partial_cmp(&s(1.0)), None);
    assert_eq!(s(1.0).partial_cmp(&nan), None);
    assert!(!(nan < s(1.0)) && !(nan > s(1.0)) && !(nan <= nan) && !(nan >= nan));
}

#[test]
fn the_two_zeros_are_equal_and_neither_is_positive() {
    assert!(s(0.0) == s(-0.0));
    assert_eq!(s(0.0).partial_cmp(&s(-0.0)), Some(Ordering::Equal));
    assert_ne!(s(0.0).to_bits(), s(-0.0).to_bits());
    assert!(!s(0.0).is_positive());
    assert!(!s(-0.0).is_positive());
}

#[test]
fn nan_test_agrees_with_the_machine() {
    for x in samples() {
        assert_eq!(s(x).is_nan(), x.is_nan(), "{x:?}");
    }
}

#[test]
fn positivity_agrees_with_the_machine() {
    for x in samples() {
        assert_eq!(s(x).is_positive(), x > 0.0, "{x:?}");
    }
    assert!(s(f64::from_bits(1)).is_positive());
    assert!(s(f64::INFINITY).is_positive());
    assert!(!s(f64::NEG_INFINITY).is_positive());
    assert!(!s(f64::NAN).is_positive());
}

#[test]
fn absolute_value_agrees_with_the_machine() {
    for x in samples() {
        assert_eq!(s(x).abs().to_bits(), x.abs().to_bits(), "{x:?}");
    }
    assert_eq!(s(-2.5).abs().to_bits(), 2.5f64.to_bits());
    assert_eq!(s(-0.0).abs().to_bits(), 0);
}

#[test]
fn negation_agrees_with_the_machine() {
    for x in samples() {
        assert_eq!((-s(x)).to_bits(), (-x).to_bits(), "{x:?}");
        assert_eq!((-(-s(x))).to_bits(), x.to_bits(), "{x:?}");
    }
    assert_eq!((-s(2.5)).to_bits(), (-2.5f64).to_bits());
    assert_eq!((-s(0.0)).to_bits(), (-0.0f64).to_bits());
}
