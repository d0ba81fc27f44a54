use aerospace_units::prelude::Angle;
use aerospace_units::prelude::Force;
use aerospace_units::prelude::ForceUnit;
use aerospace_units::prelude::Length;
use aerospace_units::prelude::Mass;
use aerospace_units::prelude::MassFlowRate;
use aerospace_units::prelude::Pressure;
use aerospace_units::prelude::PressureUnit;
use aerospace_units::prelude::Scalar;
use aerospace_units::prelude::SpecificImpulse;
use aerospace_units::prelude::Velocity;
use std::cmp::Ordering;
use std::f64::consts::PI;

fn s(x: f64) -> Scalar {
    Scalar::from_bits(x.to_bits())
}

fn f(x: Scalar) -> f64 {
    f64::from_bits(x.to_bits())
}

/// The double just below a positive finite double.
fn before(x: f64) -> f64 {
    f64::from_bits(x.to_bits() - 1)
}

#[test]
fn canonical_values_come_back_bit_for_bit() {
    for x in [0.0, -0.0, 1.5, -686.0, 1e-310, f64::MAX, f64::INFINITY, f64::NEG_INFINITY] {
        assert_eq!(Length::from_meters(s(x)).as_meters().to_bits(), x.to_bits());
        let velocity = Velocity::from_meters_per_second(s(x));
        assert_eq!(velocity.as_meters_per_second().to_bits(), x.to_bits());
        assert_eq!(Mass::from_kilograms(s(x)).as_kilograms().to_bits(), x.to_bits());
        assert_eq!(Force::from_newtons(s(x)).as_newtons().to_bits(), x.to_bits());
        assert_eq!(Pressure::from_pascals(s(x)).as_pascals().to_bits(), x.to_bits());
        assert_eq!(Angle::from_radians(s(x)).as_radians().to_bits(), x.to_bits());
        assert_eq!(MassFlowRate::from_kg_per_s(s(x)).as_kg_per_s().to_bits(), x.to_bits());
        assert_eq!(SpecificImpulse::from_seconds(s(x)).as_seconds().to_bits(), x.to_bits());
    }
    let nan = f64::from_bits(0x7FF8_0000_0000_1234);
    assert_eq!(Mass::from_kilograms(s(nan)).as_kilograms().to_bits(), nan.to_bits());
}

#[test]
fn positivity_of_every_kind() {
    for (x, positive) in [
        (1.0, true),
        (f64::from_bits(1), true),
        (f64::INFINITY, true),
        (0.0, false),
        (-0.0, false),
        (-1.0, false),
        (f64::NEG_INFINITY, false),
        (f64::NAN, false),
    ] {
        assert_eq!(Length::from_meters(s(x)).is_positive(), positive, "{x:?}");
        assert_eq!(Velocity::from_meters_per_second(s(x)).is_positive(), positive, "{x:?}");
        assert_eq!(Mass::from_kilograms(s(x)).is_positive(), positive, "{x:?}");
        assert_eq!(Force::from_newtons(s(x)).is_positive(), positive, "{x:?}");
        assert_eq!(Pressure::from_pascals(s(x)).is_positive(), positive, "{x:?}");
        assert_eq!(Angle::from_radians(s(x)).is_positive(), positive, "{x:?}");
        assert_eq!(MassFlowRate::from_kg_per_s(s(x)).is_positive(), positive, "{x:?}");
        assert_eq!(SpecificImpulse::from_seconds(s(x)).is_positive(), positive, "{x:?}");
    }
}

#[test]
fn negative_quantities_are_held_and_not_rejected() {
    assert_eq!(f(Length::from_meters(s(-12.5)).as_meters()), -12.5);
    assert_eq!(f(Mass::from_kilograms(s(-3.0)).as_kilograms()), -3.0);
    assert_eq!(f(Pressure::from_pascals(s(-101_325.0)).as_pascals()), -101_325.0);
}

#[test]
fn absolute_value_of_the_kinds_that_have_one() {
    for x in [3.5, -3.5, 0.0, -0.0, f64::NEG_INFINITY, -1e-320] {
        assert_eq!(Length::from_meters(s(x)).abs().as_meters().to_bits(), x.abs().to_bits());
        assert_eq!(Force::from_newtons(s(x)).abs().as_newtons().to_bits(), x.abs().to_bits());
        assert_eq!(
            Velocity::from_meters_per_second(s(x)).abs().as_meters_per_second().to_bits(),
            x.abs().to_bits()
        );
        assert_eq!(Angle::from_radians(s(x)).abs().as_radians().to_bits(), x.abs().to_bits());
    }
    assert!(Force::from_newtons(s(-f64::NAN)).abs().as_newtons().is_nan());
}

#[test]
fn negation_of_an_angle() {
    for x in [1.25, -1.25, 0.0, -0.0, f64::INFINITY] {
        assert_eq!((-Angle::from_radians(s(x))).as_radians().to_bits(), (-x).to_bits());
    }
    assert!((-Angle::from_radians(s(f64::NAN))).as_radians().is_nan());
}

#[test]
fn quantities_compare_as_their_scalars() {
    let short = Length::from_meters(s(50.0));
    let long = Length::from_meters(s(100.0));
    assert!(short < long);
    assert!(long > short);
    assert!(short <= short);
    assert!(short == Length::from_meters(s(50.0)));
    assert!(short != long);
    assert_eq!(short.partial_cmp(&long), Some(Ordering::Less));
    assert_eq!(long.partial_cmp(&short), Some(Ordering::Greater));
    assert_eq!(long.partial_cmp(&long), Some(Ordering::Equal));

    assert!(Mass::from_kilograms(s(-1.0)) < Mass::from_kilograms(s(0.0)));
    assert!(Mass::from_kilograms(s(-0.0)) == Mass::from_kilograms(s(0.0)));
    assert!(Velocity::from_meters_per_second(s(-2.0)) < Velocity::from_meters_per_second(s(-1.0)));
    assert!(Force::from_newtons(s(f64::NEG_INFINITY)) < Force::from_newtons(s(f64::MIN)));
    assert!(Pressure::from_pascals(s(f64::MAX)) < Pressure::from_pascals(s(f64::INFINITY)));
    assert!(Angle::from_radians(s(PI)) > Angle::from_radians(s(before(PI))));
    assert!(MassFlowRate::from_kg_per_s(s(1e-320)) > MassFlowRate::from_kg_per_s(s(0.0)));
    assert!(SpecificImpulse::from_seconds(s(452.0)) > SpecificImpulse::from_seconds(s(311.0)));
}

#[test]
fn a_nan_quantity_is_unordered() {
    let nan = Force::from_newtons(s(f64::NAN));
    let one = Force::from_newtons(s(1.0));
    assert!(nan != nan);
    assert!(!(nan == one));
    assert_eq!(nan.partial_cmp(&one), None);
    assert_eq!(one.partial_cmp(&nan), None);
    assert_eq!(nan.partial_cmp(&nan), None);
    assert!(!(nan < one) && !(nan > one) && !(nan <= one) && !(nan >= one));

    let nan = Angle::from_radians(s(f64::NAN));
    assert!(nan != nan);
    assert_eq!(nan.partial_cmp(&nan), None);
}

#[test]
fn force_display_unit_switches_at_a_thousand_and_at_a_million() {
    let unit = |n: f64| Force::from_newtons(s(n)).display_unit();
    assert_eq!(unit(0.0), ForceUnit::Newtons);
    assert_eq!(unit(686.0), ForceUnit::Newtons);
    assert_eq!(unit(before(1000.0)), ForceUnit::Newtons);
    assert_eq!(unit(1000.0), ForceUnit::Kilonewtons);
    assert_eq!(unit(130_000.0), ForceUnit::Kilonewtons);
    assert_eq!(unit(before(1_000_000.0)), ForceUnit::Kilonewtons);
    assert_eq!(unit(1_000_000.0), ForceUnit::Meganewtons);
    assert_eq!(unit(6_770_000.0), ForceUnit::Meganewtons);
    assert_eq!(unit(f64::INFINITY), ForceUnit::Meganewtons);
}

#[test]
fn force_display_unit_goes_by_size_whatever_the_sign() {
    let unit = |n: f64| Force::from_newtons(s(n)).display_unit();
    assert_eq!(unit(-999.0), ForceUnit::Newtons);
    assert_eq!(unit(-1000.0), ForceUnit::Kilonewtons);
    assert_eq!(unit(-1_000_000.0), ForceUnit::Meganewtons);
    assert_eq!(unit(f64::NEG_INFINITY), ForceUnit::Meganewtons);
    assert_eq!(unit(f64::NAN), ForceUnit::Newtons);
    assert_eq!(unit(-f64::NAN), ForceUnit::Newtons);
}

#[test]
fn pressure_display_unit_switches_at_a_thousand_pascals() {
    let unit = |pa: f64| Pressure::from_pascals(s(pa)).display_unit();
    assert_eq!(unit(0.0), PressureUnit::Pascals);
    assert_eq!(unit(before(1000.0)), PressureUnit::Pascals);
    assert_eq!(unit(1000.0), PressureUnit::Kilopascals);
    assert_eq!(unit(101_325.0), PressureUnit::Kilopascals);
    assert_eq!(unit(f64::INFINITY), PressureUnit::Kilopascals);
    assert_eq!(unit(f64::NAN), PressureUnit::Pascals);
}

#[test]
fn pressure_display_unit_goes_by_size_whatever_the_sign() {
    let unit = |pa: f64| Pressure::from_pascals(s(pa)).display_unit();
    assert_eq!(unit(-0.0), PressureUnit::Pascals);
    assert_eq!(unit(-999.0), PressureUnit::Pascals);
    assert_eq!(unit(-before(1000.0)), PressureUnit::Pascals);
    assert_eq!(unit(-1000.0), PressureUnit::Kilopascals);
    assert_eq!(unit(-5000.0), PressureUnit::Kilopascals);
    assert_eq!(unit(-1e9), PressureUnit::Kilopascals);
    assert_eq!(unit(f64::NEG_INFINITY), PressureUnit::Kilopascals);
    assert_eq!(unit(-f64::NAN), PressureUnit::Pascals);
}

#[test]
fn sea_level_is_one_standard_atmosphere() {
    assert_eq!(f(Pressure::sea_level().as_pascals()), 101_325.0);
    assert!(Pressure::sea_level() == Pressure::from_atmospheres(s(1.0)));
    assert!(Pressure::sea_level().is_positive());
    assert_eq!(Pressure::sea_level().display_unit(), PressureUnit::Kilopascals);
}

#[test]
fn normalize_wraps_into_the_unsigned_range() {
    let wrapped = |rad: f64| f(Angle::from_radians(s(rad)).normalize().as_radians());
    assert_eq!(wrapped(0.0), 0.0);
    assert_eq!(wrapped(1.0), 1.0);
    assert_eq!(wrapped(before(2.0 * PI)), before(2.0 * PI));
    assert_eq!(wrapped(2.0 * PI), 0.0);
    assert_eq!(wrapped(-PI / 2.0), 1.5 * PI);
    assert_eq!(wrapped(5.0 * PI / 2.0), 5.0 * PI / 2.0 - 2.0 * PI);
    assert_eq!(wrapped(-0.0).to_bits(), (-0.0f64).to_bits());
    assert!(wrapped(f64::NAN).is_nan());
    assert!(wrapped(f64::INFINITY).is_nan());
    assert!(wrapped(f64::NEG_INFINITY).is_nan());
}

#[test]
fn normalize_signed_turns_at_half_a_turn() {
    let wrapped = |rad: f64| f(Angle::from_radians(s(rad)).normalize_signed().as_radians());
    assert_eq!(wrapped(0.0), 0.0);
    assert_eq!(wrapped(before(PI)), before(PI));
    assert_eq!(wrapped(PI), -PI);
    assert_eq!(wrapped(1.5 * PI), -0.5 * PI);
    assert_eq!(wrapped(-PI), -PI);
    assert_eq!(wrapped(-1.5 * PI), 0.5 * PI);
    assert_eq!(wrapped(-f64::from_bits(PI.to_bits() + 1)), before(PI));
    assert!(wrapped(f64::NAN).is_nan());
    assert!(wrapped(f64::INFINITY).is_nan());
}

#[test]
fn normalized_angles_lie_in_range() {
    let full = 2.0 * PI;
    let degrees = [
        0.0, 90.0, 180.0, 270.0, 359.999, 360.0, 450.0, 720.5, -0.001, -90.0, -180.0, -359.0,
        -725.0, 1e9, -1e9, 1e300, -1e300,
    ];
    for deg in degrees {
        let angle = Angle::from_degrees(s(deg));
        let unsigned = f(angle.normalize().as_radians());
        assert!(0.0 <= unsigned && unsigned < full, "{deg} -> {unsigned}");
        let signed = f(angle.normalize_signed().as_radians());
        assert!(-PI <= signed && signed < PI, "{deg} -> {signed}");
    }
    let three_quarters = Angle::from_degrees(s(270.0)).normalize_signed();
    assert!((f(three_quarters.as_degrees()) - -90.0).abs() < 0.0001);
    let past_half = Angle::from_degrees(s(190.0)).normalize_signed();
    assert!((f(past_half.as_degrees()) - -170.0).abs() < 0.0001);
}

#[test]
fn an_angle_just_below_zero_is_normalized_to_zero() {
    // the sum of the remainder and a full turn would round to the full turn
    // itself, which lies outside the range: the result is zero
    let full = 2.0 * PI;
    let normalized = |rad: f64| f(Angle::from_radians(s(rad)).normalize().as_radians());
    assert_eq!(normalized(-5e-324).to_bits(), 0.0f64.to_bits());
    assert_eq!(normalized(-1e-20), 0.0);
    let edge = -(2.0f64.powi(-51));
    assert_eq!(normalized(edge), 0.0);
    assert_eq!(normalized(edge - full), 0.0);
    let beyond = f64::from_bits(edge.to_bits() + 1);
    assert_eq!(normalized(beyond), before(full));
}

#[test]
fn every_finite_angle_is_normalized_into_range() {
    let full = 2.0 * PI;
    let mut angles = vec![
        0.0,
        -0.0,
        5e-324,
        -5e-324,
        -1e-300,
        -1e-20,
        -(2.0f64.powi(-51)),
        -(2.0f64.powi(-50)),
        -f64::MIN_POSITIVE,
        f64::MAX,
        f64::MIN,
        full,
        -full,
        before(full),
        -before(full),
        PI,
        -PI,
        before(PI),
        -before(PI),
    ];
    let mut state: u64 = 3;
    for _ in 0..20_000 {
        state = state.wrapping_mul(6364136223846793005).wrapping_add(1442695040888963407);
        let mut z = state;
        z ^= z >> 33;
        z = z.wrapping_mul(0xff51afd7ed558ccd);
        z ^= z >> 29;
        let x = f64::from_bits(z);
        if x.is_finite() {
            angles.push(x);
        }
        // and small angles of either sign, down to the least
        angles.push(f64::from_bits(z & 0x803F_FFFF_FFFF_FFFF));
        angles.push(f64::from_bits((z & 0x800F_FFFF_FFFF_FFFF) | ((960 + (z >> 52) % 70) << 52)));
    }
    for rad in angles {
        let angle = Angle::from_radians(s(rad));
        let unsigned = f(angle.normalize().as_radians());
        assert!(0.0 <= unsigned && unsigned < full, "{rad:e} -> {unsigned:e}");
        let signed = f(angle.normalize_signed().as_radians());
        assert!(-PI <= signed && signed < PI, "{rad:e} -> {signed:e}");
    }
}
