use aerospace_units::prelude::Angle;
use aerospace_units::prelude::Force;
use aerospace_units::prelude::Length;
use aerospace_units::prelude::Mass;
use aerospace_units::prelude::MassFlowRate;
use aerospace_units::prelude::Pressure;
use aerospace_units::prelude::Scalar;
use aerospace_units::prelude::SpecificImpulse;
use aerospace_units::prelude::Velocity;

fn s(x: f64) -> Scalar {
    Scalar::from_bits(x.to_bits())
}

fn samples() -> Vec<f64> {
    let mut v = vec![
        0.0,
        -0.0,
        0.004,
        0.005,
        0.0050000000000000001,
        0.015,
        0.025,
        0.125,
        0.375,
        0.05,
        0.15,
        0.25,
        0.35,
        0.45,
        0.95,
        0.995,
        0.9999,
        1.0,
        -1.0,
        9.995,
        9.999,
        99.995,
        1.005,
        1.015,
        1.025,
        2.675,
        123.456,
        -123.456,
        6.77,
        686.0,
        2941.995,
        101.325,
        1e15,
        4503599627370495.5,
        4503599627370496.0,
        9007199254740992.0,
        9007199254740993.0,
        1e16,
        1e17,
        1e18,
        1.8446744073709552e19,
        1e20,
        1e21,
        1e22,
        1e23,
        123456789012345678901234567890.0,
        1e100,
        1e300,
        -1e300,
        f64::MAX,
        f64::MIN,
        f64::MIN_POSITIVE,
        5e-324,
        -5e-324,
        1e-10,
        f64::EPSILON,
        f64::INFINITY,
        f64::NEG_INFINITY,
        f64::NAN,
    ];
    let mut state: u64 = 11;
    for i in 0..1200 {
        state = state.wrapping_mul(6364136223846793005).wrapping_add(1442695040888963407);
        let mut z = state;
        z ^= z >> 33;
        z = z.wrapping_mul(0xff51afd7ed558ccd);
        z ^= z >> 29;
        let exponent = match i % 4 {
            0 => 1023 - 12 + (z >> 52) % 40,
            1 => 1023 - 60 + (z >> 52) % 130,
            2 => (z >> 52) % 2047,
            _ => 1023 - 8 + (z >> 52) % 16,
        };
        v.push(f64::from_bits((z & 0x800F_FFFF_FFFF_FFFF) | (exponent << 52)));
        // and a tie or nearly one: a few binary places only
        v.push(f64::from_bits((z & 0x800F_E000_0000_0000) | ((1023 - 4 + (z >> 52) % 12) << 52)));
    }
    v
}

#[test]
fn two_decimals_are_the_machine_s() {
    for x in samples() {
        assert_eq!(s(x).to_hundredths(), format!("{:.2}", x), "{x:e}");
    }
}

#[test]
fn one_decimal_is_the_machine_s() {
    for x in samples() {
        assert_eq!(s(x).to_tenths(), format!("{:.1}", x), "{x:e}");
    }
}

#[test]
fn a_tie_goes_to_the_even_digit() {
    assert_eq!(s(0.125).to_hundredths(), "0.12");
    assert_eq!(s(0.375).to_hundredths(), "0.38");
    assert_eq!(s(0.25).to_tenths(), "0.2");
    assert_eq!(s(0.75).to_tenths(), "0.8");
    assert_eq!(s(-0.125).to_hundredths(), "-0.12");
}

#[test]
fn what_is_no_number_is_named() {
    assert_eq!(s(f64::NAN).to_hundredths(), "NaN");
    assert_eq!(s(-f64::NAN).to_hundredths(), "NaN");
    assert_eq!(s(f64::INFINITY).to_hundredths(), "inf");
    assert_eq!(s(f64::NEG_INFINITY).to_tenths(), "-inf");
}

#[test]
fn the_sign_of_zero_is_shown() {
    assert_eq!(s(0.0).to_hundredths(), "0.00");
    assert_eq!(s(-0.0).to_hundredths(), "-0.00");
    assert_eq!(s(-0.001).to_hundredths(), "-0.00");
    assert_eq!(s(-0.0).to_tenths(), "-0.0");
}

#[test]
fn the_largest_scalar_has_all_its_digits() {
    let text = s(f64::MAX).to_hundredths();
    assert_eq!(text.len(), 309 + 3);
    assert!(text.starts_with("17976931348623157081452742373170435679807056752584"));
    assert!(text.ends_with("4124858368.00"));
}

fn machine_force(newtons: f64) -> String {
    if newtons.abs() >= 1_000_000.0 {
        format!("{:.2} MN", newtons / 1_000_000.0)
    } else if newtons.abs() >= 1000.0 {
        format!("{:.2} kN", newtons / 1000.0)
    } else {
        format!("{:.2} N", newtons)
    }
}

fn machine_pressure(pascals: f64) -> String {
    if pascals.abs() >= 1000.0 {
        format!("{:.2} kPa", pascals / 1000.0)
    } else {
        format!("{:.2} Pa", pascals)
    }
}

#[test]
fn every_quantity_is_shown_as_the_machine_shows_it() {
    for x in samples().into_iter().step_by(3) {
        assert_eq!(Length::from_meters(s(x)).to_string(), format!("{:.2} m", x));
        assert_eq!(Velocity::from_meters_per_second(s(x)).to_string(), format!("{:.2} m/s", x));
        assert_eq!(Mass::from_kilograms(s(x)).to_string(), format!("{:.2} kg", x));
        assert_eq!(MassFlowRate::from_kg_per_s(s(x)).to_string(), format!("{:.2} kg/s", x));
        assert_eq!(SpecificImpulse::from_seconds(s(x)).to_string(), format!("{:.1} s", x));
        assert_eq!(
            Angle::from_radians(s(x)).to_string(),
            format!("{:.2} deg", x * 180.0 / std::f64::consts::PI)
        );
        assert_eq!(Force::from_newtons(s(x)).to_string(), machine_force(x), "{x:e}");
        assert_eq!(Pressure::from_pascals(s(x)).to_string(), machine_pressure(x), "{x:e}");
    }
}

#[test]
fn the_text_of_some_quantities() {
    assert_eq!(Length::from_feet(s(35_000.0)).to_string(), "10668.00 m");
    assert_eq!(Mass::from_tonnes(s(2290.0)).to_string(), "2290000.00 kg");
    assert_eq!(SpecificImpulse::from_seconds(s(263.0)).to_string(), "263.0 s");
    assert_eq!(Angle::from_degrees(s(90.0)).to_string(), "90.00 deg");
    assert_eq!(Force::from_meganewtons(s(6.77)).to_string(), "6.77 MN");
    assert_eq!(Force::from_kilonewtons(s(130.0)).to_string(), "130.00 kN");
    assert_eq!(Force::from_newtons(s(686.0)).to_string(), "686.00 N");
    assert_eq!(Force::from_newtons(s(-2500.0)).to_string(), "-2.50 kN");
    assert_eq!(Force::from_newtons(s(f64::NAN)).to_string(), "NaN N");
    assert_eq!(Pressure::sea_level().to_string(), "101.33 kPa");
    assert_eq!(Pressure::from_pascals(s(999.0)).to_string(), "999.00 Pa");
    assert_eq!(Pressure::from_pascals(s(-2500.0)).to_string(), "-2.50 kPa");
    assert_eq!(Pressure::from_pascals(s(-5000.0)).to_string(), "-5.00 kPa");
    assert_eq!(Pressure::from_pascals(s(-999.0)).to_string(), "-999.00 Pa");
}
