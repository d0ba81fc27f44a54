//! Every conversion and operator, bit for bit against the same expression
//! in the machine's arithmetic on doubles.

use aerospace_units::prelude::Angle;
use aerospace_units::prelude::Force;
use aerospace_units::prelude::Length;
use aerospace_units::prelude::Mass;
use aerospace_units::prelude::MassFlowRate;
use aerospace_units::prelude::Pressure;
use aerospace_units::prelude::Scalar;
use aerospace_units::prelude::SpecificImpulse;
use aerospace_units::prelude::Velocity;
use std::f64::consts::PI;

fn s(x: f64) -> Scalar {
    Scalar::from_bits(x.to_bits())
}

/// Whether a scalar is the double that the machine computed: the same bits,
/// or a NaN for a NaN.
fn same(ours: Scalar, machine: f64) -> bool {
    if machine.is_nan() {
        ours.is_nan()
    } else {
        ours.to_bits() == machine.to_bits()
    }
}

fn values() -> Vec<f64> {
    let mut v = vec![
        0.0,
        -0.0,
        1.0,
        -1.0,
        0.1,
        1.0 / 3.0,
        2.5,
        90.0,
        450.0,
        -90.0,
        2578.0,
        101_325.0,
        6_770_000.0,
        340.29,
        3280.84,
        1e-9,
        -123_456.789,
        1e300,
        -1e300,
        1e-300,
        5e-324,
        f64::MAX,
        f64::MIN_POSITIVE,
        f64::INFINITY,
        f64::NEG_INFINITY,
        f64::NAN,
    ];
    let mut state: u64 = 7;
    for _ in 0..2000 {
        state = state.wrapping_mul(6364136223846793005).wrapping_add(1442695040888963407);
        let exponent = 1023 - 30 + (state >> 52) % 60;
        v.push(f64::from_bits((state & 0x800F_FFFF_FFFF_FFFF) | (exponent << 52)));
    }
    v
}

#[test]
fn length_conversions_are_the_machine_s() {
    for v in values() {
        assert!(same(Length::from_meters(s(v)).as_meters(), v));
        assert!(same(Length::from_kilometers(s(v)).as_meters(), v * 1000.0));
        assert!(same(Length::from_feet(s(v)).as_meters(), v * 0.3048));
        assert!(same(Length::from_nautical_miles(s(v)).as_meters(), v * 1852.0));
        assert!(same(Length::from_miles(s(v)).as_meters(), v * 1609.344));
        let l = Length::from_meters(s(v));
        assert!(same(l.as_kilometers(), v / 1000.0));
        assert!(same(l.as_feet(), v / 0.3048));
        assert!(same(l.as_nautical_miles(), v / 1852.0));
        assert!(same(l.as_miles(), v / 1609.344));
    }
}

#[test]
fn velocity_conversions_are_the_machine_s() {
    for v in values() {
        assert!(same(Velocity::from_meters_per_second(s(v)).as_meters_per_second(), v));
        let fast = Velocity::from_kilometers_per_second(s(v));
        assert!(same(fast.as_meters_per_second(), v * 1000.0));
        assert!(same(Velocity::from_kilometers_per_hour(s(v)).as_meters_per_second(), v / 3.6));
        assert!(same(Velocity::from_feet_per_second(s(v)).as_meters_per_second(), v * 0.3048));
        assert!(same(Velocity::from_knots(s(v)).as_meters_per_second(), v * 0.514444));
        assert!(same(Velocity::from_miles_per_hour(s(v)).as_meters_per_second(), v * 0.44704));
        assert!(same(Velocity::from_mach(s(v), s(340.29)).as_meters_per_second(), v * 340.29));
        let x = Velocity::from_meters_per_second(s(v));
        assert!(same(x.as_kilometers_per_second(), v / 1000.0));
        assert!(same(x.as_kilometers_per_hour(), v * 3.6));
        assert!(same(x.as_feet_per_second(), v / 0.3048));
        assert!(same(x.as_knots(), v / 0.514444));
        assert!(same(x.as_miles_per_hour(), v / 0.44704));
        assert!(same(x.as_mach(s(340.29)), v / 340.29));
        assert!(same(x.as_mach(s(0.0)), v / 0.0));
    }
}

#[test]
fn mass_conversions_are_the_machine_s() {
    for v in values() {
        assert!(same(Mass::from_kilograms(s(v)).as_kilograms(), v));
        assert!(same(Mass::from_grams(s(v)).as_kilograms(), v / 1000.0));
        assert!(same(Mass::from_tonnes(s(v)).as_kilograms(), v * 1000.0));
        assert!(same(Mass::from_pounds(s(v)).as_kilograms(), v * 0.453592));
        assert!(same(Mass::from_slugs(s(v)).as_kilograms(), v * 14.5939));
        let m = Mass::from_kilograms(s(v));
        assert!(same(m.as_grams(), v * 1000.0));
        assert!(same(m.as_tonnes(), v / 1000.0));
        assert!(same(m.as_pounds(), v / 0.453592));
        assert!(same(m.as_slugs(), v / 14.5939));
    }
}

#[test]
fn force_conversions_are_the_machine_s() {
    for v in values() {
        assert!(same(Force::from_newtons(s(v)).as_newtons(), v));
        assert!(same(Force::from_kilonewtons(s(v)).as_newtons(), v * 1000.0));
        assert!(same(Force::from_meganewtons(s(v)).as_newtons(), v * 1_000_000.0));
        assert!(same(Force::from_pounds_force(s(v)).as_newtons(), v * 4.44822));
        assert!(same(Force::from_kilopounds_force(s(v)).as_newtons(), v * 4448.22));
        let x = Force::from_newtons(s(v));
        assert!(same(x.as_kilonewtons(), v / 1000.0));
        assert!(same(x.as_meganewtons(), v / 1_000_000.0));
        assert!(same(x.as_pounds_force(), v / 4.44822));
        assert!(same(x.as_kilopounds_force(), v / 4448.22));
    }
}

#[test]
fn pressure_conversions_are_the_machine_s() {
    for v in values() {
        assert!(same(Pressure::from_pascals(s(v)).as_pascals(), v));
        assert!(same(Pressure::from_kilopascals(s(v)).as_pascals(), v * 1000.0));
        assert!(same(Pressure::from_megapascals(s(v)).as_pascals(), v * 1_000_000.0));
        assert!(same(Pressure::from_bar(s(v)).as_pascals(), v * 100_000.0));
        assert!(same(Pressure::from_atmospheres(s(v)).as_pascals(), v * 101_325.0));
        assert!(same(Pressure::from_psi(s(v)).as_pascals(), v * 6894.757));
        assert!(same(Pressure::from_inches_hg(s(v)).as_pascals(), v * 3386.389));
        assert!(same(Pressure::from_mmhg(s(v)).as_pascals(), v * 133.322));
        let p = Pressure::from_pascals(s(v));
        assert!(same(p.as_kilopascals(), v / 1000.0));
        assert!(same(p.as_megapascals(), v / 1_000_000.0));
        assert!(same(p.as_bar(), v / 100_000.0));
        assert!(same(p.as_atmospheres(), v / 101_325.0));
        assert!(same(p.as_psi(), v / 6894.757));
        assert!(same(p.as_inches_hg(), v / 3386.389));
        assert!(same(p.as_mmhg(), v / 133.322));
    }
}

#[test]
fn mass_flow_rate_conversions_are_the_machine_s() {
    for v in values() {
        assert!(same(MassFlowRate::from_kg_per_s(s(v)).as_kg_per_s(), v));
        assert!(same(MassFlowRate::from_lb_per_s(s(v)).as_kg_per_s(), v * 0.453592));
        assert!(same(MassFlowRate::from_tonnes_per_s(s(v)).as_kg_per_s(), v * 1000.0));
        assert!(same(MassFlowRate::from_kg_per_min(s(v)).as_kg_per_s(), v / 60.0));
        let r = MassFlowRate::from_kg_per_s(s(v));
        assert!(same(r.as_lb_per_s(), v / 0.453592));
        assert!(same(r.as_tonnes_per_s(), v / 1000.0));
        assert!(same(r.as_kg_per_min(), v * 60.0));
    }
}

#[test]
fn specific_impulse_conversions_are_the_machine_s() {
    for v in values() {
        assert!(same(SpecificImpulse::from_seconds(s(v)).as_seconds(), v));
        assert!(same(SpecificImpulse::from_exhaust_velocity(s(v)).as_seconds(), v / 9.80665));
        let i = SpecificImpulse::from_seconds(s(v));
        assert!(same(i.as_exhaust_velocity(), v * 9.80665));
        assert!(same(i.as_exhaust_velocity_kmps(), v * 9.80665 / 1000.0));
    }
}

#[test]
fn angle_conversions_are_the_machine_s() {
    for v in values() {
        assert!(same(Angle::from_radians(s(v)).as_radians(), v));
        assert!(same(Angle::from_degrees(s(v)).as_radians(), v * PI / 180.0));
        assert!(same(Angle::from_arcminutes(s(v)).as_radians(), v * PI / (180.0 * 60.0)));
        assert!(same(Angle::from_arcseconds(s(v)).as_radians(), v * PI / (180.0 * 3600.0)));
        assert!(same(Angle::from_revolutions(s(v)).as_radians(), v * 2.0 * PI));
        let a = Angle::from_radians(s(v));
        assert!(same(a.as_degrees(), v * 180.0 / PI));
        assert!(same(a.as_arcminutes(), v * 180.0 * 60.0 / PI));
        assert!(same(a.as_arcseconds(), v * 180.0 * 3600.0 / PI));
        assert!(same(a.as_revolutions(), v / (2.0 * PI)));
    }
}

fn machine_normalize(radians: f64) -> f64 {
    let mut rad = radians % (2.0 * PI);
    if rad < 0.0 {
        rad += 2.0 * PI;
        // the sum is rounded and may reach the full turn, which is outside
        // the range: the angle is then a whole number of turns
        if !(rad < 2.0 * PI) {
            rad = 0.0;
        }
    }
    rad
}

fn machine_normalize_signed(radians: f64) -> f64 {
    let mut rad = radians % (2.0 * PI);
    if rad >= PI {
        rad -= 2.0 * PI;
    } else if rad < -PI {
        rad += 2.0 * PI;
    }
    rad
}

#[test]
fn normalization_is_the_formula_on_doubles() {
    let mut angles = values();
    for k in -8..=8 {
        let turn = k as f64 * PI / 2.0;
        angles.push(turn);
        angles.push(f64::from_bits(turn.to_bits().wrapping_add(1)));
        angles.push(f64::from_bits(turn.to_bits().wrapping_sub(1)));
    }
    for v in angles {
        let a = Angle::from_radians(s(v));
        assert!(same(a.normalize().as_radians(), machine_normalize(v)), "{v:e}");
        assert!(same(a.normalize_signed().as_radians(), machine_normalize_signed(v)), "{v:e}");
    }
}

#[test]
fn operators_are_the_machine_s() {
    let values = values();
    for (i, &a) in values.iter().enumerate() {
        let b = values[(i * 7 + 3) % values.len()];
        let (x, y) = (Length::from_meters(s(a)), Length::from_meters(s(b)));
        assert!(same((x + y).as_meters(), a + b));
        assert!(same((x - y).as_meters(), a - b));
        assert!(same((x * s(b)).as_meters(), a * b));
        assert!(same((x / s(b)).as_meters(), a / b));
        assert!(same(x / y, a / b));
        let x = Velocity::from_meters_per_second(s(a));
        let y = Velocity::from_meters_per_second(s(b));
        assert!(same((x + y).as_meters_per_second(), a + b));
        assert!(same((x - y).as_meters_per_second(), a - b));
        assert!(same((x * s(b)).as_meters_per_second(), a * b));
        assert!(same((x / s(b)).as_meters_per_second(), a / b));
        assert!(same(x / y, a / b));
        let (x, y) = (Mass::from_kilograms(s(a)), Mass::from_kilograms(s(b)));
        assert!(same((x + y).as_kilograms(), a + b));
        assert!(same((x - y).as_kilograms(), a - b));
        assert!(same((x * s(b)).as_kilograms(), a * b));
        assert!(same((x / s(b)).as_kilograms(), a / b));
        assert!(same(x / y, a / b));
        let (x, y) = (Force::from_newtons(s(a)), Force::from_newtons(s(b)));
        assert!(same((x + y).as_newtons(), a + b));
        assert!(same((x - y).as_newtons(), a - b));
        assert!(same((x * s(b)).as_newtons(), a * b));
        assert!(same((x / s(b)).as_newtons(), a / b));
        assert!(same(x / y, a / b));
        let (x, y) = (Pressure::from_pascals(s(a)), Pressure::from_pascals(s(b)));
        assert!(same((x + y).as_pascals(), a + b));
        assert!(same((x - y).as_pascals(), a - b));
        assert!(same((x * s(b)).as_pascals(), a * b));
        assert!(same((x / s(b)).as_pascals(), a / b));
        assert!(same(x / y, a / b));
        let (x, y) = (Angle::from_radians(s(a)), Angle::from_radians(s(b)));
        assert!(same((x + y).as_radians(), a + b));
        assert!(same((x - y).as_radians(), a - b));
        assert!(same((-x).as_radians(), -a));
        assert!(same((x * s(b)).as_radians(), a * b));
        assert!(same((x / s(b)).as_radians(), a / b));
        assert!(same(x / y, a / b));
        let (x, y) = (MassFlowRate::from_kg_per_s(s(a)), MassFlowRate::from_kg_per_s(s(b)));
        assert!(same((x + y).as_kg_per_s(), a + b));
        assert!(same((x - y).as_kg_per_s(), a - b));
        assert!(same((x * s(b)).as_kg_per_s(), a * b));
        assert!(same((x / s(b)).as_kg_per_s(), a / b));
        assert!(same(x / y, a / b));
        let (x, y) = (SpecificImpulse::from_seconds(s(a)), SpecificImpulse::from_seconds(s(b)));
        assert!(same((x + y).as_seconds(), a + b));
        assert!(same((x - y).as_seconds(), a - b));
        assert!(same((x * s(b)).as_seconds(), a * b));
        assert!(same((x / s(b)).as_seconds(), a / b));
        assert!(same(x / y, a / b));
    }
}

#[test]
fn rocket_formulas_are_the_machine_s() {
    let values = values();
    for (i, &thrust) in values.iter().enumerate() {
        let flow = values[(i * 5 + 1) % values.len()];
        let mass_flow = MassFlowRate::from_kg_per_s(s(flow));
        let isp = Force::from_newtons(s(thrust)).specific_impulse(mass_flow);
        assert!(same(isp.as_seconds(), thrust / (flow * 9.80665)));
        let log = values[(i * 11 + 2) % values.len()];
        let dv = SpecificImpulse::from_seconds(s(thrust)).delta_v(s(log));
        assert!(same(dv.as_meters_per_second(), thrust * 9.80665 * log));
    }
}
