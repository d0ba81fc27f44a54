//! The quantities at work: conversions, arithmetic and the rocket formulas,
//! held against the figures of the aerospace practice they come from and
//! against the machine's own arithmetic on doubles.

use aerospace_units::prelude::Angle;
use aerospace_units::prelude::Force;
use aerospace_units::prelude::Length;
use aerospace_units::prelude::Mass;
use aerospace_units::prelude::MassFlowRate;
use aerospace_units::prelude::Pressure;
use aerospace_units::prelude::Scalar;
use aerospace_units::prelude::SpecificImpulse;
use aerospace_units::prelude::Velocity;
use std::f64::consts::PI;

fn s(x: f64) -> Scalar {
    Scalar::from_bits(x.to_bits())
}

fn f(x: Scalar) -> f64 {
    f64::from_bits(x.to_bits())
}

#[test]
fn test_length_conversions() {
    let length = Length::from_meters(s(1000.0));
    assert!((f(length.as_feet()) - 3280.84).abs() < 0.01);
    assert!((f(length.as_kilometers()) - 1.0).abs() < 0.0001);
}

#[test]
fn test_velocity_conversions() {
    let velocity = Velocity::from_meters_per_second(s(340.29));
    assert!((f(velocity.as_knots()) - 661.47).abs() < 0.1);
    assert!((f(velocity.as_mach(s(340.29))) - 1.0).abs() < 0.0001);
}

#[test]
fn test_force_conversions() {
    let force = Force::from_newtons(s(1000.0));
    assert!((f(force.as_pounds_force()) - 224.809).abs() < 0.01);
    assert!((f(force.as_kilonewtons()) - 1.0).abs() < 0.0001);
}

#[test]
fn test_specific_impulse_calculation() {
    let thrust = Force::from_newtons(s(6_770_000.0));
    let mass_flow = MassFlowRate::from_kg_per_s(s(2578.0));
    let isp = thrust.specific_impulse(mass_flow);
    assert!((f(isp.as_seconds()) - 268.0).abs() < 5.0);
}

#[test]
fn angle_test_conversions() {
    let angle = Angle::from_degrees(s(180.0));
    assert!((f(angle.as_radians()) - PI).abs() < 0.0001);

    let right_angle = Angle::from_degrees(s(90.0));
    assert!((f(right_angle.as_radians()).sin() - 1.0).abs() < 0.0001);
    assert!(f(right_angle.as_radians()).cos().abs() < 0.0001);
}

#[test]
fn test_normalize() {
    let angle = Angle::from_degrees(s(450.0));
    let normalized = angle.normalize();
    assert!((f(normalized.as_degrees()) - 90.0).abs() < 0.0001);

    let negative = Angle::from_degrees(s(-90.0));
    let norm_neg = negative.normalize();
    assert!((f(norm_neg.as_degrees()) - 270.0).abs() < 0.0001);
}

#[test]
fn test_arcseconds() {
    let deg = Angle::from_degrees(s(1.0));
    assert!((f(deg.as_arcseconds()) - 3600.0).abs() < 0.0001);
}

#[test]
fn force_test_conversions() {
    let force = Force::from_pounds_force(s(1.0));
    assert!((f(force.as_newtons()) - 4.44822).abs() < 0.0001);

    let kn = Force::from_kilonewtons(s(1.0));
    assert!((f(kn.as_newtons()) - 1000.0).abs() < 0.0001);
}

#[test]
fn test_f1_engine() {
    let thrust = Force::from_meganewtons(s(6.77));
    assert!((f(thrust.as_pounds_force()) - 1_522_000.0).abs() < 1000.0);
}

#[test]
fn length_test_conversions() {
    let length = Length::from_feet(s(1.0));
    assert!((f(length.as_meters()) - 0.3048).abs() < 0.0001);

    let km = Length::from_kilometers(s(1.0));
    assert!((f(km.as_meters()) - 1000.0).abs() < 0.0001);

    let nm = Length::from_nautical_miles(s(1.0));
    assert!((f(nm.as_meters()) - 1852.0).abs() < 0.0001);
}

#[test]
fn test_arithmetic() {
    let a = Length::from_meters(s(100.0));
    let b = Length::from_meters(s(50.0));

    assert!(f((a + b).as_meters()) - 150.0 < 0.0001);
    assert!(f((a - b).as_meters()) - 50.0 < 0.0001);
    assert!(f((a * s(2.0)).as_meters()) - 200.0 < 0.0001);
    assert!(f((a / s(2.0)).as_meters()) - 50.0 < 0.0001);
}

#[test]
fn test_ratio() {
    let a = Length::from_meters(s(100.0));
    let b = Length::from_meters(s(50.0));
    let ratio: f64 = f(a / b);
    assert!((ratio - 2.0).abs() < 0.0001);
}

#[test]
fn mass_test_conversions() {
    let mass = Mass::from_pounds(s(1.0));
    assert!((f(mass.as_kilograms()) - 0.453592).abs() < 0.0001);

    let tonnes = Mass::from_tonnes(s(1.0));
    assert!((f(tonnes.as_kilograms()) - 1000.0).abs() < 0.0001);
}

#[test]
fn test_mass_ratio() {
    let initial = Mass::from_tonnes(s(2970.0));
    let final_mass = Mass::from_tonnes(s(130.0));
    let ratio: f64 = f(initial / final_mass);
    assert!((ratio - 22.85).abs() < 0.1);
}

#[test]
fn mass_flow_rate_test_conversions() {
    let mdot = MassFlowRate::from_lb_per_s(s(1.0));
    assert!((f(mdot.as_kg_per_s()) - 0.453592).abs() < 0.0001);
}

#[test]
fn test_f1_engine_mass_flow() {
    let mdot = MassFlowRate::from_kg_per_s(s(2578.0));
    assert!((f(mdot.as_lb_per_s()) - 5683.0).abs() < 10.0);
}

#[test]
fn pressure_test_conversions() {
    let p = Pressure::from_atmospheres(s(1.0));
    assert!((f(p.as_pascals()) - 101325.0).abs() < 0.1);
    assert!((f(p.as_bar()) - 1.01325).abs() < 0.0001);
    assert!((f(p.as_psi()) - 14.696).abs() < 0.01);
}

#[test]
fn test_sea_level() {
    let sea_level = Pressure::sea_level();
    assert!((f(sea_level.as_pascals()) - 101325.0).abs() < 0.1);
    assert!((f(sea_level.as_inches_hg()) - 29.92).abs() < 0.01);
}

#[test]
fn test_exhaust_velocity_conversion() {
    let isp = SpecificImpulse::from_seconds(s(300.0));
    assert!((f(isp.as_exhaust_velocity()) - 2942.0).abs() < 1.0);
}

#[test]
fn test_round_trip() {
    let ve = 3000.0;
    let isp = SpecificImpulse::from_exhaust_velocity(s(ve));
    assert!((f(isp.as_exhaust_velocity()) - ve).abs() < 0.01);
}

#[test]
fn test_typical_values() {
    let merlin = SpecificImpulse::from_seconds(s(311.0));
    assert!((f(merlin.as_exhaust_velocity_kmps()) - 3.05).abs() < 0.05);

    let rs25 = SpecificImpulse::from_seconds(s(452.0));
    assert!((f(rs25.as_exhaust_velocity_kmps()) - 4.43).abs() < 0.05);
}

#[test]
fn velocity_test_conversions() {
    let v = Velocity::from_knots(s(100.0));
    assert!((f(v.as_meters_per_second()) - 51.4444).abs() < 0.001);

    let v2 = Velocity::from_kilometers_per_hour(s(100.0));
    assert!((f(v2.as_meters_per_second()) - 27.778).abs() < 0.01);
}

#[test]
fn test_mach() {
    let speed_of_sound = 340.29;
    let v = Velocity::from_mach(s(2.0), s(speed_of_sound));
    assert!((f(v.as_meters_per_second()) - 680.58).abs() < 0.01);
    assert!((f(v.as_mach(s(speed_of_sound))) - 2.0).abs() < 0.0001);
}

#[test]
fn specific_impulse_of_the_f1_engine() {
    let mass_flow = MassFlowRate::from_kg_per_s(s(2578.0));
    let isp = Force::from_newtons(s(6_770_000.0)).specific_impulse(mass_flow);
    assert_eq!(f(isp.as_seconds()), 6_770_000.0 / (2578.0 * 9.80665));
    assert!((f(isp.as_seconds()) - 267.784).abs() < 0.001);
}

#[test]
fn specific_impulse_at_zero_mass_flow_is_infinite() {
    let isp = Force::from_newtons(s(1000.0)).specific_impulse(MassFlowRate::from_kg_per_s(s(0.0)));
    assert_eq!(f(isp.as_seconds()), f64::INFINITY);
    let none = Force::from_newtons(s(0.0)).specific_impulse(MassFlowRate::from_kg_per_s(s(0.0)));
    assert!(none.as_seconds().is_nan());
}

#[test]
fn exhaust_velocity_round_trip_at_three_hundred_seconds() {
    assert_eq!(f(SpecificImpulse::from_seconds(s(300.0)).as_exhaust_velocity()), 300.0 * 9.80665);
    let isp = SpecificImpulse::from_exhaust_velocity(s(2942.0));
    assert!((f(isp.as_seconds()) - 300.0).abs() < 0.1);
}

fn delta_v(isp: SpecificImpulse, wet: Mass, dry: Mass) -> Velocity {
    isp.delta_v(s(f(wet / dry).ln()))
}

#[test]
fn delta_v_of_the_saturn_v_first_stage() {
    let dv = delta_v(
        SpecificImpulse::from_seconds(s(263.0)),
        Mass::from_tonnes(s(2290.0)),
        Mass::from_tonnes(s(131.0)),
    );
    assert_eq!(f(dv.as_meters_per_second()), 263.0 * 9.80665 * (2_290_000.0f64 / 131_000.0).ln());
    assert!((f(dv.as_meters_per_second()) - 7379.23).abs() < 0.01);
}

#[test]
fn delta_v_is_not_special_cased() {
    let isp = SpecificImpulse::from_seconds(s(300.0));
    let some = Mass::from_kilograms(s(1000.0));
    let none = Mass::from_kilograms(s(0.0));
    let half = Mass::from_kilograms(s(500.0));
    assert_eq!(f(delta_v(isp, some, none).as_meters_per_second()), f64::INFINITY);
    assert_eq!(f(delta_v(isp, some, some).as_meters_per_second()), 0.0);
    assert!(f(delta_v(isp, half, some).as_meters_per_second()) < 0.0);
    assert!(!delta_v(isp, half, some).is_positive());
}

#[test]
fn mass_ratio_of_a_heavy_launcher() {
    let ratio = f(Mass::from_tonnes(s(2970.0)) / Mass::from_tonnes(s(130.0)));
    assert_eq!(ratio, 2_970_000.0 / 130_000.0);
    assert!((ratio - 22.846).abs() < 0.001);
}

#[test]
fn a_value_comes_back_from_every_unit() {
    let close = |a: Scalar, b: f64| (f(a) - b).abs() <= 1e-4 * b.abs();
    let values = [
        1.0, -1.0, 0.1, 2578.0, 6.77e6, 1e-9, -123456.789, 0.0, -0.0, 1e200, -1e-200, 1e300, -1e300,
        1e-300, -1e-300,
    ];
    for v in values {
        let x = s(v);
        assert!(close(Length::from_kilometers(x).as_kilometers(), v));
        assert!(close(Length::from_feet(x).as_feet(), v));
        assert!(close(Length::from_nautical_miles(x).as_nautical_miles(), v));
        assert!(close(Length::from_miles(x).as_miles(), v));
        assert!(close(Velocity::from_kilometers_per_second(x).as_kilometers_per_second(), v));
        assert!(close(Velocity::from_kilometers_per_hour(x).as_kilometers_per_hour(), v));
        assert!(close(Velocity::from_feet_per_second(x).as_feet_per_second(), v));
        assert!(close(Velocity::from_knots(x).as_knots(), v));
        assert!(close(Velocity::from_miles_per_hour(x).as_miles_per_hour(), v));
        assert!(close(Velocity::from_mach(x, s(340.29)).as_mach(s(340.29)), v));
        assert!(close(Mass::from_grams(x).as_grams(), v));
        assert!(close(Mass::from_tonnes(x).as_tonnes(), v));
        assert!(close(Mass::from_pounds(x).as_pounds(), v));
        assert!(close(Mass::from_slugs(x).as_slugs(), v));
        assert!(close(Force::from_kilonewtons(x).as_kilonewtons(), v));
        assert!(close(Force::from_meganewtons(x).as_meganewtons(), v));
        assert!(close(Force::from_pounds_force(x).as_pounds_force(), v));
        assert!(close(Force::from_kilopounds_force(x).as_kilopounds_force(), v));
        assert!(close(Pressure::from_kilopascals(x).as_kilopascals(), v));
        assert!(close(Pressure::from_megapascals(x).as_megapascals(), v));
        assert!(close(Pressure::from_bar(x).as_bar(), v));
        assert!(close(Pressure::from_atmospheres(x).as_atmospheres(), v));
        assert!(close(Pressure::from_psi(x).as_psi(), v));
        assert!(close(Pressure::from_inches_hg(x).as_inches_hg(), v));
        assert!(close(Pressure::from_mmhg(x).as_mmhg(), v));
        assert!(close(MassFlowRate::from_lb_per_s(x).as_lb_per_s(), v));
        assert!(close(MassFlowRate::from_tonnes_per_s(x).as_tonnes_per_s(), v));
        assert!(close(MassFlowRate::from_kg_per_min(x).as_kg_per_min(), v));
        assert!(close(SpecificImpulse::from_exhaust_velocity(x).as_exhaust_velocity(), v));
        assert!(close(Angle::from_degrees(x).as_degrees(), v));
        assert!(close(Angle::from_arcminutes(x).as_arcminutes(), v));
        assert!(close(Angle::from_arcseconds(x).as_arcseconds(), v));
        assert!(close(Angle::from_revolutions(x).as_revolutions(), v));
    }
}

#[test]
fn a_value_too_large_does_not_come_back() {
    // the product leaves the range of doubles, and stays out
    assert_eq!(f(Length::from_kilometers(s(1e306)).as_kilometers()), f64::INFINITY);
}

#[test]
fn sum_and_difference_undo_each_other() {
    for (a, b) in [(100.0, 50.0), (-3.5, 2.25), (1e6, 1e-3), (0.1, 0.2)] {
        let (x, y) = (Mass::from_kilograms(s(a)), Mass::from_kilograms(s(b)));
        assert!((f(((x + y) - y).as_kilograms()) - a).abs() <= 1e-4 * a.abs());
        assert_eq!(f((x - x).as_kilograms()).to_bits(), 0.0f64.to_bits());
        assert!(x - x == Mass::from_kilograms(s(0.0)));
    }
}

#[test]
fn sum_and_difference_come_back_within_a_part_of_the_larger() {
    let pairs = [
        (100.0, 50.0),
        (1.0, 1e20),
        (1e20, 1.0),
        (-1.0, 1e20),
        (1e-300, 1e300),
        (0.1, -0.1),
        (0.0, 5e-324),
        (5e-324, -1.0),
        (f64::MAX, -1.0),
        (f64::MAX / 4.0, f64::MAX / 2.0),
    ];
    for (a, b) in pairs {
        let (x, y) = (Length::from_meters(s(a)), Length::from_meters(s(b)));
        let back = f(((x + y) - y).as_meters());
        assert!(back.is_finite());
        let larger = a.abs().max(b.abs());
        assert!((back - a).abs() <= 2.0f64.powi(-51) * larger, "{a:e} {b:e}: {back:e}");
        assert!((back - a).abs() <= 1e-4 * larger);
    }
}

#[test]
fn a_difference_can_overflow_where_the_sum_did_not() {
    let a = Length::from_meters(s(f64::MAX));
    let b = Length::from_meters(s(-3.0 * 2.0f64.powi(970)));
    assert_eq!(f((a + b).as_meters()), f64::MAX - 2.0f64.powi(971));
    assert_eq!(f(((a + b) - b).as_meters()), f64::INFINITY);
}

#[test]
fn a_small_term_is_lost_in_a_large_sum() {
    let (small, large) = (Mass::from_kilograms(s(1.0)), Mass::from_kilograms(s(1e20)));
    assert_eq!(f(((small + large) - large).as_kilograms()), 0.0);
}

#[test]
fn ratio_and_scale_undo_each_other() {
    for (a, b) in [(100.0, 50.0), (2970.0, 130.0), (-7.0, 3.0), (1e-3, 1e3)] {
        let (x, y) = (Mass::from_kilograms(s(a)), Mass::from_kilograms(s(b)));
        assert!((f((y * (x / y)).as_kilograms()) - a).abs() <= 1e-4 * a.abs());
        assert_eq!(f(x / x), 1.0);
        assert!((f(((x * s(b)) / s(b)).as_kilograms()) - a).abs() <= 1e-4 * a.abs());
    }
    let (one, none) = (Mass::from_kilograms(s(1.0)), Mass::from_kilograms(s(0.0)));
    assert_eq!(f(one / none), f64::INFINITY);
    assert!((none / none).is_nan());
}
