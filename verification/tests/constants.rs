use aerospace_units::units::angle;
use aerospace_units::units::force;
use aerospace_units::units::length;
use aerospace_units::units::mass;
use aerospace_units::units::mass_flow_rate;
use aerospace_units::units::pressure;
use aerospace_units::units::specific_impulse;
use aerospace_units::units::velocity;

fn f(bits: u64) -> f64 {
    f64::from_bits(bits)
}

#[test]
fn length_constants() {
    assert_eq!(f(length::METERS_PER_KILOMETER), 1000.0);
    assert_eq!(f(length::METERS_PER_FOOT), 0.3048);
    assert_eq!(f(length::METERS_PER_NAUTICAL_MILE), 1852.0);
    assert_eq!(f(length::METERS_PER_MILE), 1609.344);
}

#[test]
fn velocity_constants() {
    assert_eq!(f(velocity::MPS_PER_KMPS), 1000.0);
    assert_eq!(f(velocity::KMPH_PER_MPS), 3.6);
    assert_eq!(f(velocity::MPS_PER_FPS), 0.3048);
    assert_eq!(f(velocity::MPS_PER_KNOT), 0.514444);
    assert_eq!(f(velocity::MPS_PER_MPH), 0.44704);
}

#[test]
fn mass_constants() {
    assert_eq!(f(mass::GRAMS_PER_KILOGRAM), 1000.0);
    assert_eq!(f(mass::KILOGRAMS_PER_TONNE), 1000.0);
    assert_eq!(f(mass::KILOGRAMS_PER_POUND), 0.453592);
    assert_eq!(f(mass::KILOGRAMS_PER_SLUG), 14.5939);
}

#[test]
fn force_constants() {
    assert_eq!(f(force::NEWTONS_PER_KILONEWTON), 1000.0);
    assert_eq!(f(force::NEWTONS_PER_MEGANEWTON), 1_000_000.0);
    assert_eq!(f(force::NEWTONS_PER_POUND_FORCE), 4.44822);
    assert_eq!(f(force::NEWTONS_PER_KILOPOUND_FORCE), 4448.22);
}

#[test]
fn pressure_constants() {
    assert_eq!(f(pressure::PASCALS_PER_KILOPASCAL), 1000.0);
    assert_eq!(f(pressure::PASCALS_PER_MEGAPASCAL), 1_000_000.0);
    assert_eq!(f(pressure::PASCALS_PER_BAR), 100_000.0);
    assert_eq!(f(pressure::PASCALS_PER_ATMOSPHERE), 101_325.0);
    assert_eq!(f(pressure::PASCALS_PER_PSI), 6894.757);
    assert_eq!(f(pressure::PASCALS_PER_INCH_HG), 3386.389);
    assert_eq!(f(pressure::PASCALS_PER_MMHG), 133.322);
}

#[test]
fn mass_flow_rate_constants() {
    assert_eq!(f(mass_flow_rate::KILOGRAMS_PER_POUND), 0.453592);
    assert_eq!(f(mass_flow_rate::KILOGRAMS_PER_TONNE), 1000.0);
    assert_eq!(f(mass_flow_rate::SECONDS_PER_MINUTE), 60.0);
}

#[test]
fn specific_impulse_constants() {
    assert_eq!(f(specific_impulse::STANDARD_GRAVITY), 9.80665);
    assert_eq!(f(specific_impulse::MPS_PER_KMPS), 1000.0);
}

#[test]
fn angle_constants() {
    assert_eq!(f(angle::HALF_TURN), std::f64::consts::PI);
    assert_eq!(f(angle::FULL_TURN), 2.0 * std::f64::consts::PI);
    assert_eq!(f(angle::DEGREES_PER_HALF_TURN), 180.0);
    assert_eq!(f(angle::ARCMINUTES_PER_DEGREE), 60.0);
    assert_eq!(f(angle::ARCSECONDS_PER_DEGREE), 3600.0);
    assert_eq!(f(angle::HALF_TURNS_PER_REVOLUTION), 2.0);
}
