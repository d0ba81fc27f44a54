//! Velocities, held in meters per second.

use crate::laws::in_range;
use crate::laws::lemma_moderate;
use crate::laws::lemma_round_trip;
use crate::laws::lemma_times_over;
use crate::rounding::lemma_ratio;
use crate::scalar::lemma_whole;
use crate::scalar::quanta_per_unit;
use crate::scalar::scalar;
use crate::scalar::Scalar;
use crate::text::rendered;
use core::cmp::Ordering;
use core::ops::Add;
use core::ops::Div;
use core::ops::Mul;
use core::ops::Sub;
use vstd::arithmetic::power2::lemma2_to64_rest;
use vstd::prelude::*;
use vstd::std_specs::cmp::PartialEqSpecImpl;
use vstd::std_specs::cmp::PartialOrdSpecImpl;
use vstd::std_specs::ops::AddSpecImpl;
use vstd::std_specs::ops::DivSpecImpl;
use vstd::std_specs::ops::MulSpecImpl;
use vstd::std_specs::ops::SubSpecImpl;
use vstd::string::StringExecFns;

verus! {

/// Meters per second in a kilometer per second: 1000.
pub const MPS_PER_KMPS: u64 = 0x408F_4000_0000_0000;

/// Kilometers per hour in a meter per second: 3.6.
pub const KMPH_PER_MPS: u64 = 0x400C_CCCC_CCCC_CCCD;

/// Meters per second in a foot per second: 0.3048.
pub const MPS_PER_FPS: u64 = 0x3FD3_81D7_DBF4_87FD;

/// Meters per second in a knot: 0.514444.
pub const MPS_PER_KNOT: u64 = 0x3FE0_7653_4373_F317;

/// Meters per second in a mile per hour: 0.44704.
pub const MPS_PER_MPH: u64 = 0x3FDC_9C4D_A900_3EEA;

/// The constants of this kind are the scalars that their decimal values
/// round to.
pub proof fn lemma_velocity_constants()
    ensures
        scalar(MPS_PER_KMPS).is_integer(1000),
        scalar(KMPH_PER_MPS).is_ratio(36, 10),
        scalar(MPS_PER_FPS).is_ratio(3048, 10000),
        scalar(MPS_PER_KNOT).is_ratio(514444, 1000000),
        scalar(MPS_PER_MPH).is_ratio(44704, 100000),
{
    lemma2_to64_rest();
    lemma_whole(scalar(MPS_PER_KMPS), 1000, 43);
    lemma_ratio(scalar(KMPH_PER_MPS), 36, 10, 51);
    lemma_ratio(scalar(MPS_PER_FPS), 3048, 10000, 54);
    lemma_ratio(scalar(MPS_PER_KNOT), 514444, 1000000, 53);
    lemma_ratio(scalar(MPS_PER_MPH), 44704, 100000, 54);
}

/// A value made into a velocity from any unit and read back in that unit
/// comes back within one part in 2^51, far inside one part in ten
/// thousand: where it is zero, where it is of ordinary size, and further
/// out as long as it and what it is made into are in range. (What is given
/// in the unit that is held comes back as it is.)
pub proof fn lemma_velocity_round_trip(v: Scalar)
    requires
        v.is_finite(),
    ensures
        v.is_zero() || v.is_ordinary() || (v.is_in_range() && in_range(
            v.magnitude() * scalar(MPS_PER_KMPS).magnitude(),
            quanta_per_unit(),
        )) ==> v.times(scalar(MPS_PER_KMPS)).over(scalar(MPS_PER_KMPS)).is_near(v, 51),
        v.is_zero() || v.is_ordinary() || (v.is_in_range() && in_range(
            v.magnitude() * quanta_per_unit(),
            scalar(KMPH_PER_MPS).magnitude(),
        )) ==> v.over(scalar(KMPH_PER_MPS)).times(scalar(KMPH_PER_MPS)).is_near(v, 51),
        v.is_zero() || v.is_ordinary() || (v.is_in_range() && in_range(
            v.magnitude() * scalar(MPS_PER_FPS).magnitude(),
            quanta_per_unit(),
        )) ==> v.times(scalar(MPS_PER_FPS)).over(scalar(MPS_PER_FPS)).is_near(v, 51),
        v.is_zero() || v.is_ordinary() || (v.is_in_range() && in_range(
            v.magnitude() * scalar(MPS_PER_KNOT).magnitude(),
            quanta_per_unit(),
        )) ==> v.times(scalar(MPS_PER_KNOT)).over(scalar(MPS_PER_KNOT)).is_near(v, 51),
        v.is_zero() || v.is_ordinary() || (v.is_in_range() && in_range(
            v.magnitude() * scalar(MPS_PER_MPH).magnitude(),
            quanta_per_unit(),
        )) ==> v.times(scalar(MPS_PER_MPH)).over(scalar(MPS_PER_MPH)).is_near(v, 51),
{
    lemma_moderate(scalar(MPS_PER_KMPS), 43);
    lemma_round_trip(v, scalar(MPS_PER_KMPS));
    lemma_moderate(scalar(KMPH_PER_MPS), 51);
    lemma_round_trip(v, scalar(KMPH_PER_MPS));
    lemma_moderate(scalar(MPS_PER_FPS), 54);
    lemma_round_trip(v, scalar(MPS_PER_FPS));
    lemma_moderate(scalar(MPS_PER_KNOT), 53);
    lemma_round_trip(v, scalar(MPS_PER_KNOT));
    lemma_moderate(scalar(MPS_PER_MPH), 54);
    lemma_round_trip(v, scalar(MPS_PER_MPH));
}

/// A Mach number made into a velocity and read back for the same speed of
/// sound comes back within one part in 2^51: where it is zero, and where
/// it and the velocity it is made into are in range, as they are where the
/// Mach number is of ordinary size and the speed of sound of moderate size.
pub proof fn lemma_mach_round_trip(mach: Scalar, speed_of_sound_mps: Scalar)
    requires
        mach.is_finite(),
        speed_of_sound_mps.is_finite(),
        !speed_of_sound_mps.is_zero(),
    ensures
        mach.is_zero() || (mach.is_ordinary() && speed_of_sound_mps.is_moderate()) || (
        mach.is_in_range() && in_range(
            mach.magnitude() * speed_of_sound_mps.magnitude(),
            quanta_per_unit(),
        )) ==> mach.times(speed_of_sound_mps).over(speed_of_sound_mps).is_near(mach, 51),
{
    if speed_of_sound_mps.is_moderate() {
        lemma_round_trip(mach, speed_of_sound_mps);
    }
    if mach.is_zero() || (mach.is_in_range() && in_range(
        mach.magnitude() * speed_of_sound_mps.magnitude(),
        quanta_per_unit(),
    )) {
        lemma_times_over(mach, speed_of_sound_mps);
    }
}

/// A velocity. Its view is the number of meters per second.
#[derive(Clone, Copy, Debug)]
pub struct Velocity {
    meters_per_second: Scalar,
}

impl View for Velocity {
    type V = Scalar;

    closed spec fn view(&self) -> Scalar {
        self.meters_per_second
    }
}

impl Velocity {
    /// A velocity given in meters per second, the unit it is held in.
    pub fn from_meters_per_second(mps: Scalar) -> (r: Velocity)
        ensures
            r@ == mps,
    {
        Velocity { meters_per_second: mps }
    }

    /// A velocity given in kilometers per second.
    pub fn from_kilometers_per_second(kmps: Scalar) -> (r: Velocity)
        ensures
            r@ == kmps.times(scalar(MPS_PER_KMPS)),
    {
        Velocity { meters_per_second: kmps.mul(Scalar::from_bits(MPS_PER_KMPS)) }
    }

    /// A velocity given in kilometers per hour.
    pub fn from_kilometers_per_hour(kmph: Scalar) -> (r: Velocity)
        ensures
            r@ == kmph.over(scalar(KMPH_PER_MPS)),
    {
        Velocity { meters_per_second: kmph.div(Scalar::from_bits(KMPH_PER_MPS)) }
    }

    /// A velocity given in feet per second.
    pub fn from_feet_per_second(fps: Scalar) -> (r: Velocity)
        ensures
            r@ == fps.times(scalar(MPS_PER_FPS)),
    {
        Velocity { meters_per_second: fps.mul(Scalar::from_bits(MPS_PER_FPS)) }
    }

    /// A velocity given in knots.
    pub fn from_knots(kts: Scalar) -> (r: Velocity)
        ensures
            r@ == kts.times(scalar(MPS_PER_KNOT)),
    {
        Velocity { meters_per_second: kts.mul(Scalar::from_bits(MPS_PER_KNOT)) }
    }

    /// A velocity given in miles per hour.
    pub fn from_miles_per_hour(mph: Scalar) -> (r: Velocity)
        ensures
            r@ == mph.times(scalar(MPS_PER_MPH)),
    {
        Velocity { meters_per_second: mph.mul(Scalar::from_bits(MPS_PER_MPH)) }
    }

    /// A velocity given as a Mach number, for the local speed of sound in
    /// meters per second.
    pub fn from_mach(mach: Scalar, speed_of_sound_mps: Scalar) -> (r: Velocity)
        ensures
            r@ == mach.times(speed_of_sound_mps),
    {
        Velocity { meters_per_second: mach.mul(speed_of_sound_mps) }
    }

    /// The velocity in meters per second.
    pub fn as_meters_per_second(&self) -> (mps: Scalar)
        ensures
            mps == self@,
    {
        self.meters_per_second
    }

    /// The velocity in kilometers per second.
    pub fn as_kilometers_per_second(&self) -> (kmps: Scalar)
        ensures
            kmps == self@.over(scalar(MPS_PER_KMPS)),
    {
        self.meters_per_second.div(Scalar::from_bits(MPS_PER_KMPS))
    }

    /// The velocity in kilometers per hour.
    pub fn as_kilometers_per_hour(&self) -> (kmph: Scalar)
        ensures
            kmph == self@.times(scalar(KMPH_PER_MPS)),
    {
        self.meters_per_second.mul(Scalar::from_bits(KMPH_PER_MPS))
    }

    /// The velocity in feet per second.
    pub fn as_feet_per_second(&self) -> (fps: Scalar)
        ensures
            fps == self@.over(scalar(MPS_PER_FPS)),
    {
        self.meters_per_second.div(Scalar::from_bits(MPS_PER_FPS))
    }

    /// The velocity in knots.
    pub fn as_knots(&self) -> (kts: Scalar)
        ensures
            kts == self@.over(scalar(MPS_PER_KNOT)),
    {
        self.meters_per_second.div(Scalar::from_bits(MPS_PER_KNOT))
    }

    /// The velocity in miles per hour.
    pub fn as_miles_per_hour(&self) -> (mph: Scalar)
        ensures
            mph == self@.over(scalar(MPS_PER_MPH)),
    {
        self.meters_per_second.div(Scalar::from_bits(MPS_PER_MPH))
    }

    /// The velocity as a Mach number, for the local speed of sound in meters
    /// per second.
    pub fn as_mach(&self, speed_of_sound_mps: Scalar) -> (mach: Scalar)
        ensures
            mach == self@.over(speed_of_sound_mps),
    {
        self.meters_per_second.div(speed_of_sound_mps)
    }

    /// Whether the velocity is greater than zero: false of zero and of a NaN.
    pub fn is_positive(&self) -> (b: bool)
        ensures
            b == self@.is_positive(),
    {
        self.meters_per_second.is_positive()
    }

    /// The velocity without its sign.
    pub fn abs(&self) -> (r: Velocity)
        ensures
            r@ == self@.abs(),
    {
        Velocity { meters_per_second: self.meters_per_second.abs() }
    }

    /// The velocity as text: the number of meters per second with two
    /// decimals, and the unit.
    pub fn to_string(&self) -> (text: String)
        ensures
            text@ == rendered(self@, 2) + " m/s"@,
    {
        let mut text = self.meters_per_second.to_hundredths();
        text.append(" m/s");
        text
    }
}

/// Velocity + Velocity = Velocity.
impl Add for Velocity {
    type Output = Velocity;

    fn add(self, other: Velocity) -> (r: Velocity)
        ensures
            r@ == self@.plus(other@),
    {
        Velocity { meters_per_second: self.meters_per_second.add(other.meters_per_second) }
    }
}

impl AddSpecImpl for Velocity {
    open spec fn obeys_add_spec() -> bool {
        true
    }

    open spec fn add_req(self, other: Velocity) -> bool {
        true
    }

    closed spec fn add_spec(self, other: Velocity) -> Velocity {
        Velocity { meters_per_second: self.meters_per_second.plus(other.meters_per_second) }
    }
}

/// Velocity - Velocity = Velocity: nothing is clamped, the difference may be
/// negative.
impl Sub for Velocity {
    type Output = Velocity;

    fn sub(self, other: Velocity) -> (r: Velocity)
        ensures
            r@ == self@.minus(other@),
    {
        Velocity { meters_per_second: self.meters_per_second.sub(other.meters_per_second) }
    }
}

impl SubSpecImpl for Velocity {
    open spec fn obeys_sub_spec() -> bool {
        true
    }

    open spec fn sub_req(self, other: Velocity) -> bool {
        true
    }

    closed spec fn sub_spec(self, other: Velocity) -> Velocity {
        Velocity { meters_per_second: self.meters_per_second.minus(other.meters_per_second) }
    }
}

/// Velocity * scalar = Velocity.
impl Mul<Scalar> for Velocity {
    type Output = Velocity;

    fn mul(self, factor: Scalar) -> (r: Velocity)
        ensures
            r@ == self@.times(factor),
    {
        Velocity { meters_per_second: self.meters_per_second.mul(factor) }
    }
}

impl MulSpecImpl<Scalar> for Velocity {
    open spec fn obeys_mul_spec() -> bool {
        true
    }

    open spec fn mul_req(self, factor: Scalar) -> bool {
        true
    }

    closed spec fn mul_spec(self, factor: Scalar) -> Velocity {
        Velocity { meters_per_second: self.meters_per_second.times(factor) }
    }
}

/// Velocity / scalar = Velocity: a divisor of zero gives an infinity or a NaN.
impl Div<Scalar> for Velocity {
    type Output = Velocity;

    fn div(self, divisor: Scalar) -> (r: Velocity)
        ensures
            r@ == self@.over(divisor),
    {
        Velocity { meters_per_second: self.meters_per_second.div(divisor) }
    }
}

impl DivSpecImpl<Scalar> for Velocity {
    open spec fn obeys_div_spec() -> bool {
        true
    }

    open spec fn div_req(self, divisor: Scalar) -> bool {
        true
    }

    closed spec fn div_spec(self, divisor: Scalar) -> Velocity {
        Velocity { meters_per_second: self.meters_per_second.over(divisor) }
    }
}

/// Velocity / Velocity = a plain number, the ratio of the two: a divisor of
/// zero gives an infinity or a NaN.
impl Div<Velocity> for Velocity {
    type Output = Scalar;

    fn div(self, other: Velocity) -> (r: Scalar)
        ensures
            r == self@.over(other@),
    {
        self.meters_per_second.div(other.meters_per_second)
    }
}

impl DivSpecImpl<Velocity> for Velocity {
    open spec fn obeys_div_spec() -> bool {
        true
    }

    open spec fn div_req(self, other: Velocity) -> bool {
        true
    }

    open spec fn div_spec(self, other: Velocity) -> Scalar {
        self@.over(other@)
    }
}

/// Two velocities are equal where their scalars are: never where one is a NaN.
impl PartialEq for Velocity {
    fn eq(&self, other: &Velocity) -> (r: bool) {
        self.meters_per_second == other.meters_per_second
    }
}

impl PartialEqSpecImpl for Velocity {
    open spec fn obeys_eq_spec() -> bool {
        true
    }

    open spec fn eq_spec(&self, other: &Velocity) -> bool {
        self@.equals(other@)
    }
}

/// Velocities are ordered as their scalars are: not at all where one is a
/// NaN.
impl PartialOrd for Velocity {
    fn partial_cmp(&self, other: &Velocity) -> (r: Option<Ordering>) {
        self.meters_per_second.partial_cmp(&other.meters_per_second)
    }
}

impl PartialOrdSpecImpl for Velocity {
    open spec fn obeys_partial_cmp_spec() -> bool {
        true
    }

    open spec fn partial_cmp_spec(&self, other: &Velocity) -> Option<Ordering> {
        self@.compared_to(other@)
    }
}

} // verus!
