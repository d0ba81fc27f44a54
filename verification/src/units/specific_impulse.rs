//! Specific impulses, held in seconds.

use crate::laws::in_range;
use crate::laws::lemma_moderate;
use crate::laws::lemma_round_trip;
use crate::rounding::lemma_ratio;
use crate::scalar::lemma_whole;
use crate::scalar::quanta_per_unit;
use crate::scalar::scalar;
use crate::scalar::Scalar;
use crate::text::rendered;
use crate::units::velocity::Velocity;
use core::cmp::Ordering;
use core::ops::Add;
use core::ops::Div;
use core::ops::Mul;
use core::ops::Sub;
use vstd::arithmetic::power2::lemma2_to64_rest;
use vstd::prelude::*;
use vstd::std_specs::cmp::PartialEqSpecImpl;
use vstd::std_specs::cmp::PartialOrdSpecImpl;
use vstd::std_specs::ops::AddSpecImpl;
use vstd::std_specs::ops::DivSpecImpl;
use vstd::std_specs::ops::MulSpecImpl;
use vstd::std_specs::ops::SubSpecImpl;
use vstd::string::StringExecFns;

verus! {

/// Standard gravity in meters per second squared: 9.80665.
pub const STANDARD_GRAVITY: u64 = 0x4023_9D01_3A92_A305;

/// Meters per second in a kilometer per second: 1000.
pub const MPS_PER_KMPS: u64 = 0x408F_4000_0000_0000;

/// The constants of this kind are the scalars that their decimal values
/// round to.
pub proof fn lemma_specific_impulse_constants()
    ensures
        scalar(STANDARD_GRAVITY).is_ratio(980665, 100000),
        scalar(MPS_PER_KMPS).is_integer(1000),
{
    lemma2_to64_rest();
    lemma_ratio(scalar(STANDARD_GRAVITY), 980665, 100000, 49);
    lemma_whole(scalar(MPS_PER_KMPS), 1000, 43);
}

/// A value made into a specific impulse from any unit and read back in that unit
/// comes back within one part in 2^51, far inside one part in ten
/// thousand: where it is zero, where it is of ordinary size, and further
/// out as long as it and what it is made into are in range. (What is given
/// in the unit that is held comes back as it is.)
pub proof fn lemma_specific_impulse_round_trip(v: Scalar)
    requires
        v.is_finite(),
    ensures
        v.is_zero() || v.is_ordinary() || (v.is_in_range() && in_range(
            v.magnitude() * quanta_per_unit(),
            scalar(STANDARD_GRAVITY).magnitude(),
        )) ==> v.over(scalar(STANDARD_GRAVITY)).times(scalar(STANDARD_GRAVITY)).is_near(v, 51),
{
    lemma_moderate(scalar(STANDARD_GRAVITY), 49);
    lemma_round_trip(v, scalar(STANDARD_GRAVITY));
}

/// A specific impulse. Its view is the number of seconds.
#[derive(Clone, Copy, Debug)]
pub struct SpecificImpulse {
    seconds: Scalar,
}

impl View for SpecificImpulse {
    type V = Scalar;

    closed spec fn view(&self) -> Scalar {
        self.seconds
    }
}

impl SpecificImpulse {
    /// A specific impulse given in seconds, the unit it is held in.
    pub fn from_seconds(s: Scalar) -> (r: SpecificImpulse)
        ensures
            r@ == s,
    {
        SpecificImpulse { seconds: s }
    }

    /// A specific impulse given as an exhaust velocity in meters per
    /// second: the velocity over standard gravity.
    pub fn from_exhaust_velocity(ve_mps: Scalar) -> (r: SpecificImpulse)
        ensures
            r@ == ve_mps.over(scalar(STANDARD_GRAVITY)),
    {
        SpecificImpulse { seconds: ve_mps.div(Scalar::from_bits(STANDARD_GRAVITY)) }
    }

    /// The specific impulse in seconds.
    pub fn as_seconds(&self) -> (s: Scalar)
        ensures
            s == self@,
    {
        self.seconds
    }

    /// The exhaust velocity in meters per second: the specific impulse
    /// times standard gravity.
    pub fn as_exhaust_velocity(&self) -> (ve_mps: Scalar)
        ensures
            ve_mps == self@.times(scalar(STANDARD_GRAVITY)),
    {
        self.seconds.mul(Scalar::from_bits(STANDARD_GRAVITY))
    }

    /// The exhaust velocity in kilometers per second.
    pub fn as_exhaust_velocity_kmps(&self) -> (ve_kmps: Scalar)
        ensures
            ve_kmps == self@.times(scalar(STANDARD_GRAVITY)).over(scalar(MPS_PER_KMPS)),
    {
        self.as_exhaust_velocity().div(Scalar::from_bits(MPS_PER_KMPS))
    }

    /// The velocity change of a stage with this specific impulse, from
    /// the natural logarithm of the ratio of its wet mass to its dry mass
    /// (Tsiolkovsky): the exhaust velocity times the logarithm. Nothing is
    /// rejected: a logarithm of zero or below gives a change of zero or
    /// below, an infinite one an infinite change.
    pub fn delta_v(&self, log_mass_ratio: Scalar) -> (dv: Velocity)
        ensures
            dv@ == self@.times(scalar(STANDARD_GRAVITY)).times(log_mass_ratio),
    {
        Velocity::from_meters_per_second(self.as_exhaust_velocity().mul(log_mass_ratio))
    }

    /// Whether the specific impulse is greater than zero: false of zero and of
    /// a NaN.
    pub fn is_positive(&self) -> (b: bool)
        ensures
            b == self@.is_positive(),
    {
        self.seconds.is_positive()
    }

    /// The specific impulse as text: the number of seconds with one decimal,
    /// and the unit.
    pub fn to_string(&self) -> (text: String)
        ensures
            text@ == rendered(self@, 1) + " s"@,
    {
        let mut text = self.seconds.to_tenths();
        text.append(" s");
        text
    }
}

/// SpecificImpulse + SpecificImpulse = SpecificImpulse.
impl Add for SpecificImpulse {
    type Output = SpecificImpulse;

    fn add(self, other: SpecificImpulse) -> (r: SpecificImpulse)
        ensures
            r@ == self@.plus(other@),
    {
        SpecificImpulse { seconds: self.seconds.add(other.seconds) }
    }
}

impl AddSpecImpl for SpecificImpulse {
    open spec fn obeys_add_spec() -> bool {
        true
    }

    open spec fn add_req(self, other: SpecificImpulse) -> bool {
        true
    }

    closed spec fn add_spec(self, other: SpecificImpulse) -> SpecificImpulse {
        SpecificImpulse { seconds: self.seconds.plus(other.seconds) }
    }
}

/// SpecificImpulse - SpecificImpulse = SpecificImpulse: nothing is clamped,
/// the difference may be negative.
impl Sub for SpecificImpulse {
    type Output = SpecificImpulse;

    fn sub(self, other: SpecificImpulse) -> (r: SpecificImpulse)
        ensures
            r@ == self@.minus(other@),
    {
        SpecificImpulse { seconds: self.seconds.sub(other.seconds) }
    }
}

impl SubSpecImpl for SpecificImpulse {
    open spec fn obeys_sub_spec() -> bool {
        true
    }

    open spec fn sub_req(self, other: SpecificImpulse) -> bool {
        true
    }

    closed spec fn sub_spec(self, other: SpecificImpulse) -> SpecificImpulse {
        SpecificImpulse { seconds: self.seconds.minus(other.seconds) }
    }
}

/// SpecificImpulse * scalar = SpecificImpulse.
impl Mul<Scalar> for SpecificImpulse {
    type Output = SpecificImpulse;

    fn mul(self, factor: Scalar) -> (r: SpecificImpulse)
        ensures
            r@ == self@.times(factor),
    {
        SpecificImpulse { seconds: self.seconds.mul(factor) }
    }
}

impl MulSpecImpl<Scalar> for SpecificImpulse {
    open spec fn obeys_mul_spec() -> bool {
        true
    }

    open spec fn mul_req(self, factor: Scalar) -> bool {
        true
    }

    closed spec fn mul_spec(self, factor: Scalar) -> SpecificImpulse {
        SpecificImpulse { seconds: self.seconds.times(factor) }
    }
}

/// SpecificImpulse / scalar = SpecificImpulse: a divisor of zero gives an
/// infinity or a NaN.
impl Div<Scalar> for SpecificImpulse {
    type Output = SpecificImpulse;

    fn div(self, divisor: Scalar) -> (r: SpecificImpulse)
        ensures
            r@ == self@.over(divisor),
    {
        SpecificImpulse { seconds: self.seconds.div(divisor) }
    }
}

impl DivSpecImpl<Scalar> for SpecificImpulse {
    open spec fn obeys_div_spec() -> bool {
        true
    }

    open spec fn div_req(self, divisor: Scalar) -> bool {
        true
    }

    closed spec fn div_spec(self, divisor: Scalar) -> SpecificImpulse {
        SpecificImpulse { seconds: self.seconds.over(divisor) }
    }
}

/// SpecificImpulse / SpecificImpulse = a plain number, the ratio of the two: a
/// divisor of zero gives an infinity or a NaN.
impl Div<SpecificImpulse> for SpecificImpulse {
    type Output = Scalar;

    fn div(self, other: SpecificImpulse) -> (r: Scalar)
        ensures
            r == self@.over(other@),
    {
        self.seconds.div(other.seconds)
    }
}

impl DivSpecImpl<SpecificImpulse> for SpecificImpulse {
    open spec fn obeys_div_spec() -> bool {
        true
    }

    open spec fn div_req(self, other: SpecificImpulse) -> bool {
        true
    }

    open spec fn div_spec(self, other: SpecificImpulse) -> Scalar {
        self@.over(other@)
    }
}

/// Two specific impulses are equal where their scalars are: never where one is
/// a NaN.
impl PartialEq for SpecificImpulse {
    fn eq(&self, other: &SpecificImpulse) -> (r: bool) {
        self.seconds == other.seconds
    }
}

impl PartialEqSpecImpl for SpecificImpulse {
    open spec fn obeys_eq_spec() -> bool {
        true
    }

    open spec fn eq_spec(&self, other: &SpecificImpulse) -> bool {
        self@.equals(other@)
    }
}

/// Specific impulses are ordered as their scalars are: not at all where one is
/// a NaN.
impl PartialOrd for SpecificImpulse {
    fn partial_cmp(&self, other: &SpecificImpulse) -> (r: Option<Ordering>) {
        self.seconds.partial_cmp(&other.seconds)
    }
}

impl PartialOrdSpecImpl for SpecificImpulse {
    open spec fn obeys_partial_cmp_spec() -> bool {
        true
    }

    open spec fn partial_cmp_spec(&self, other: &SpecificImpulse) -> Option<Ordering> {
        self@.compared_to(other@)
    }
}

} // verus!
