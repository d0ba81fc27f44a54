//! Mass flow rates, held in kilograms per second.

use crate::laws::in_range;
use crate::laws::lemma_moderate;
use crate::laws::lemma_round_trip;
use crate::rounding::lemma_ratio;
use crate::scalar::lemma_whole;
use crate::scalar::quanta_per_unit;
use crate::scalar::scalar;
use crate::scalar::Scalar;
use crate::text::rendered;
use core::cmp::Ordering;
use core::ops::Add;
use core::ops::Div;
use core::ops::Mul;
use core::ops::Sub;
use vstd::arithmetic::power2::lemma2_to64_rest;
use vstd::prelude::*;
use vstd::std_specs::cmp::PartialEqSpecImpl;
use vstd::std_specs::cmp::PartialOrdSpecImpl;
use vstd::std_specs::ops::AddSpecImpl;
use vstd::std_specs::ops::DivSpecImpl;
use vstd::std_specs::ops::MulSpecImpl;
use vstd::std_specs::ops::SubSpecImpl;
use vstd::string::StringExecFns;

verus! {

/// Kilograms in a pound: 0.453592.
pub const KILOGRAMS_PER_POUND: u64 = 0x3FDD_07A6_BD6E_8AF8;

/// Kilograms in a tonne: 1000.
pub const KILOGRAMS_PER_TONNE: u64 = 0x408F_4000_0000_0000;

/// Seconds in a minute: 60.
pub const SECONDS_PER_MINUTE: u64 = 0x404E_0000_0000_0000;

/// The constants of this kind are the scalars that their decimal values
/// round to.
pub proof fn lemma_mass_flow_rate_constants()
    ensures
        scalar(KILOGRAMS_PER_POUND).is_ratio(453592, 1000000),
        scalar(KILOGRAMS_PER_TONNE).is_integer(1000),
        scalar(SECONDS_PER_MINUTE).is_integer(60),
{
    lemma2_to64_rest();
    lemma_ratio(scalar(KILOGRAMS_PER_POUND), 453592, 1000000, 54);
    lemma_whole(scalar(KILOGRAMS_PER_TONNE), 1000, 43);
    lemma_whole(scalar(SECONDS_PER_MINUTE), 60, 47);
}

/// A value made into a mass flow rate from any unit and read back in that unit
/// comes back within one part in 2^51, far inside one part in ten
/// thousand: where it is zero, where it is of ordinary size, and further
/// out as long as it and what it is made into are in range. (What is given
/// in the unit that is held comes back as it is.)
pub proof fn lemma_mass_flow_rate_round_trip(v: Scalar)
    requires
        v.is_finite(),
    ensures
        v.is_zero() || v.is_ordinary() || (v.is_in_range() && in_range(
            v.magnitude() * scalar(KILOGRAMS_PER_POUND).magnitude(),
            quanta_per_unit(),
        )) ==> v.times(scalar(KILOGRAMS_PER_POUND)).over(
            scalar(KILOGRAMS_PER_POUND),
        ).is_near(v, 51),
        v.is_zero() || v.is_ordinary() || (v.is_in_range() && in_range(
            v.magnitude() * scalar(KILOGRAMS_PER_TONNE).magnitude(),
            quanta_per_unit(),
        )) ==> v.times(scalar(KILOGRAMS_PER_TONNE)).over(
            scalar(KILOGRAMS_PER_TONNE),
        ).is_near(v, 51),
        v.is_zero() || v.is_ordinary() || (v.is_in_range() && in_range(
            v.magnitude() * quanta_per_unit(),
            scalar(SECONDS_PER_MINUTE).magnitude(),
        )) ==> v.over(scalar(SECONDS_PER_MINUTE)).times(scalar(SECONDS_PER_MINUTE)).is_near(v, 51),
{
    lemma_moderate(scalar(KILOGRAMS_PER_POUND), 54);
    lemma_round_trip(v, scalar(KILOGRAMS_PER_POUND));
    lemma_moderate(scalar(KILOGRAMS_PER_TONNE), 43);
    lemma_round_trip(v, scalar(KILOGRAMS_PER_TONNE));
    lemma_moderate(scalar(SECONDS_PER_MINUTE), 47);
    lemma_round_trip(v, scalar(SECONDS_PER_MINUTE));
}

/// A mass flow rate. Its view is the number of kilograms per second.
#[derive(Clone, Copy, Debug)]
pub struct MassFlowRate {
    kg_per_s: Scalar,
}

impl View for MassFlowRate {
    type V = Scalar;

    closed spec fn view(&self) -> Scalar {
        self.kg_per_s
    }
}

impl MassFlowRate {
    /// A mass flow rate given in kilograms per second, the unit it is held in.
    pub fn from_kg_per_s(kgps: Scalar) -> (r: MassFlowRate)
        ensures
            r@ == kgps,
    {
        MassFlowRate { kg_per_s: kgps }
    }

    /// A mass flow rate given in pounds per second.
    pub fn from_lb_per_s(lbps: Scalar) -> (r: MassFlowRate)
        ensures
            r@ == lbps.times(scalar(KILOGRAMS_PER_POUND)),
    {
        MassFlowRate { kg_per_s: lbps.mul(Scalar::from_bits(KILOGRAMS_PER_POUND)) }
    }

    /// A mass flow rate given in tonnes per second.
    pub fn from_tonnes_per_s(tps: Scalar) -> (r: MassFlowRate)
        ensures
            r@ == tps.times(scalar(KILOGRAMS_PER_TONNE)),
    {
        MassFlowRate { kg_per_s: tps.mul(Scalar::from_bits(KILOGRAMS_PER_TONNE)) }
    }

    /// A mass flow rate given in kilograms per minute.
    pub fn from_kg_per_min(kgpm: Scalar) -> (r: MassFlowRate)
        ensures
            r@ == kgpm.over(scalar(SECONDS_PER_MINUTE)),
    {
        MassFlowRate { kg_per_s: kgpm.div(Scalar::from_bits(SECONDS_PER_MINUTE)) }
    }

    /// The mass flow rate in kilograms per second.
    pub fn as_kg_per_s(&self) -> (kgps: Scalar)
        ensures
            kgps == self@,
    {
        self.kg_per_s
    }

    /// The mass flow rate in pounds per second.
    pub fn as_lb_per_s(&self) -> (lbps: Scalar)
        ensures
            lbps == self@.over(scalar(KILOGRAMS_PER_POUND)),
    {
        self.kg_per_s.div(Scalar::from_bits(KILOGRAMS_PER_POUND))
    }

    /// The mass flow rate in tonnes per second.
    pub fn as_tonnes_per_s(&self) -> (tps: Scalar)
        ensures
            tps == self@.over(scalar(KILOGRAMS_PER_TONNE)),
    {
        self.kg_per_s.div(Scalar::from_bits(KILOGRAMS_PER_TONNE))
    }

    /// The mass flow rate in kilograms per minute.
    pub fn as_kg_per_min(&self) -> (kgpm: Scalar)
        ensures
            kgpm == self@.times(scalar(SECONDS_PER_MINUTE)),
    {
        self.kg_per_s.mul(Scalar::from_bits(SECONDS_PER_MINUTE))
    }

    /// Whether the mass flow rate is greater than zero: false of zero and of a
    /// NaN.
    pub fn is_positive(&self) -> (b: bool)
        ensures
            b == self@.is_positive(),
    {
        self.kg_per_s.is_positive()
    }

    /// The mass flow rate as text: the number of kilograms per second with two
    /// decimals, and the unit.
    pub fn to_string(&self) -> (text: String)
        ensures
            text@ == rendered(self@, 2) + " kg/s"@,
    {
        let mut text = self.kg_per_s.to_hundredths();
        text.append(" kg/s");
        text
    }
}

/// MassFlowRate + MassFlowRate = MassFlowRate.
impl Add for MassFlowRate {
    type Output = MassFlowRate;

    fn add(self, other: MassFlowRate) -> (r: MassFlowRate)
        ensures
            r@ == self@.plus(other@),
    {
        MassFlowRate { kg_per_s: self.kg_per_s.add(other.kg_per_s) }
    }
}

impl AddSpecImpl for MassFlowRate {
    open spec fn obeys_add_spec() -> bool {
        true
    }

    open spec fn add_req(self, other: MassFlowRate) -> bool {
        true
    }

    closed spec fn add_spec(self, other: MassFlowRate) -> MassFlowRate {
        MassFlowRate { kg_per_s: self.kg_per_s.plus(other.kg_per_s) }
    }
}

/// MassFlowRate - MassFlowRate = MassFlowRate: nothing is clamped, the
/// difference may be negative.
impl Sub for MassFlowRate {
    type Output = MassFlowRate;

    fn sub(self, other: MassFlowRate) -> (r: MassFlowRate)
        ensures
            r@ == self@.minus(other@),
    {
        MassFlowRate { kg_per_s: self.kg_per_s.sub(other.kg_per_s) }
    }
}

impl SubSpecImpl for MassFlowRate {
    open spec fn obeys_sub_spec() -> bool {
        true
    }

    open spec fn sub_req(self, other: MassFlowRate) -> bool {
        true
    }

    closed spec fn sub_spec(self, other: MassFlowRate) -> MassFlowRate {
        MassFlowRate { kg_per_s: self.kg_per_s.minus(other.kg_per_s) }
    }
}

/// MassFlowRate * scalar = MassFlowRate.
impl Mul<Scalar> for MassFlowRate {
    type Output = MassFlowRate;

    fn mul(self, factor: Scalar) -> (r: MassFlowRate)
        ensures
            r@ == self@.times(factor),
    {
        MassFlowRate { kg_per_s: self.kg_per_s.mul(factor) }
    }
}

impl MulSpecImpl<Scalar> for MassFlowRate {
    open spec fn obeys_mul_spec() -> bool {
        true
    }

    open spec fn mul_req(self, factor: Scalar) -> bool {
        true
    }

    closed spec fn mul_spec(self, factor: Scalar) -> MassFlowRate {
        MassFlowRate { kg_per_s: self.kg_per_s.times(factor) }
    }
}

/// MassFlowRate / scalar = MassFlowRate: a divisor of zero gives an infinity
/// or a NaN.
impl Div<Scalar> for MassFlowRate {
    type Output = MassFlowRate;

    fn div(self, divisor: Scalar) -> (r: MassFlowRate)
        ensures
            r@ == self@.over(divisor),
    {
        MassFlowRate { kg_per_s: self.kg_per_s.div(divisor) }
    }
}

impl DivSpecImpl<Scalar> for MassFlowRate {
    open spec fn obeys_div_spec() -> bool {
        true
    }

    open spec fn div_req(self, divisor: Scalar) -> bool {
        true
    }

    closed spec fn div_spec(self, divisor: Scalar) -> MassFlowRate {
        MassFlowRate { kg_per_s: self.kg_per_s.over(divisor) }
    }
}

/// MassFlowRate / MassFlowRate = a plain number, the ratio of the two: a
/// divisor of zero gives an infinity or a NaN.
impl Div<MassFlowRate> for MassFlowRate {
    type Output = Scalar;

    fn div(self, other: MassFlowRate) -> (r: Scalar)
        ensures
            r == self@.over(other@),
    {
        self.kg_per_s.div(other.kg_per_s)
    }
}

impl DivSpecImpl<MassFlowRate> for MassFlowRate {
    open spec fn obeys_div_spec() -> bool {
        true
    }

    open spec fn div_req(self, other: MassFlowRate) -> bool {
        true
    }

    open spec fn div_spec(self, other: MassFlowRate) -> Scalar {
        self@.over(other@)
    }
}

/// Two mass flow rates are equal where their scalars are: never where one is a
/// NaN.
impl PartialEq for MassFlowRate {
    fn eq(&self, other: &MassFlowRate) -> (r: bool) {
        self.kg_per_s == other.kg_per_s
    }
}

impl PartialEqSpecImpl for MassFlowRate {
    open spec fn obeys_eq_spec() -> bool {
        true
    }

    open spec fn eq_spec(&self, other: &MassFlowRate) -> bool {
        self@.equals(other@)
    }
}

/// Mass flow rates are ordered as their scalars are: not at all where one is a
/// NaN.
impl PartialOrd for MassFlowRate {
    fn partial_cmp(&self, other: &MassFlowRate) -> (r: Option<Ordering>) {
        self.kg_per_s.partial_cmp(&other.kg_per_s)
    }
}

impl PartialOrdSpecImpl for MassFlowRate {
    open spec fn obeys_partial_cmp_spec() -> bool {
        true
    }

    open spec fn partial_cmp_spec(&self, other: &MassFlowRate) -> Option<Ordering> {
        self@.compared_to(other@)
    }
}

} // verus!
