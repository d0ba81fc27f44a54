//! Forces, held in newtons.

use crate::laws::in_range;
use crate::laws::lemma_moderate;
use crate::laws::lemma_round_trip;
use crate::rounding::lemma_ratio;
use crate::scalar::lemma_whole;
use crate::scalar::quanta_per_unit;
use crate::scalar::scalar;
use crate::scalar::Scalar;
use crate::text::rendered;
use crate::units::mass_flow_rate::MassFlowRate;
use crate::units::specific_impulse::SpecificImpulse;
use crate::units::specific_impulse::STANDARD_GRAVITY;
use core::cmp::Ordering;
use core::ops::Add;
use core::ops::Div;
use core::ops::Mul;
use core::ops::Sub;
use vstd::arithmetic::power2::lemma2_to64_rest;
use vstd::prelude::*;
use vstd::std_specs::cmp::PartialEqSpecImpl;
use vstd::std_specs::cmp::PartialOrdSpecImpl;
use vstd::std_specs::ops::AddSpecImpl;
use vstd::std_specs::ops::DivSpecImpl;
use vstd::std_specs::ops::MulSpecImpl;
use vstd::std_specs::ops::SubSpecImpl;
use vstd::string::StringExecFns;

verus! {

/// Newtons in a kilonewton: 1000.
pub const NEWTONS_PER_KILONEWTON: u64 = 0x408F_4000_0000_0000;

/// Newtons in a meganewton: 1,000,000.
pub const NEWTONS_PER_MEGANEWTON: u64 = 0x412E_8480_0000_0000;

/// Newtons in a pound-force: 4.44822.
pub const NEWTONS_PER_POUND_FORCE: u64 = 0x4011_CAFA_2F05_A709;

/// Newtons in a kilopound-force: 4448.22.
pub const NEWTONS_PER_KILOPOUND_FORCE: u64 = 0x40B1_6038_51EB_851F;

/// The constants of this kind are the scalars that their decimal values
/// round to.
pub proof fn lemma_force_constants()
    ensures
        scalar(NEWTONS_PER_KILONEWTON).is_integer(1000),
        scalar(NEWTONS_PER_MEGANEWTON).is_integer(1_000_000),
        scalar(NEWTONS_PER_POUND_FORCE).is_ratio(444822, 100000),
        scalar(NEWTONS_PER_KILOPOUND_FORCE).is_ratio(444822, 100),
{
    lemma2_to64_rest();
    lemma_whole(scalar(NEWTONS_PER_KILONEWTON), 1000, 43);
    lemma_whole(scalar(NEWTONS_PER_MEGANEWTON), 1_000_000, 33);
    lemma_ratio(scalar(NEWTONS_PER_POUND_FORCE), 444822, 100000, 50);
    lemma_ratio(scalar(NEWTONS_PER_KILOPOUND_FORCE), 444822, 100, 40);
}

/// A value made into a force from any unit and read back in that unit
/// comes back within one part in 2^51, far inside one part in ten
/// thousand: where it is zero, where it is of ordinary size, and further
/// out as long as it and what it is made into are in range. (What is given
/// in the unit that is held comes back as it is.)
pub proof fn lemma_force_round_trip(v: Scalar)
    requires
        v.is_finite(),
    ensures
        v.is_zero() || v.is_ordinary() || (v.is_in_range() && in_range(
            v.magnitude() * scalar(NEWTONS_PER_KILONEWTON).magnitude(),
            quanta_per_unit(),
        )) ==> v.times(scalar(NEWTONS_PER_KILONEWTON)).over(
            scalar(NEWTONS_PER_KILONEWTON),
        ).is_near(v, 51),
        v.is_zero() || v.is_ordinary() || (v.is_in_range() && in_range(
            v.magnitude() * scalar(NEWTONS_PER_MEGANEWTON).magnitude(),
            quanta_per_unit(),
        )) ==> v.times(scalar(NEWTONS_PER_MEGANEWTON)).over(
            scalar(NEWTONS_PER_MEGANEWTON),
        ).is_near(v, 51),
        v.is_zero() || v.is_ordinary() || (v.is_in_range() && in_range(
            v.magnitude() * scalar(NEWTONS_PER_POUND_FORCE).magnitude(),
            quanta_per_unit(),
        )) ==> v.times(scalar(NEWTONS_PER_POUND_FORCE)).over(
            scalar(NEWTONS_PER_POUND_FORCE),
        ).is_near(v, 51),
        v.is_zero() || v.is_ordinary() || (v.is_in_range() && in_range(
            v.magnitude() * scalar(NEWTONS_PER_KILOPOUND_FORCE).magnitude(),
            quanta_per_unit(),
        )) ==> v.times(scalar(NEWTONS_PER_KILOPOUND_FORCE)).over(
            scalar(NEWTONS_PER_KILOPOUND_FORCE),
        ).is_near(v, 51),
{
    lemma_moderate(scalar(NEWTONS_PER_KILONEWTON), 43);
    lemma_round_trip(v, scalar(NEWTONS_PER_KILONEWTON));
    lemma_moderate(scalar(NEWTONS_PER_MEGANEWTON), 33);
    lemma_round_trip(v, scalar(NEWTONS_PER_MEGANEWTON));
    lemma_moderate(scalar(NEWTONS_PER_POUND_FORCE), 50);
    lemma_round_trip(v, scalar(NEWTONS_PER_POUND_FORCE));
    lemma_moderate(scalar(NEWTONS_PER_KILOPOUND_FORCE), 40);
    lemma_round_trip(v, scalar(NEWTONS_PER_KILOPOUND_FORCE));
}

/// The unit in which a force is shown.
#[derive(Clone, Copy, Debug, PartialEq, Eq, Structural)]
pub enum ForceUnit {
    Newtons,
    Kilonewtons,
    Meganewtons,
}

/// A force. Its view is the number of newtons.
#[derive(Clone, Copy, Debug)]
pub struct Force {
    newtons: Scalar,
}

impl View for Force {
    type V = Scalar;

    closed spec fn view(&self) -> Scalar {
        self.newtons
    }
}

impl Force {
    /// A force given in newtons, the unit it is held in.
    pub fn from_newtons(n: Scalar) -> (r: Force)
        ensures
            r@ == n,
    {
        Force { newtons: n }
    }

    /// A force given in kilonewtons.
    pub fn from_kilonewtons(kn: Scalar) -> (r: Force)
        ensures
            r@ == kn.times(scalar(NEWTONS_PER_KILONEWTON)),
    {
        Force { newtons: kn.mul(Scalar::from_bits(NEWTONS_PER_KILONEWTON)) }
    }

    /// A force given in meganewtons.
    pub fn from_meganewtons(mn: Scalar) -> (r: Force)
        ensures
            r@ == mn.times(scalar(NEWTONS_PER_MEGANEWTON)),
    {
        Force { newtons: mn.mul(Scalar::from_bits(NEWTONS_PER_MEGANEWTON)) }
    }

    /// A force given in pounds-force.
    pub fn from_pounds_force(lbf: Scalar) -> (r: Force)
        ensures
            r@ == lbf.times(scalar(NEWTONS_PER_POUND_FORCE)),
    {
        Force { newtons: lbf.mul(Scalar::from_bits(NEWTONS_PER_POUND_FORCE)) }
    }

    /// A force given in kilopounds-force.
    pub fn from_kilopounds_force(klbf: Scalar) -> (r: Force)
        ensures
            r@ == klbf.times(scalar(NEWTONS_PER_KILOPOUND_FORCE)),
    {
        Force { newtons: klbf.mul(Scalar::from_bits(NEWTONS_PER_KILOPOUND_FORCE)) }
    }

    /// The force in newtons.
    pub fn as_newtons(&self) -> (n: Scalar)
        ensures
            n == self@,
    {
        self.newtons
    }

    /// The force in kilonewtons.
    pub fn as_kilonewtons(&self) -> (kn: Scalar)
        ensures
            kn == self@.over(scalar(NEWTONS_PER_KILONEWTON)),
    {
        self.newtons.div(Scalar::from_bits(NEWTONS_PER_KILONEWTON))
    }

    /// The force in meganewtons.
    pub fn as_meganewtons(&self) -> (mn: Scalar)
        ensures
            mn == self@.over(scalar(NEWTONS_PER_MEGANEWTON)),
    {
        self.newtons.div(Scalar::from_bits(NEWTONS_PER_MEGANEWTON))
    }

    /// The force in pounds-force.
    pub fn as_pounds_force(&self) -> (lbf: Scalar)
        ensures
            lbf == self@.over(scalar(NEWTONS_PER_POUND_FORCE)),
    {
        self.newtons.div(Scalar::from_bits(NEWTONS_PER_POUND_FORCE))
    }

    /// The force in kilopounds-force.
    pub fn as_kilopounds_force(&self) -> (klbf: Scalar)
        ensures
            klbf == self@.over(scalar(NEWTONS_PER_KILOPOUND_FORCE)),
    {
        self.newtons.div(Scalar::from_bits(NEWTONS_PER_KILOPOUND_FORCE))
    }

    /// The specific impulse of an engine with this thrust and the given
    /// mass flow: the thrust over the product of mass flow and standard
    /// gravity. Nothing is rejected: a mass flow of zero gives an infinity
    /// or a NaN.
    pub fn specific_impulse(&self, mass_flow_rate: MassFlowRate) -> (isp: SpecificImpulse)
        ensures
            isp@ == self@.over(mass_flow_rate@.times(scalar(STANDARD_GRAVITY))),
    {
        let weight_flow = mass_flow_rate.as_kg_per_s().mul(Scalar::from_bits(STANDARD_GRAVITY));
        SpecificImpulse::from_seconds(self.newtons.div(weight_flow))
    }

    /// The unit for a force of this size: meganewtons from a million newtons
    /// up, kilonewtons from a thousand up, newtons below that and for a NaN.
    /// The sign plays no part.
    pub open spec fn spec_display_unit(&self) -> ForceUnit {
        if !self@.is_nan() && self@.magnitude() >= 1_000_000 * quanta_per_unit() {
            ForceUnit::Meganewtons
        } else if !self@.is_nan() && self@.magnitude() >= 1000 * quanta_per_unit() {
            ForceUnit::Kilonewtons
        } else {
            ForceUnit::Newtons
        }
    }

    /// Chooses the unit in which the force is shown.
    #[verifier::when_used_as_spec(spec_display_unit)]
    pub fn display_unit(&self) -> (unit: ForceUnit)
        ensures
            unit == self.display_unit(),
    {
        let size = self.newtons.abs();
        proof {
            lemma_force_constants();
        }
        if size >= Scalar::from_bits(NEWTONS_PER_MEGANEWTON) {
            ForceUnit::Meganewtons
        } else if size >= Scalar::from_bits(NEWTONS_PER_KILONEWTON) {
            ForceUnit::Kilonewtons
        } else {
            ForceUnit::Newtons
        }
    }

    /// The text of the force: the number of meganewtons, kilonewtons or
    /// newtons, as `display_unit` chooses, with two decimals, and the unit.
    pub open spec fn text(&self) -> Seq<char> {
        match self.display_unit() {
            ForceUnit::Meganewtons => rendered(self@.over(scalar(NEWTONS_PER_MEGANEWTON)), 2)
                + " MN"@,
            ForceUnit::Kilonewtons => rendered(self@.over(scalar(NEWTONS_PER_KILONEWTON)), 2)
                + " kN"@,
            ForceUnit::Newtons => rendered(self@, 2) + " N"@,
        }
    }

    /// The force as text, in the unit that suits its size.
    pub fn to_string(&self) -> (text: String)
        ensures
            text@ == self.text(),
    {
        match self.display_unit() {
            ForceUnit::Meganewtons => {
                let mut text = self.as_meganewtons().to_hundredths();
                text.append(" MN");
                text
            },
            ForceUnit::Kilonewtons => {
                let mut text = self.as_kilonewtons().to_hundredths();
                text.append(" kN");
                text
            },
            ForceUnit::Newtons => {
                let mut text = self.newtons.to_hundredths();
                text.append(" N");
                text
            },
        }
    }

    /// Whether the force is greater than zero: false of zero and of a NaN.
    pub fn is_positive(&self) -> (b: bool)
        ensures
            b == self@.is_positive(),
    {
        self.newtons.is_positive()
    }

    /// The force without its sign.
    pub fn abs(&self) -> (r: Force)
        ensures
            r@ == self@.abs(),
    {
        Force { newtons: self.newtons.abs() }
    }
}

/// Force + Force = Force.
impl Add for Force {
    type Output = Force;

    fn add(self, other: Force) -> (r: Force)
        ensures
            r@ == self@.plus(other@),
    {
        Force { newtons: self.newtons.add(other.newtons) }
    }
}

impl AddSpecImpl for Force {
    open spec fn obeys_add_spec() -> bool {
        true
    }

    open spec fn add_req(self, other: Force) -> bool {
        true
    }

    closed spec fn add_spec(self, other: Force) -> Force {
        Force { newtons: self.newtons.plus(other.newtons) }
    }
}

/// Force - Force = Force: nothing is clamped, the difference may be negative.
impl Sub for Force {
    type Output = Force;

    fn sub(self, other: Force) -> (r: Force)
        ensures
            r@ == self@.minus(other@),
    {
        Force { newtons: self.newtons.sub(other.newtons) }
    }
}

impl SubSpecImpl for Force {
    open spec fn obeys_sub_spec() -> bool {
        true
    }

    open spec fn sub_req(self, other: Force) -> bool {
        true
    }

    closed spec fn sub_spec(self, other: Force) -> Force {
        Force { newtons: self.newtons.minus(other.newtons) }
    }
}

/// Force * scalar = Force.
impl Mul<Scalar> for Force {
    type Output = Force;

    fn mul(self, factor: Scalar) -> (r: Force)
        ensures
            r@ == self@.times(factor),
    {
        Force { newtons: self.newtons.mul(factor) }
    }
}

impl MulSpecImpl<Scalar> for Force {
    open spec fn obeys_mul_spec() -> bool {
        true
    }

    open spec fn mul_req(self, factor: Scalar) -> bool {
        true
    }

    closed spec fn mul_spec(self, factor: Scalar) -> Force {
        Force { newtons: self.newtons.times(factor) }
    }
}

/// Force / scalar = Force: a divisor of zero gives an infinity or a NaN.
impl Div<Scalar> for Force {
    type Output = Force;

    fn div(self, divisor: Scalar) -> (r: Force)
        ensures
            r@ == self@.over(divisor),
    {
        Force { newtons: self.newtons.div(divisor) }
    }
}

impl DivSpecImpl<Scalar> for Force {
    open spec fn obeys_div_spec() -> bool {
        true
    }

    open spec fn div_req(self, divisor: Scalar) -> bool {
        true
    }

    closed spec fn div_spec(self, divisor: Scalar) -> Force {
        Force { newtons: self.newtons.over(divisor) }
    }
}

/// Force / Force = a plain number, the ratio of the two: a divisor of zero
/// gives an infinity or a NaN.
impl Div<Force> for Force {
    type Output = Scalar;

    fn div(self, other: Force) -> (r: Scalar)
        ensures
            r == self@.over(other@),
    {
        self.newtons.div(other.newtons)
    }
}

impl DivSpecImpl<Force> for Force {
    open spec fn obeys_div_spec() -> bool {
        true
    }

    open spec fn div_req(self, other: Force) -> bool {
        true
    }

    open spec fn div_spec(self, other: Force) -> Scalar {
        self@.over(other@)
    }
}

/// Two forces are equal where their scalars are: never where one is a NaN.
impl PartialEq for Force {
    fn eq(&self, other: &Force) -> (r: bool) {
        self.newtons == other.newtons
    }
}

impl PartialEqSpecImpl for Force {
    open spec fn obeys_eq_spec() -> bool {
        true
    }

    open spec fn eq_spec(&self, other: &Force) -> bool {
        self@.equals(other@)
    }
}

/// Forces are ordered as their scalars are: not at all where one is a
/// NaN.
impl PartialOrd for Force {
    fn partial_cmp(&self, other: &Force) -> (r: Option<Ordering>) {
        self.newtons.partial_cmp(&other.newtons)
    }
}

impl PartialOrdSpecImpl for Force {
    open spec fn obeys_partial_cmp_spec() -> bool {
        true
    }

    open spec fn partial_cmp_spec(&self, other: &Force) -> Option<Ordering> {
        self@.compared_to(other@)
    }
}

} // verus!
