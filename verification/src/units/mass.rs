//! Masses, held in kilograms.

use crate::laws::in_range;
use crate::laws::lemma_moderate;
use crate::laws::lemma_round_trip;
use crate::rounding::lemma_ratio;
use crate::scalar::lemma_whole;
use crate::scalar::quanta_per_unit;
use crate::scalar::scalar;
use crate::scalar::Scalar;
use crate::text::rendered;
use core::cmp::Ordering;
use core::ops::Add;
use core::ops::Div;
use core::ops::Mul;
use core::ops::Sub;
use vstd::arithmetic::power2::lemma2_to64_rest;
use vstd::prelude::*;
use vstd::std_specs::cmp::PartialEqSpecImpl;
use vstd::std_specs::cmp::PartialOrdSpecImpl;
use vstd::std_specs::ops::AddSpecImpl;
use vstd::std_specs::ops::DivSpecImpl;
use vstd::std_specs::ops::MulSpecImpl;
use vstd::std_specs::ops::SubSpecImpl;
use vstd::string::StringExecFns;

verus! {

/// Grams in a kilogram: 1000.
pub const GRAMS_PER_KILOGRAM: u64 = 0x408F_4000_0000_0000;

/// Kilograms in a tonne: 1000.
pub const KILOGRAMS_PER_TONNE: u64 = 0x408F_4000_0000_0000;

/// Kilograms in a pound: 0.453592.
pub const KILOGRAMS_PER_POUND: u64 = 0x3FDD_07A6_BD6E_8AF8;

/// Kilograms in a slug: 14.5939.
pub const KILOGRAMS_PER_SLUG: u64 = 0x402D_3013_A92A_3055;

/// The constants of this kind are the scalars that their decimal values
/// round to.
pub proof fn lemma_mass_constants()
    ensures
        scalar(GRAMS_PER_KILOGRAM).is_integer(1000),
        scalar(KILOGRAMS_PER_TONNE).is_integer(1000),
        scalar(KILOGRAMS_PER_POUND).is_ratio(453592, 1000000),
        scalar(KILOGRAMS_PER_SLUG).is_ratio(145939, 10000),
{
    lemma2_to64_rest();
    lemma_whole(scalar(GRAMS_PER_KILOGRAM), 1000, 43);
    lemma_whole(scalar(KILOGRAMS_PER_TONNE), 1000, 43);
    lemma_ratio(scalar(KILOGRAMS_PER_POUND), 453592, 1000000, 54);
    lemma_ratio(scalar(KILOGRAMS_PER_SLUG), 145939, 10000, 49);
}

/// A value made into a mass from any unit and read back in that unit
/// comes back within one part in 2^51, far inside one part in ten
/// thousand: where it is zero, where it is of ordinary size, and further
/// out as long as it and what it is made into are in range. (What is given
/// in the unit that is held comes back as it is.)
pub proof fn lemma_mass_round_trip(v: Scalar)
    requires
        v.is_finite(),
    ensures
        v.is_zero() || v.is_ordinary() || (v.is_in_range() && in_range(
            v.magnitude() * quanta_per_unit(),
            scalar(GRAMS_PER_KILOGRAM).magnitude(),
        )) ==> v.over(scalar(GRAMS_PER_KILOGRAM)).times(scalar(GRAMS_PER_KILOGRAM)).is_near(v, 51),
        v.is_zero() || v.is_ordinary() || (v.is_in_range() && in_range(
            v.magnitude() * scalar(KILOGRAMS_PER_TONNE).magnitude(),
            quanta_per_unit(),
        )) ==> v.times(scalar(KILOGRAMS_PER_TONNE)).over(
            scalar(KILOGRAMS_PER_TONNE),
        ).is_near(v, 51),
        v.is_zero() || v.is_ordinary() || (v.is_in_range() && in_range(
            v.magnitude() * scalar(KILOGRAMS_PER_POUND).magnitude(),
            quanta_per_unit(),
        )) ==> v.times(scalar(KILOGRAMS_PER_POUND)).over(
            scalar(KILOGRAMS_PER_POUND),
        ).is_near(v, 51),
        v.is_zero() || v.is_ordinary() || (v.is_in_range() && in_range(
            v.magnitude() * scalar(KILOGRAMS_PER_SLUG).magnitude(),
            quanta_per_unit(),
        )) ==> v.times(scalar(KILOGRAMS_PER_SLUG)).over(scalar(KILOGRAMS_PER_SLUG)).is_near(v, 51),
{
    lemma_moderate(scalar(GRAMS_PER_KILOGRAM), 43);
    lemma_round_trip(v, scalar(GRAMS_PER_KILOGRAM));
    lemma_moderate(scalar(KILOGRAMS_PER_TONNE), 43);
    lemma_round_trip(v, scalar(KILOGRAMS_PER_TONNE));
    lemma_moderate(scalar(KILOGRAMS_PER_POUND), 54);
    lemma_round_trip(v, scalar(KILOGRAMS_PER_POUND));
    lemma_moderate(scalar(KILOGRAMS_PER_SLUG), 49);
    lemma_round_trip(v, scalar(KILOGRAMS_PER_SLUG));
}

/// A mass. Its view is the number of kilograms.
#[derive(Clone, Copy, Debug)]
pub struct Mass {
    kilograms: Scalar,
}

impl View for Mass {
    type V = Scalar;

    closed spec fn view(&self) -> Scalar {
        self.kilograms
    }
}

impl Mass {
    /// A mass given in kilograms, the unit it is held in.
    pub fn from_kilograms(kg: Scalar) -> (r: Mass)
        ensures
            r@ == kg,
    {
        Mass { kilograms: kg }
    }

    /// A mass given in grams.
    pub fn from_grams(g: Scalar) -> (r: Mass)
        ensures
            r@ == g.over(scalar(GRAMS_PER_KILOGRAM)),
    {
        Mass { kilograms: g.div(Scalar::from_bits(GRAMS_PER_KILOGRAM)) }
    }

    /// A mass given in tonnes.
    pub fn from_tonnes(t: Scalar) -> (r: Mass)
        ensures
            r@ == t.times(scalar(KILOGRAMS_PER_TONNE)),
    {
        Mass { kilograms: t.mul(Scalar::from_bits(KILOGRAMS_PER_TONNE)) }
    }

    /// A mass given in pounds.
    pub fn from_pounds(lb: Scalar) -> (r: Mass)
        ensures
            r@ == lb.times(scalar(KILOGRAMS_PER_POUND)),
    {
        Mass { kilograms: lb.mul(Scalar::from_bits(KILOGRAMS_PER_POUND)) }
    }

    /// A mass given in slugs.
    pub fn from_slugs(slugs: Scalar) -> (r: Mass)
        ensures
            r@ == slugs.times(scalar(KILOGRAMS_PER_SLUG)),
    {
        Mass { kilograms: slugs.mul(Scalar::from_bits(KILOGRAMS_PER_SLUG)) }
    }

    /// The mass in kilograms.
    pub fn as_kilograms(&self) -> (kg: Scalar)
        ensures
            kg == self@,
    {
        self.kilograms
    }

    /// The mass in grams.
    pub fn as_grams(&self) -> (g: Scalar)
        ensures
            g == self@.times(scalar(GRAMS_PER_KILOGRAM)),
    {
        self.kilograms.mul(Scalar::from_bits(GRAMS_PER_KILOGRAM))
    }

    /// The mass in tonnes.
    pub fn as_tonnes(&self) -> (t: Scalar)
        ensures
            t == self@.over(scalar(KILOGRAMS_PER_TONNE)),
    {
        self.kilograms.div(Scalar::from_bits(KILOGRAMS_PER_TONNE))
    }

    /// The mass in pounds.
    pub fn as_pounds(&self) -> (lb: Scalar)
        ensures
            lb == self@.over(scalar(KILOGRAMS_PER_POUND)),
    {
        self.kilograms.div(Scalar::from_bits(KILOGRAMS_PER_POUND))
    }

    /// The mass in slugs.
    pub fn as_slugs(&self) -> (slugs: Scalar)
        ensures
            slugs == self@.over(scalar(KILOGRAMS_PER_SLUG)),
    {
        self.kilograms.div(Scalar::from_bits(KILOGRAMS_PER_SLUG))
    }

    /// Whether the mass is greater than zero: false of zero and of a NaN.
    pub fn is_positive(&self) -> (b: bool)
        ensures
            b == self@.is_positive(),
    {
        self.kilograms.is_positive()
    }

    /// The mass as text: the number of kilograms with two decimals, and the
    /// unit.
    pub fn to_string(&self) -> (text: String)
        ensures
            text@ == rendered(self@, 2) + " kg"@,
    {
        let mut text = self.kilograms.to_hundredths();
        text.append(" kg");
        text
    }
}

/// Mass + Mass = Mass.
impl Add for Mass {
    type Output = Mass;

    fn add(self, other: Mass) -> (r: Mass)
        ensures
            r@ == self@.plus(other@),
    {
        Mass { kilograms: self.kilograms.add(other.kilograms) }
    }
}

impl AddSpecImpl for Mass {
    open spec fn obeys_add_spec() -> bool {
        true
    }

    open spec fn add_req(self, other: Mass) -> bool {
        true
    }

    closed spec fn add_spec(self, other: Mass) -> Mass {
        Mass { kilograms: self.kilograms.plus(other.kilograms) }
    }
}

/// Mass - Mass = Mass: nothing is clamped, the difference may be negative.
impl Sub for Mass {
    type Output = Mass;

    fn sub(self, other: Mass) -> (r: Mass)
        ensures
            r@ == self@.minus(other@),
    {
        Mass { kilograms: self.kilograms.sub(other.kilograms) }
    }
}

impl SubSpecImpl for Mass {
    open spec fn obeys_sub_spec() -> bool {
        true
    }

    open spec fn sub_req(self, other: Mass) -> bool {
        true
    }

    closed spec fn sub_spec(self, other: Mass) -> Mass {
        Mass { kilograms: self.kilograms.minus(other.kilograms) }
    }
}

/// Mass * scalar = Mass.
impl Mul<Scalar> for Mass {
    type Output = Mass;

    fn mul(self, factor: Scalar) -> (r: Mass)
        ensures
            r@ == self@.times(factor),
    {
        Mass { kilograms: self.kilograms.mul(factor) }
    }
}

impl MulSpecImpl<Scalar> for Mass {
    open spec fn obeys_mul_spec() -> bool {
        true
    }

    open spec fn mul_req(self, factor: Scalar) -> bool {
        true
    }

    closed spec fn mul_spec(self, factor: Scalar) -> Mass {
        Mass { kilograms: self.kilograms.times(factor) }
    }
}

/// Mass / scalar = Mass: a divisor of zero gives an infinity or a NaN.
impl Div<Scalar> for Mass {
    type Output = Mass;

    fn div(self, divisor: Scalar) -> (r: Mass)
        ensures
            r@ == self@.over(divisor),
    {
        Mass { kilograms: self.kilograms.div(divisor) }
    }
}

impl DivSpecImpl<Scalar> for Mass {
    open spec fn obeys_div_spec() -> bool {
        true
    }

    open spec fn div_req(self, divisor: Scalar) -> bool {
        true
    }

    closed spec fn div_spec(self, divisor: Scalar) -> Mass {
        Mass { kilograms: self.kilograms.over(divisor) }
    }
}

/// Mass / Mass = a plain number, the ratio of the two: a divisor of zero
/// gives an infinity or a NaN.
impl Div<Mass> for Mass {
    type Output = Scalar;

    fn div(self, other: Mass) -> (r: Scalar)
        ensures
            r == self@.over(other@),
    {
        self.kilograms.div(other.kilograms)
    }
}

impl DivSpecImpl<Mass> for Mass {
    open spec fn obeys_div_spec() -> bool {
        true
    }

    open spec fn div_req(self, other: Mass) -> bool {
        true
    }

    open spec fn div_spec(self, other: Mass) -> Scalar {
        self@.over(other@)
    }
}

/// Two masses are equal where their scalars are: never where one is a NaN.
impl PartialEq for Mass {
    fn eq(&self, other: &Mass) -> (r: bool) {
        self.kilograms == other.kilograms
    }
}

impl PartialEqSpecImpl for Mass {
    open spec fn obeys_eq_spec() -> bool {
        true
    }

    open spec fn eq_spec(&self, other: &Mass) -> bool {
        self@.equals(other@)
    }
}

/// Masses are ordered as their scalars are: not at all where one is a
/// NaN.
impl PartialOrd for Mass {
    fn partial_cmp(&self, other: &Mass) -> (r: Option<Ordering>) {
        self.kilograms.partial_cmp(&other.kilograms)
    }
}

impl PartialOrdSpecImpl for Mass {
    open spec fn obeys_partial_cmp_spec() -> bool {
        true
    }

    open spec fn partial_cmp_spec(&self, other: &Mass) -> Option<Ordering> {
        self@.compared_to(other@)
    }
}

} // verus!
