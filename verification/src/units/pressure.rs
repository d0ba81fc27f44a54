//! Pressures, held in pascals.

use crate::laws::in_range;
use crate::laws::lemma_moderate;
use crate::laws::lemma_round_trip;
use crate::rounding::lemma_ratio;
use crate::scalar::lemma_whole;
use crate::scalar::quanta_per_unit;
use crate::scalar::scalar;
use crate::scalar::Scalar;
use crate::text::rendered;
use core::cmp::Ordering;
use core::ops::Add;
use core::ops::Div;
use core::ops::Mul;
use core::ops::Sub;
use vstd::arithmetic::power2::lemma2_to64_rest;
use vstd::prelude::*;
use vstd::std_specs::cmp::PartialEqSpecImpl;
use vstd::std_specs::cmp::PartialOrdSpecImpl;
use vstd::std_specs::ops::AddSpecImpl;
use vstd::std_specs::ops::DivSpecImpl;
use vstd::std_specs::ops::MulSpecImpl;
use vstd::std_specs::ops::SubSpecImpl;
use vstd::string::StringExecFns;

verus! {

/// Pascals in a kilopascal: 1000.
pub const PASCALS_PER_KILOPASCAL: u64 = 0x408F_4000_0000_0000;

/// Pascals in a megapascal: 1,000,000.
pub const PASCALS_PER_MEGAPASCAL: u64 = 0x412E_8480_0000_0000;

/// Pascals in a bar: 100,000.
pub const PASCALS_PER_BAR: u64 = 0x40F8_6A00_0000_0000;

/// Pascals in a standard atmosphere: 101,325.
pub const PASCALS_PER_ATMOSPHERE: u64 = 0x40F8_BCD0_0000_0000;

/// Pascals in a pound per square inch: 6894.757.
pub const PASCALS_PER_PSI: u64 = 0x40BA_EEC1_CAC0_8312;

/// Pascals in an inch of mercury: 3386.389.
pub const PASCALS_PER_INCH_HG: u64 = 0x40AA_74C7_2B02_0C4A;

/// Pascals in a millimeter of mercury: 133.322.
pub const PASCALS_PER_MMHG: u64 = 0x4060_AA4D_D2F1_A9FC;

/// The constants of this kind are the scalars that their decimal values
/// round to.
pub proof fn lemma_pressure_constants()
    ensures
        scalar(PASCALS_PER_KILOPASCAL).is_integer(1000),
        scalar(PASCALS_PER_MEGAPASCAL).is_integer(1_000_000),
        scalar(PASCALS_PER_BAR).is_integer(100_000),
        scalar(PASCALS_PER_ATMOSPHERE).is_integer(101_325),
        scalar(PASCALS_PER_PSI).is_ratio(6894757, 1000),
        scalar(PASCALS_PER_INCH_HG).is_ratio(3386389, 1000),
        scalar(PASCALS_PER_MMHG).is_ratio(133322, 1000),
{
    lemma2_to64_rest();
    lemma_whole(scalar(PASCALS_PER_KILOPASCAL), 1000, 43);
    lemma_whole(scalar(PASCALS_PER_MEGAPASCAL), 1_000_000, 33);
    lemma_whole(scalar(PASCALS_PER_BAR), 100_000, 36);
    lemma_whole(scalar(PASCALS_PER_ATMOSPHERE), 101_325, 36);
    lemma_ratio(scalar(PASCALS_PER_PSI), 6894757, 1000, 40);
    lemma_ratio(scalar(PASCALS_PER_INCH_HG), 3386389, 1000, 41);
    lemma_ratio(scalar(PASCALS_PER_MMHG), 133322, 1000, 45);
}

/// A value made into a pressure from any unit and read back in that unit
/// comes back within one part in 2^51, far inside one part in ten
/// thousand: where it is zero, where it is of ordinary size, and further
/// out as long as it and what it is made into are in range. (What is given
/// in the unit that is held comes back as it is.)
pub proof fn lemma_pressure_round_trip(v: Scalar)
    requires
        v.is_finite(),
    ensures
        v.is_zero() || v.is_ordinary() || (v.is_in_range() && in_range(
            v.magnitude() * scalar(PASCALS_PER_KILOPASCAL).magnitude(),
            quanta_per_unit(),
        )) ==> v.times(scalar(PASCALS_PER_KILOPASCAL)).over(
            scalar(PASCALS_PER_KILOPASCAL),
        ).is_near(v, 51),
        v.is_zero() || v.is_ordinary() || (v.is_in_range() && in_range(
            v.magnitude() * scalar(PASCALS_PER_MEGAPASCAL).magnitude(),
            quanta_per_unit(),
        )) ==> v.times(scalar(PASCALS_PER_MEGAPASCAL)).over(
            scalar(PASCALS_PER_MEGAPASCAL),
        ).is_near(v, 51),
        v.is_zero() || v.is_ordinary() || (v.is_in_range() && in_range(
            v.magnitude() * scalar(PASCALS_PER_BAR).magnitude(),
            quanta_per_unit(),
        )) ==> v.times(scalar(PASCALS_PER_BAR)).over(scalar(PASCALS_PER_BAR)).is_near(v, 51),
        v.is_zero() || v.is_ordinary() || (v.is_in_range() && in_range(
            v.magnitude() * scalar(PASCALS_PER_ATMOSPHERE).magnitude(),
            quanta_per_unit(),
        )) ==> v.times(scalar(PASCALS_PER_ATMOSPHERE)).over(
            scalar(PASCALS_PER_ATMOSPHERE),
        ).is_near(v, 51),
        v.is_zero() || v.is_ordinary() || (v.is_in_range() && in_range(
            v.magnitude() * scalar(PASCALS_PER_PSI).magnitude(),
            quanta_per_unit(),
        )) ==> v.times(scalar(PASCALS_PER_PSI)).over(scalar(PASCALS_PER_PSI)).is_near(v, 51),
        v.is_zero() || v.is_ordinary() || (v.is_in_range() && in_range(
            v.magnitude() * scalar(PASCALS_PER_INCH_HG).magnitude(),
            quanta_per_unit(),
        )) ==> v.times(scalar(PASCALS_PER_INCH_HG)).over(
            scalar(PASCALS_PER_INCH_HG),
        ).is_near(v, 51),
        v.is_zero() || v.is_ordinary() || (v.is_in_range() && in_range(
            v.magnitude() * scalar(PASCALS_PER_MMHG).magnitude(),
            quanta_per_unit(),
        )) ==> v.times(scalar(PASCALS_PER_MMHG)).over(scalar(PASCALS_PER_MMHG)).is_near(v, 51),
{
    lemma_moderate(scalar(PASCALS_PER_KILOPASCAL), 43);
    lemma_round_trip(v, scalar(PASCALS_PER_KILOPASCAL));
    lemma_moderate(scalar(PASCALS_PER_MEGAPASCAL), 33);
    lemma_round_trip(v, scalar(PASCALS_PER_MEGAPASCAL));
    lemma_moderate(scalar(PASCALS_PER_BAR), 36);
    lemma_round_trip(v, scalar(PASCALS_PER_BAR));
    lemma_moderate(scalar(PASCALS_PER_ATMOSPHERE), 36);
    lemma_round_trip(v, scalar(PASCALS_PER_ATMOSPHERE));
    lemma_moderate(scalar(PASCALS_PER_PSI), 40);
    lemma_round_trip(v, scalar(PASCALS_PER_PSI));
    lemma_moderate(scalar(PASCALS_PER_INCH_HG), 41);
    lemma_round_trip(v, scalar(PASCALS_PER_INCH_HG));
    lemma_moderate(scalar(PASCALS_PER_MMHG), 45);
    lemma_round_trip(v, scalar(PASCALS_PER_MMHG));
}

/// The unit in which a pressure is shown.
#[derive(Clone, Copy, Debug, PartialEq, Eq, Structural)]
pub enum PressureUnit {
    Pascals,
    Kilopascals,
}

/// A pressure. Its view is the number of pascals.
#[derive(Clone, Copy, Debug)]
pub struct Pressure {
    pascals: Scalar,
}

impl View for Pressure {
    type V = Scalar;

    closed spec fn view(&self) -> Scalar {
        self.pascals
    }
}

impl Pressure {
    /// A pressure given in pascals, the unit it is held in.
    pub fn from_pascals(pa: Scalar) -> (r: Pressure)
        ensures
            r@ == pa,
    {
        Pressure { pascals: pa }
    }

    /// A pressure given in kilopascals.
    pub fn from_kilopascals(kpa: Scalar) -> (r: Pressure)
        ensures
            r@ == kpa.times(scalar(PASCALS_PER_KILOPASCAL)),
    {
        Pressure { pascals: kpa.mul(Scalar::from_bits(PASCALS_PER_KILOPASCAL)) }
    }

    /// A pressure given in megapascals.
    pub fn from_megapascals(mpa: Scalar) -> (r: Pressure)
        ensures
            r@ == mpa.times(scalar(PASCALS_PER_MEGAPASCAL)),
    {
        Pressure { pascals: mpa.mul(Scalar::from_bits(PASCALS_PER_MEGAPASCAL)) }
    }

    /// A pressure given in bar.
    pub fn from_bar(bar: Scalar) -> (r: Pressure)
        ensures
            r@ == bar.times(scalar(PASCALS_PER_BAR)),
    {
        Pressure { pascals: bar.mul(Scalar::from_bits(PASCALS_PER_BAR)) }
    }

    /// A pressure given in standard atmospheres.
    pub fn from_atmospheres(atm: Scalar) -> (r: Pressure)
        ensures
            r@ == atm.times(scalar(PASCALS_PER_ATMOSPHERE)),
    {
        Pressure { pascals: atm.mul(Scalar::from_bits(PASCALS_PER_ATMOSPHERE)) }
    }

    /// A pressure given in pounds per square inch.
    pub fn from_psi(psi: Scalar) -> (r: Pressure)
        ensures
            r@ == psi.times(scalar(PASCALS_PER_PSI)),
    {
        Pressure { pascals: psi.mul(Scalar::from_bits(PASCALS_PER_PSI)) }
    }

    /// A pressure given in inches of mercury.
    pub fn from_inches_hg(inhg: Scalar) -> (r: Pressure)
        ensures
            r@ == inhg.times(scalar(PASCALS_PER_INCH_HG)),
    {
        Pressure { pascals: inhg.mul(Scalar::from_bits(PASCALS_PER_INCH_HG)) }
    }

    /// A pressure given in millimeters of mercury.
    pub fn from_mmhg(mmhg: Scalar) -> (r: Pressure)
        ensures
            r@ == mmhg.times(scalar(PASCALS_PER_MMHG)),
    {
        Pressure { pascals: mmhg.mul(Scalar::from_bits(PASCALS_PER_MMHG)) }
    }

    /// The pressure in pascals.
    pub fn as_pascals(&self) -> (pa: Scalar)
        ensures
            pa == self@,
    {
        self.pascals
    }

    /// The pressure in kilopascals.
    pub fn as_kilopascals(&self) -> (kpa: Scalar)
        ensures
            kpa == self@.over(scalar(PASCALS_PER_KILOPASCAL)),
    {
        self.pascals.div(Scalar::from_bits(PASCALS_PER_KILOPASCAL))
    }

    /// The pressure in megapascals.
    pub fn as_megapascals(&self) -> (mpa: Scalar)
        ensures
            mpa == self@.over(scalar(PASCALS_PER_MEGAPASCAL)),
    {
        self.pascals.div(Scalar::from_bits(PASCALS_PER_MEGAPASCAL))
    }

    /// The pressure in bar.
    pub fn as_bar(&self) -> (bar: Scalar)
        ensures
            bar == self@.over(scalar(PASCALS_PER_BAR)),
    {
        self.pascals.div(Scalar::from_bits(PASCALS_PER_BAR))
    }

    /// The pressure in standard atmospheres.
    pub fn as_atmospheres(&self) -> (atm: Scalar)
        ensures
            atm == self@.over(scalar(PASCALS_PER_ATMOSPHERE)),
    {
        self.pascals.div(Scalar::from_bits(PASCALS_PER_ATMOSPHERE))
    }

    /// The pressure in pounds per square inch.
    pub fn as_psi(&self) -> (psi: Scalar)
        ensures
            psi == self@.over(scalar(PASCALS_PER_PSI)),
    {
        self.pascals.div(Scalar::from_bits(PASCALS_PER_PSI))
    }

    /// The pressure in inches of mercury.
    pub fn as_inches_hg(&self) -> (inhg: Scalar)
        ensures
            inhg == self@.over(scalar(PASCALS_PER_INCH_HG)),
    {
        self.pascals.div(Scalar::from_bits(PASCALS_PER_INCH_HG))
    }

    /// The pressure in millimeters of mercury.
    pub fn as_mmhg(&self) -> (mmhg: Scalar)
        ensures
            mmhg == self@.over(scalar(PASCALS_PER_MMHG)),
    {
        self.pascals.div(Scalar::from_bits(PASCALS_PER_MMHG))
    }

    /// The pressure of one standard atmosphere, 101325 pascals.
    pub fn sea_level() -> (p: Pressure)
        ensures
            p@ == scalar(PASCALS_PER_ATMOSPHERE),
            p@.is_integer(101_325),
    {
        proof {
            lemma_pressure_constants();
        }
        Pressure { pascals: Scalar::from_bits(PASCALS_PER_ATMOSPHERE) }
    }

    /// The unit for a pressure of this size: kilopascals from a thousand
    /// pascals up, pascals below that and for a NaN. The sign plays no
    /// part.
    pub open spec fn spec_display_unit(&self) -> PressureUnit {
        if !self@.is_nan() && self@.magnitude() >= 1000 * quanta_per_unit() {
            PressureUnit::Kilopascals
        } else {
            PressureUnit::Pascals
        }
    }

    /// Chooses the unit in which the pressure is shown.
    #[verifier::when_used_as_spec(spec_display_unit)]
    pub fn display_unit(&self) -> (unit: PressureUnit)
        ensures
            unit == self.display_unit(),
    {
        let size = self.pascals.abs();
        proof {
            lemma_pressure_constants();
        }
        if size >= Scalar::from_bits(PASCALS_PER_KILOPASCAL) {
            PressureUnit::Kilopascals
        } else {
            PressureUnit::Pascals
        }
    }

    /// The text of the pressure: the number of kilopascals or pascals, as
    /// `display_unit` chooses, with two decimals, and the unit.
    pub open spec fn text(&self) -> Seq<char> {
        match self.display_unit() {
            PressureUnit::Kilopascals => rendered(self@.over(scalar(PASCALS_PER_KILOPASCAL)), 2)
                + " kPa"@,
            PressureUnit::Pascals => rendered(self@, 2) + " Pa"@,
        }
    }

    /// The pressure as text, in the unit that suits its size.
    pub fn to_string(&self) -> (text: String)
        ensures
            text@ == self.text(),
    {
        match self.display_unit() {
            PressureUnit::Kilopascals => {
                let mut text = self.as_kilopascals().to_hundredths();
                text.append(" kPa");
                text
            },
            PressureUnit::Pascals => {
                let mut text = self.pascals.to_hundredths();
                text.append(" Pa");
                text
            },
        }
    }

    /// Whether the pressure is greater than zero: false of zero and of a NaN.
    pub fn is_positive(&self) -> (b: bool)
        ensures
            b == self@.is_positive(),
    {
        self.pascals.is_positive()
    }
}

/// Pressure + Pressure = Pressure.
impl Add for Pressure {
    type Output = Pressure;

    fn add(self, other: Pressure) -> (r: Pressure)
        ensures
            r@ == self@.plus(other@),
    {
        Pressure { pascals: self.pascals.add(other.pascals) }
    }
}

impl AddSpecImpl for Pressure {
    open spec fn obeys_add_spec() -> bool {
        true
    }

    open spec fn add_req(self, other: Pressure) -> bool {
        true
    }

    closed spec fn add_spec(self, other: Pressure) -> Pressure {
        Pressure { pascals: self.pascals.plus(other.pascals) }
    }
}

/// Pressure - Pressure = Pressure: nothing is clamped, the difference may be
/// negative.
impl Sub for Pressure {
    type Output = Pressure;

    fn sub(self, other: Pressure) -> (r: Pressure)
        ensures
            r@ == self@.minus(other@),
    {
        Pressure { pascals: self.pascals.sub(other.pascals) }
    }
}

impl SubSpecImpl for Pressure {
    open spec fn obeys_sub_spec() -> bool {
        true
    }

    open spec fn sub_req(self, other: Pressure) -> bool {
        true
    }

    closed spec fn sub_spec(self, other: Pressure) -> Pressure {
        Pressure { pascals: self.pascals.minus(other.pascals) }
    }
}

/// Pressure * scalar = Pressure.
impl Mul<Scalar> for Pressure {
    type Output = Pressure;

    fn mul(self, factor: Scalar) -> (r: Pressure)
        ensures
            r@ == self@.times(factor),
    {
        Pressure { pascals: self.pascals.mul(factor) }
    }
}

impl MulSpecImpl<Scalar> for Pressure {
    open spec fn obeys_mul_spec() -> bool {
        true
    }

    open spec fn mul_req(self, factor: Scalar) -> bool {
        true
    }

    closed spec fn mul_spec(self, factor: Scalar) -> Pressure {
        Pressure { pascals: self.pascals.times(factor) }
    }
}

/// Pressure / scalar = Pressure: a divisor of zero gives an infinity or a NaN.
impl Div<Scalar> for Pressure {
    type Output = Pressure;

    fn div(self, divisor: Scalar) -> (r: Pressure)
        ensures
            r@ == self@.over(divisor),
    {
        Pressure { pascals: self.pascals.div(divisor) }
    }
}

impl DivSpecImpl<Scalar> for Pressure {
    open spec fn obeys_div_spec() -> bool {
        true
    }

    open spec fn div_req(self, divisor: Scalar) -> bool {
        true
    }

    closed spec fn div_spec(self, divisor: Scalar) -> Pressure {
        Pressure { pascals: self.pascals.over(divisor) }
    }
}

/// Pressure / Pressure = a plain number, the ratio of the two: a divisor of
/// zero gives an infinity or a NaN.
impl Div<Pressure> for Pressure {
    type Output = Scalar;

    fn div(self, other: Pressure) -> (r: Scalar)
        ensures
            r == self@.over(other@),
    {
        self.pascals.div(other.pascals)
    }
}

impl DivSpecImpl<Pressure> for Pressure {
    open spec fn obeys_div_spec() -> bool {
        true
    }

    open spec fn div_req(self, other: Pressure) -> bool {
        true
    }

    open spec fn div_spec(self, other: Pressure) -> Scalar {
        self@.over(other@)
    }
}

/// Two pressures are equal where their scalars are: never where one is a NaN.
impl PartialEq for Pressure {
    fn eq(&self, other: &Pressure) -> (r: bool) {
        self.pascals == other.pascals
    }
}

impl PartialEqSpecImpl for Pressure {
    open spec fn obeys_eq_spec() -> bool {
        true
    }

    open spec fn eq_spec(&self, other: &Pressure) -> bool {
        self@.equals(other@)
    }
}

/// Pressures are ordered as their scalars are: not at all where one is a
/// NaN.
impl PartialOrd for Pressure {
    fn partial_cmp(&self, other: &Pressure) -> (r: Option<Ordering>) {
        self.pascals.partial_cmp(&other.pascals)
    }
}

impl PartialOrdSpecImpl for Pressure {
    open spec fn obeys_partial_cmp_spec() -> bool {
        true
    }

    open spec fn partial_cmp_spec(&self, other: &Pressure) -> Option<Ordering> {
        self@.compared_to(other@)
    }
}

} // verus!
