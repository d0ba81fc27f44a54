//! Lengths, held in meters.

use crate::laws::in_range;
use crate::laws::lemma_moderate;
use crate::laws::lemma_round_trip;
use crate::rounding::lemma_ratio;
use crate::scalar::lemma_whole;
use crate::scalar::quanta_per_unit;
use crate::scalar::scalar;
use crate::scalar::Scalar;
use crate::text::rendered;
use core::cmp::Ordering;
use core::ops::Add;
use core::ops::Div;
use core::ops::Mul;
use core::ops::Sub;
use vstd::arithmetic::power2::lemma2_to64_rest;
use vstd::prelude::*;
use vstd::std_specs::cmp::PartialEqSpecImpl;
use vstd::std_specs::cmp::PartialOrdSpecImpl;
use vstd::std_specs::ops::AddSpecImpl;
use vstd::std_specs::ops::DivSpecImpl;
use vstd::std_specs::ops::MulSpecImpl;
use vstd::std_specs::ops::SubSpecImpl;
use vstd::string::StringExecFns;

verus! {

/// Meters in a kilometer: 1000.
pub const METERS_PER_KILOMETER: u64 = 0x408F_4000_0000_0000;

/// Meters in a foot: 0.3048.
pub const METERS_PER_FOOT: u64 = 0x3FD3_81D7_DBF4_87FD;

/// Meters in a nautical mile: 1852.
pub const METERS_PER_NAUTICAL_MILE: u64 = 0x409C_F000_0000_0000;

/// Meters in a statute mile: 1609.344.
pub const METERS_PER_MILE: u64 = 0x4099_2560_4189_374C;

/// The constants of this kind are the scalars that their decimal values
/// round to.
pub proof fn lemma_length_constants()
    ensures
        scalar(METERS_PER_KILOMETER).is_integer(1000),
        scalar(METERS_PER_FOOT).is_ratio(3048, 10000),
        scalar(METERS_PER_NAUTICAL_MILE).is_integer(1852),
        scalar(METERS_PER_MILE).is_ratio(1609344, 1000),
{
    lemma2_to64_rest();
    lemma_whole(scalar(METERS_PER_KILOMETER), 1000, 43);
    lemma_ratio(scalar(METERS_PER_FOOT), 3048, 10000, 54);
    lemma_whole(scalar(METERS_PER_NAUTICAL_MILE), 1852, 42);
    lemma_ratio(scalar(METERS_PER_MILE), 1609344, 1000, 42);
}

/// A value made into a length from any unit and read back in that unit
/// comes back within one part in 2^51, far inside one part in ten
/// thousand: where it is zero, where it is of ordinary size, and further
/// out as long as it and what it is made into are in range. (What is given
/// in the unit that is held comes back as it is.)
pub proof fn lemma_length_round_trip(v: Scalar)
    requires
        v.is_finite(),
    ensures
        v.is_zero() || v.is_ordinary() || (v.is_in_range() && in_range(
            v.magnitude() * scalar(METERS_PER_KILOMETER).magnitude(),
            quanta_per_unit(),
        )) ==> v.times(scalar(METERS_PER_KILOMETER)).over(
            scalar(METERS_PER_KILOMETER),
        ).is_near(v, 51),
        v.is_zero() || v.is_ordinary() || (v.is_in_range() && in_range(
            v.magnitude() * scalar(METERS_PER_FOOT).magnitude(),
            quanta_per_unit(),
        )) ==> v.times(scalar(METERS_PER_FOOT)).over(scalar(METERS_PER_FOOT)).is_near(v, 51),
        v.is_zero() || v.is_ordinary() || (v.is_in_range() && in_range(
            v.magnitude() * scalar(METERS_PER_NAUTICAL_MILE).magnitude(),
            quanta_per_unit(),
        )) ==> v.times(scalar(METERS_PER_NAUTICAL_MILE)).over(
            scalar(METERS_PER_NAUTICAL_MILE),
        ).is_near(v, 51),
        v.is_zero() || v.is_ordinary() || (v.is_in_range() && in_range(
            v.magnitude() * scalar(METERS_PER_MILE).magnitude(),
            quanta_per_unit(),
        )) ==> v.times(scalar(METERS_PER_MILE)).over(scalar(METERS_PER_MILE)).is_near(v, 51),
{
    lemma_moderate(scalar(METERS_PER_KILOMETER), 43);
    lemma_round_trip(v, scalar(METERS_PER_KILOMETER));
    lemma_moderate(scalar(METERS_PER_FOOT), 54);
    lemma_round_trip(v, scalar(METERS_PER_FOOT));
    lemma_moderate(scalar(METERS_PER_NAUTICAL_MILE), 42);
    lemma_round_trip(v, scalar(METERS_PER_NAUTICAL_MILE));
    lemma_moderate(scalar(METERS_PER_MILE), 42);
    lemma_round_trip(v, scalar(METERS_PER_MILE));
}

/// A length. Its view is the number of meters.
#[derive(Clone, Copy, Debug)]
pub struct Length {
    meters: Scalar,
}

impl View for Length {
    type V = Scalar;

    closed spec fn view(&self) -> Scalar {
        self.meters
    }
}

impl Length {
    /// A length given in meters, the unit it is held in.
    pub fn from_meters(m: Scalar) -> (r: Length)
        ensures
            r@ == m,
    {
        Length { meters: m }
    }

    /// A length given in kilometers.
    pub fn from_kilometers(km: Scalar) -> (r: Length)
        ensures
            r@ == km.times(scalar(METERS_PER_KILOMETER)),
    {
        Length { meters: km.mul(Scalar::from_bits(METERS_PER_KILOMETER)) }
    }

    /// A length given in feet.
    pub fn from_feet(ft: Scalar) -> (r: Length)
        ensures
            r@ == ft.times(scalar(METERS_PER_FOOT)),
    {
        Length { meters: ft.mul(Scalar::from_bits(METERS_PER_FOOT)) }
    }

    /// A length given in nautical miles.
    pub fn from_nautical_miles(nm: Scalar) -> (r: Length)
        ensures
            r@ == nm.times(scalar(METERS_PER_NAUTICAL_MILE)),
    {
        Length { meters: nm.mul(Scalar::from_bits(METERS_PER_NAUTICAL_MILE)) }
    }

    /// A length given in statute miles.
    pub fn from_miles(mi: Scalar) -> (r: Length)
        ensures
            r@ == mi.times(scalar(METERS_PER_MILE)),
    {
        Length { meters: mi.mul(Scalar::from_bits(METERS_PER_MILE)) }
    }

    /// The length in meters.
    pub fn as_meters(&self) -> (m: Scalar)
        ensures
            m == self@,
    {
        self.meters
    }

    /// The length in kilometers.
    pub fn as_kilometers(&self) -> (km: Scalar)
        ensures
            km == self@.over(scalar(METERS_PER_KILOMETER)),
    {
        self.meters.div(Scalar::from_bits(METERS_PER_KILOMETER))
    }

    /// The length in feet.
    pub fn as_feet(&self) -> (ft: Scalar)
        ensures
            ft == self@.over(scalar(METERS_PER_FOOT)),
    {
        self.meters.div(Scalar::from_bits(METERS_PER_FOOT))
    }

    /// The length in nautical miles.
    pub fn as_nautical_miles(&self) -> (nm: Scalar)
        ensures
            nm == self@.over(scalar(METERS_PER_NAUTICAL_MILE)),
    {
        self.meters.div(Scalar::from_bits(METERS_PER_NAUTICAL_MILE))
    }

    /// The length in statute miles.
    pub fn as_miles(&self) -> (mi: Scalar)
        ensures
            mi == self@.over(scalar(METERS_PER_MILE)),
    {
        self.meters.div(Scalar::from_bits(METERS_PER_MILE))
    }

    /// Whether the length is greater than zero: false of zero and of a NaN.
    pub fn is_positive(&self) -> (b: bool)
        ensures
            b == self@.is_positive(),
    {
        self.meters.is_positive()
    }

    /// The length without its sign.
    pub fn abs(&self) -> (r: Length)
        ensures
            r@ == self@.abs(),
    {
        Length { meters: self.meters.abs() }
    }

    /// The length as text: the number of meters with two decimals, and the
    /// unit.
    pub fn to_string(&self) -> (text: String)
        ensures
            text@ == rendered(self@, 2) + " m"@,
    {
        let mut text = self.meters.to_hundredths();
        text.append(" m");
        text
    }
}

/// Length + Length = Length.
impl Add for Length {
    type Output = Length;

    fn add(self, other: Length) -> (r: Length)
        ensures
            r@ == self@.plus(other@),
    {
        Length { meters: self.meters.add(other.meters) }
    }
}

impl AddSpecImpl for Length {
    open spec fn obeys_add_spec() -> bool {
        true
    }

    open spec fn add_req(self, other: Length) -> bool {
        true
    }

    closed spec fn add_spec(self, other: Length) -> Length {
        Length { meters: self.meters.plus(other.meters) }
    }
}

/// Length - Length = Length: nothing is clamped, the difference may be
/// negative.
impl Sub for Length {
    type Output = Length;

    fn sub(self, other: Length) -> (r: Length)
        ensures
            r@ == self@.minus(other@),
    {
        Length { meters: self.meters.sub(other.meters) }
    }
}

impl SubSpecImpl for Length {
    open spec fn obeys_sub_spec() -> bool {
        true
    }

    open spec fn sub_req(self, other: Length) -> bool {
        true
    }

    closed spec fn sub_spec(self, other: Length) -> Length {
        Length { meters: self.meters.minus(other.meters) }
    }
}

/// Length * scalar = Length.
impl Mul<Scalar> for Length {
    type Output = Length;

    fn mul(self, factor: Scalar) -> (r: Length)
        ensures
            r@ == self@.times(factor),
    {
        Length { meters: self.meters.mul(factor) }
    }
}

impl MulSpecImpl<Scalar> for Length {
    open spec fn obeys_mul_spec() -> bool {
        true
    }

    open spec fn mul_req(self, factor: Scalar) -> bool {
        true
    }

    closed spec fn mul_spec(self, factor: Scalar) -> Length {
        Length { meters: self.meters.times(factor) }
    }
}

/// Length / scalar = Length: a divisor of zero gives an infinity or a NaN.
impl Div<Scalar> for Length {
    type Output = Length;

    fn div(self, divisor: Scalar) -> (r: Length)
        ensures
            r@ == self@.over(divisor),
    {
        Length { meters: self.meters.div(divisor) }
    }
}

impl DivSpecImpl<Scalar> for Length {
    open spec fn obeys_div_spec() -> bool {
        true
    }

    open spec fn div_req(self, divisor: Scalar) -> bool {
        true
    }

    closed spec fn div_spec(self, divisor: Scalar) -> Length {
        Length { meters: self.meters.over(divisor) }
    }
}

/// Length / Length = a plain number, the ratio of the two: a divisor of zero
/// gives an infinity or a NaN.
impl Div<Length> for Length {
    type Output = Scalar;

    fn div(self, other: Length) -> (r: Scalar)
        ensures
            r == self@.over(other@),
    {
        self.meters.div(other.meters)
    }
}

impl DivSpecImpl<Length> for Length {
    open spec fn obeys_div_spec() -> bool {
        true
    }

    open spec fn div_req(self, other: Length) -> bool {
        true
    }

    open spec fn div_spec(self, other: Length) -> Scalar {
        self@.over(other@)
    }
}

/// Two lengths are equal where their scalars are: never where one is a NaN.
impl PartialEq for Length {
    fn eq(&self, other: &Length) -> (r: bool) {
        self.meters == other.meters
    }
}

impl PartialEqSpecImpl for Length {
    open spec fn obeys_eq_spec() -> bool {
        true
    }

    open spec fn eq_spec(&self, other: &Length) -> bool {
        self@.equals(other@)
    }
}

/// Lengths are ordered as their scalars are: not at all where one is a
/// NaN.
impl PartialOrd for Length {
    fn partial_cmp(&self, other: &Length) -> (r: Option<Ordering>) {
        self.meters.partial_cmp(&other.meters)
    }
}

impl PartialOrdSpecImpl for Length {
    open spec fn obeys_partial_cmp_spec() -> bool {
        true
    }

    open spec fn partial_cmp_spec(&self, other: &Length) -> Option<Ordering> {
        self@.compared_to(other@)
    }
}

} // verus!
