//! Double-precision scalars, held as IEEE 754 binary64 encodings and read
//! exactly: every encoding that is not a NaN stands for a whole number of
//! quanta, a quantum being 2^-1074, the least positive binary64 value.

use core::cmp::Ordering;
use vstd::arithmetic::mul::*;
use vstd::arithmetic::power2::*;
use vstd::prelude::*;
use vstd::std_specs::cmp::PartialEqSpecImpl;
use vstd::std_specs::cmp::PartialOrdSpecImpl;
use vstd::std_specs::ops::NegSpecImpl;

verus! {

/// The bit that holds the sign of a binary64 encoding.
pub const SIGN_BIT: u64 = 0x8000_0000_0000_0000;

/// The encoding of positive infinity; above it, sign aside, lie the NaNs.
pub const INFINITY_BITS: u64 = 0x7FF0_0000_0000_0000;

/// 2^52, the weight of the leading significand bit that a normal encoding
/// leaves out.
pub const IMPLICIT_BIT: u64 = 0x0010_0000_0000_0000;

/// The number of quanta in 1, that is 2^1074.
pub open spec fn quanta_per_unit() -> nat {
    pow2(1074)
}

/// An encoding with its sign bit cleared.
pub open spec fn sign_cleared(bits: u64) -> u64 {
    if bits >= SIGN_BIT {
        (bits - SIGN_BIT) as u64
    } else {
        bits
    }
}

/// An encoding with its sign bit flipped.
pub open spec fn sign_flipped(bits: u64) -> u64 {
    if bits >= SIGN_BIT {
        (bits - SIGN_BIT) as u64
    } else {
        (bits + SIGN_BIT) as u64
    }
}

/// The scalar with the given encoding.
pub open spec fn scalar(bits: u64) -> Scalar {
    Scalar { bits }
}

/// A double-precision scalar as its binary64 encoding.
#[derive(Clone, Copy, Debug)]
pub struct Scalar {
    pub bits: u64,
}

impl Scalar {
    /// Whether the sign bit is set: true of negative values, and also of -0
    /// and of half the NaNs.
    pub open spec fn sign(self) -> bool {
        self.bits >= SIGN_BIT
    }

    /// The encoding with its sign bit cleared.
    pub open spec fn abs_bits(self) -> u64 {
        sign_cleared(self.bits)
    }

    /// The biased exponent field, 0 to 2047.
    pub open spec fn exponent(self) -> nat {
        (self.abs_bits() / IMPLICIT_BIT) as nat
    }

    /// The fraction field, 52 bits.
    pub open spec fn fraction(self) -> nat {
        (self.abs_bits() % IMPLICIT_BIT) as nat
    }

    /// Whether the encoding is a NaN: it stands for no value and is
    /// unordered with every scalar, itself included.
    pub open spec fn spec_is_nan(&self) -> bool {
        self.abs_bits() > INFINITY_BITS
    }

    /// Whether the encoding is that of plus or minus infinity.
    pub open spec fn is_infinite(self) -> bool {
        self.abs_bits() == INFINITY_BITS
    }

    /// Whether the encoding stands for a number: a zero, a subnormal or a
    /// normal value.
    pub open spec fn is_finite(self) -> bool {
        self.abs_bits() < INFINITY_BITS
    }

    /// The significand as a whole number: the fraction, with the implicit
    /// bit in front unless the encoding is subnormal.
    pub open spec fn significand(self) -> nat {
        if self.exponent() == 0 {
            self.fraction()
        } else {
            IMPLICIT_BIT as nat + self.fraction()
        }
    }

    /// The power of two by which the significand is scaled to give quanta.
    pub open spec fn scale(self) -> nat {
        if self.exponent() == 0 {
            0
        } else {
            (self.exponent() - 1) as nat
        }
    }

    /// The absolute value in quanta. Infinity reads as 2^2098, above every
    /// finite magnitude; of a NaN the number means nothing.
    pub open spec fn magnitude(self) -> nat {
        self.significand() * pow2(self.scale())
    }

    /// The value in quanta, for an encoding that is not a NaN.
    pub open spec fn quanta(self) -> int {
        if self.sign() {
            -(self.magnitude() as int)
        } else {
            self.magnitude() as int
        }
    }

    /// Whether the scalar is greater than zero; false of both zeros and of a
    /// NaN.
    pub open spec fn spec_is_positive(&self) -> bool {
        !self.is_nan() && self.quanta() > 0
    }

    /// The scalar with its sign bit cleared.
    pub open spec fn spec_abs(&self) -> Scalar {
        Scalar { bits: self.abs_bits() }
    }

    /// The scalar with its sign bit flipped.
    pub open spec fn negated(self) -> Scalar {
        Scalar { bits: sign_flipped(self.bits) }
    }

    /// Equality of values: false where either side is a NaN, true of the
    /// two zeros.
    pub open spec fn equals(self, other: Scalar) -> bool {
        !self.is_nan() && !other.is_nan() && self.quanta() == other.quanta()
    }

    /// The order of values: none where either side is a NaN.
    pub open spec fn compared_to(self, other: Scalar) -> Option<Ordering> {
        if self.is_nan() || other.is_nan() {
            None
        } else if self.quanta() < other.quanta() {
            Some(Ordering::Less)
        } else if self.quanta() > other.quanta() {
            Some(Ordering::Greater)
        } else {
            Some(Ordering::Equal)
        }
    }

    /// Whether the scalar is the whole number `n`.
    pub open spec fn is_integer(self, n: int) -> bool {
        !self.is_nan() && self.quanta() == n * quanta_per_unit()
    }

    /// Whether the scalar is what the ratio `num / den` rounds to, as a
    /// decimal literal does to the nearest scalar.
    pub open spec fn is_ratio(self, num: nat, den: nat) -> bool {
        self.is_rounding_of(false, num * quanta_per_unit(), den)
    }

    /// The scalar with the given encoding, as `f64::to_bits` gives it.
    pub fn from_bits(bits: u64) -> (s: Scalar)
        ensures
            s.bits == bits,
    {
        Scalar { bits }
    }

    /// The encoding, as `f64::from_bits` takes it.
    pub fn to_bits(&self) -> (bits: u64)
        ensures
            bits == self.bits,
    {
        self.bits
    }

    /// Whether the scalar is a NaN.
    #[verifier::when_used_as_spec(spec_is_nan)]
    pub fn is_nan(&self) -> (b: bool)
        ensures
            b == self.is_nan(),
    {
        let cleared = self.bits & !SIGN_BIT;
        proof {
            lemma_clear_sign(self.bits);
        }
        cleared > INFINITY_BITS
    }

    /// The absolute value: the sign bit is cleared and nothing else changes,
    /// so a NaN stays a NaN and -0 becomes +0.
    #[verifier::when_used_as_spec(spec_abs)]
    pub fn abs(&self) -> (r: Scalar)
        ensures
            r == self.abs(),
    {
        proof {
            lemma_clear_sign(self.bits);
        }
        Scalar { bits: self.bits & !SIGN_BIT }
    }

    /// Whether `self` is less than `other`, neither being a NaN. Decided on
    /// the encodings: sign first, then the remaining bits as a whole number.
    fn below(&self, other: &Scalar) -> (b: bool)
        requires
            !self.is_nan(),
            !other.is_nan(),
        ensures
            b == (self.quanta() < other.quanta()),
    {
        let mine = self.abs().bits;
        let theirs = other.abs().bits;
        proof {
            lemma_magnitude_order(*self, *other);
            lemma_magnitude_zero(*self);
            lemma_magnitude_zero(*other);
        }
        if self.bits >= SIGN_BIT {
            if other.bits >= SIGN_BIT {
                theirs < mine
            } else {
                mine != 0 || theirs != 0
            }
        } else {
            if other.bits >= SIGN_BIT {
                false
            } else {
                mine < theirs
            }
        }
    }

    /// Whether the scalar is greater than zero.
    #[verifier::when_used_as_spec(spec_is_positive)]
    pub fn is_positive(&self) -> (b: bool)
        ensures
            b == self.is_positive(),
    {
        proof {
            lemma_magnitude_zero(*self);
        }
        0 < self.bits && self.bits <= INFINITY_BITS
    }
}

/// Equality of values: a NaN equals nothing, and the two zeros are equal.
impl PartialEq for Scalar {
    fn eq(&self, other: &Scalar) -> (r: bool) {
        if self.is_nan() || other.is_nan() {
            false
        } else {
            !self.below(other) && !other.below(self)
        }
    }
}

impl PartialEqSpecImpl for Scalar {
    open spec fn obeys_eq_spec() -> bool {
        true
    }

    open spec fn eq_spec(&self, other: &Scalar) -> bool {
        self.equals(*other)
    }
}

/// The order of values; a NaN is unordered with everything.
impl PartialOrd for Scalar {
    fn partial_cmp(&self, other: &Scalar) -> (r: Option<Ordering>) {
        if self.is_nan() || other.is_nan() {
            None
        } else if self.below(other) {
            Some(Ordering::Less)
        } else if other.below(self) {
            Some(Ordering::Greater)
        } else {
            Some(Ordering::Equal)
        }
    }
}

impl PartialOrdSpecImpl for Scalar {
    open spec fn obeys_partial_cmp_spec() -> bool {
        true
    }

    open spec fn partial_cmp_spec(&self, other: &Scalar) -> Option<Ordering> {
        self.compared_to(*other)
    }
}

/// Negation flips the sign bit and changes nothing else.
impl core::ops::Neg for Scalar {
    type Output = Scalar;

    fn neg(self) -> (r: Scalar) {
        proof {
            lemma_flip_sign(self.bits);
        }
        Scalar { bits: self.bits ^ SIGN_BIT }
    }
}

impl NegSpecImpl for Scalar {
    open spec fn obeys_neg_spec() -> bool {
        true
    }

    open spec fn neg_req(self) -> bool {
        true
    }

    open spec fn neg_spec(self) -> Scalar {
        self.negated()
    }
}

proof fn lemma_clear_sign(bits: u64)
    by (bit_vector)
    ensures
        bits & !SIGN_BIT == sign_cleared(bits),
{
}

proof fn lemma_flip_sign(bits: u64)
    by (bit_vector)
    ensures
        bits ^ SIGN_BIT == sign_flipped(bits),
{
}

/// The zeros, and no other encodings, have magnitude zero.
pub proof fn lemma_magnitude_zero(a: Scalar)
    ensures
        a.magnitude() == 0 <==> a.abs_bits() == 0,
{
    let zero = Scalar { bits: 0 };
    assert(zero.magnitude() == 0) by {
        lemma_mul_basics(pow2(0) as int);
    }
    lemma_magnitude_order(zero, a);
}

/// Among encodings with the sign bit cleared, a larger encoding has a larger
/// magnitude.
pub proof fn lemma_magnitude_increases(a: Scalar, b: Scalar)
    requires
        a.abs_bits() < b.abs_bits(),
    ensures
        a.magnitude() < b.magnitude(),
{
    let ea = a.exponent();
    let eb = b.exponent();
    assert(ea <= eb);
    lemma_pow2_pos(a.scale());
    lemma_pow2_pos(b.scale());
    if ea == eb {
        assert(a.significand() < b.significand());
        lemma_mul_strict_inequality(
            a.significand() as int,
            b.significand() as int,
            pow2(a.scale()) as int,
        );
    } else if ea == 0 {
        assert(a.magnitude() == a.fraction()) by {
            lemma2_to64();
            lemma_mul_basics(a.fraction() as int);
        }
        lemma_mul_inequality(1, pow2(b.scale()) as int, b.significand() as int);
        assert(b.significand() * pow2(b.scale()) >= b.significand()) by {
            lemma_mul_is_commutative(b.significand() as int, pow2(b.scale()) as int);
        }
    } else {
        // a's significand is below 2^53, and 2^53 * 2^(ea - 1) = 2^52 * 2^ea,
        // which is at most 2^52 * 2^(eb - 1), the least magnitude in b's
        // binade
        let pa = pow2(a.scale()) as int;
        let pb = pow2(b.scale()) as int;
        assert(pow2(ea) == 2 * pa) by {
            lemma_pow2_unfold(ea);
        }
        assert(pow2(ea) <= pb) by {
            if ea < b.scale() {
                lemma_pow2_strictly_increases(ea, b.scale());
            }
        }
        assert(a.significand() * pa < 2 * IMPLICIT_BIT * pa) by (nonlinear_arith)
            requires
                a.significand() < 2 * IMPLICIT_BIT,
                pa > 0,
        ;
        assert(IMPLICIT_BIT * pb <= b.significand() * pb) by (nonlinear_arith)
            requires
                IMPLICIT_BIT <= b.significand(),
                pb > 0,
        ;
        assert(IMPLICIT_BIT * (2 * pa) <= IMPLICIT_BIT * pb) by (nonlinear_arith)
            requires
                2 * pa <= pb,
        ;
        assert(2 * IMPLICIT_BIT * pa == IMPLICIT_BIT * (2 * pa)) by (nonlinear_arith);
    }
}

/// With the sign bit left aside, encodings are ordered as their magnitudes.
pub proof fn lemma_magnitude_order(a: Scalar, b: Scalar)
    ensures
        a.abs_bits() < b.abs_bits() <==> a.magnitude() < b.magnitude(),
        a.abs_bits() == b.abs_bits() <==> a.magnitude() == b.magnitude(),
{
    if a.abs_bits() < b.abs_bits() {
        lemma_magnitude_increases(a, b);
    } else if b.abs_bits() < a.abs_bits() {
        lemma_magnitude_increases(b, a);
    }
}

/// The absolute value keeps the magnitude and has no sign; it is a NaN where
/// the scalar is.
pub proof fn lemma_abs(x: Scalar)
    ensures
        x.abs().is_nan() == x.is_nan(),
        !x.abs().sign(),
        x.abs().magnitude() == x.magnitude(),
        x.abs().quanta() == x.magnitude(),
{
}

/// Negation turns the value into its opposite and back; it is a NaN where
/// the scalar is.
pub proof fn lemma_negated(x: Scalar)
    ensures
        x.negated().is_nan() == x.is_nan(),
        x.negated().quanta() == -x.quanta(),
        x.negated().negated() == x,
{
}

/// Two scalars of one sign that stand for the same value have the same
/// encoding: apart from the two zeros, a value has one encoding only.
pub proof fn lemma_one_encoding(a: Scalar, b: Scalar)
    requires
        a.sign() == b.sign(),
        a.quanta() == b.quanta(),
    ensures
        a == b,
{
    lemma_magnitude_order(a, b);
}

/// A scalar that is not negative and whose significand is scaled by
/// 2^(1074 - k) has, in units of 2^-k quanta, as many units as its
/// significand has ones.
pub proof fn lemma_scaled(x: Scalar, k: nat)
    requires
        !x.sign(),
        x.scale() + k == 1074,
    ensures
        x.quanta() * pow2(k) == x.significand() * quanta_per_unit(),
        pow2(k) > 0,
        quanta_per_unit() > 0,
{
    lemma_pow2_adds(k, x.scale());
    lemma_pow2_pos(k);
    lemma_pow2_pos(1074);
    let p = pow2(x.scale()) as int;
    let q = pow2(k) as int;
    let s = x.significand() as int;
    assert((s * p) * q == s * (q * p)) by (nonlinear_arith);
}

/// A scalar that is not negative and whose significand is `n * 2^k`, scaled
/// by 2^(1074 - k), is the whole number `n`.
pub proof fn lemma_whole(x: Scalar, n: nat, k: nat)
    requires
        !x.sign(),
        x.is_finite(),
        x.scale() + k == 1074,
        x.significand() == n * pow2(k),
    ensures
        x.is_integer(n as int),
{
    lemma_pow2_adds(k, x.scale());
    let p = pow2(x.scale()) as int;
    let q = pow2(k) as int;
    assert((n * q) * p == n * (q * p)) by (nonlinear_arith);
}

} // verus!
