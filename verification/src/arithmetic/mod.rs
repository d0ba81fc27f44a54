//! The arithmetic of scalars: each operation gives the scalar that the
//! exact result rounds to, nearest with ties to even, as IEEE 754 asks.
//! What each operation gives is stated here; the operations themselves
//! follow, one module each.

pub mod product;
pub mod quotient;
pub mod remainder;
pub mod sum;

use crate::scalar::quanta_per_unit;
use crate::scalar::Scalar;
use crate::scalar::IMPLICIT_BIT;
use crate::scalar::INFINITY_BITS;
use crate::scalar::SIGN_BIT;
use vstd::prelude::*;

verus! {

/// The encoding of the NaN that an operation without a result gives.
pub const NAN_BITS: u64 = 0x7FF8_0000_0000_0000;

/// The infinity of the given sign.
pub open spec fn infinity(negative: bool) -> Scalar {
    Scalar {
        bits: if negative {
            (INFINITY_BITS + SIGN_BIT) as u64
        } else {
            INFINITY_BITS
        },
    }
}

/// The zero of the given sign.
pub open spec fn zero(negative: bool) -> Scalar {
    Scalar {
        bits: if negative {
            SIGN_BIT
        } else {
            0
        },
    }
}

impl Scalar {
    /// Whether the scalar is plus or minus zero.
    pub open spec fn is_zero(self) -> bool {
        self.abs_bits() == 0
    }

    /// Whether this scalar is the product of `a` and `b`: a NaN where either
    /// is one or where zero meets infinity, else an infinity where either is
    /// one, else what the exact product rounds to. The sign is negative
    /// where the signs of `a` and `b` differ.
    pub open spec fn is_product_of(self, a: Scalar, b: Scalar) -> bool {
        if a.is_nan() || b.is_nan() || (a.is_infinite() && b.is_zero()) || (a.is_zero()
            && b.is_infinite()) {
            self.bits == NAN_BITS
        } else if a.is_infinite() || b.is_infinite() {
            self.is_infinite() && self.sign() == (a.sign() != b.sign())
        } else {
            self.is_rounding_of(
                a.sign() != b.sign(),
                a.magnitude() * b.magnitude(),
                quanta_per_unit(),
            )
        }
    }

    /// Whether this scalar is the quotient of `a` by `b`: a NaN where either
    /// is one, where both are infinite or both zero; else an infinity where
    /// `a` is infinite or `b` zero; else zero where `b` is infinite; else
    /// what the exact quotient rounds to. The sign is negative where the
    /// signs of `a` and `b` differ.
    pub open spec fn is_quotient_of(self, a: Scalar, b: Scalar) -> bool {
        if a.is_nan() || b.is_nan() || (a.is_infinite() && b.is_infinite()) || (a.is_zero()
            && b.is_zero()) {
            self.bits == NAN_BITS
        } else if a.is_infinite() || b.is_zero() {
            self.is_infinite() && self.sign() == (a.sign() != b.sign())
        } else if b.is_infinite() {
            self.is_zero() && self.sign() == (a.sign() != b.sign())
        } else {
            self.is_rounding_of(
                a.sign() != b.sign(),
                a.magnitude() * quanta_per_unit(),
                b.magnitude(),
            )
        }
    }

    /// Whether this scalar is the sum of `a` and `b`: a NaN where either is
    /// one or where the two are infinities of opposite sign; else the
    /// infinity where one of them is infinite; else what the exact sum
    /// rounds to, with the sign of the exact sum. An exact sum of zero
    /// gives +0, and -0 only where both `a` and `b` are -0.
    pub open spec fn is_sum_of(self, a: Scalar, b: Scalar) -> bool {
        if a.is_nan() || b.is_nan() || (a.is_infinite() && b.is_infinite() && a.sign()
            != b.sign()) {
            self.bits == NAN_BITS
        } else if a.is_infinite() {
            self == a
        } else if b.is_infinite() {
            self == b
        } else if a.quanta() + b.quanta() == 0 {
            self.is_zero() && self.sign() == (a.sign() && b.sign())
        } else if a.quanta() + b.quanta() < 0 {
            self.is_rounding_of(true, (-(a.quanta() + b.quanta())) as nat, 1)
        } else {
            self.is_rounding_of(false, (a.quanta() + b.quanta()) as nat, 1)
        }
    }

    /// Whether this scalar is the difference of `a` and `b`: the sum of `a`
    /// and the opposite of `b`.
    pub open spec fn is_difference_of(self, a: Scalar, b: Scalar) -> bool {
        self.is_sum_of(a, b.negated())
    }

    /// Whether this scalar is the remainder of `a` on division by `b`: a NaN
    /// where either is one, where `a` is infinite or `b` zero; `a` itself
    /// where `b` is infinite; else the scalar with the sign of `a` whose
    /// magnitude is what the magnitude of `a` leaves on division by that
    /// of `b`. The remainder is exact: nothing is rounded.
    pub open spec fn is_remainder_of(self, a: Scalar, b: Scalar) -> bool {
        if a.is_nan() || b.is_nan() || a.is_infinite() || b.is_zero() {
            self.bits == NAN_BITS
        } else if b.is_infinite() {
            self == a
        } else {
            &&& self.is_finite()
            &&& self.sign() == a.sign()
            &&& self.magnitude() == a.magnitude() % b.magnitude()
        }
    }

    /// The product of the two scalars.
    pub open spec fn times(self, other: Scalar) -> Scalar {
        choose|r: Scalar| r.is_product_of(self, other)
    }

    /// The quotient of this scalar by the other.
    pub open spec fn over(self, other: Scalar) -> Scalar {
        choose|r: Scalar| r.is_quotient_of(self, other)
    }

    /// The sum of the two scalars.
    pub open spec fn plus(self, other: Scalar) -> Scalar {
        choose|r: Scalar| r.is_sum_of(self, other)
    }

    /// The difference of this scalar and the other.
    pub open spec fn minus(self, other: Scalar) -> Scalar {
        self.plus(other.negated())
    }

    /// The remainder of this scalar on division by the other.
    pub open spec fn modulo(self, other: Scalar) -> Scalar {
        choose|r: Scalar| r.is_remainder_of(self, other)
    }

    /// The significand and the power of two that scales it to quanta.
    pub(crate) fn parts(&self) -> (p: (u64, u64))
        ensures
            p.0 == self.significand(),
            p.1 == self.scale(),
            p.0 < 2 * IMPLICIT_BIT,
            p.1 <= 2046,
            p.1 > 0 ==> p.0 >= IMPLICIT_BIT,
    {
        let rest = self.abs().bits;
        let exponent = rest / IMPLICIT_BIT;
        let fraction = rest % IMPLICIT_BIT;
        if exponent == 0 {
            (fraction, 0)
        } else {
            (fraction + IMPLICIT_BIT, exponent - 1)
        }
    }
}

} // verus!
