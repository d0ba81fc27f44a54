//! Multiplication.

use crate::arithmetic::infinity;
use crate::arithmetic::NAN_BITS;
use crate::rounding::lemma_rounding_exists;
use crate::rounding::lemma_rounding_is_unique;
use crate::rounding::round::brackets;
use crate::rounding::round::round;
use crate::rounding::round::signed;
use crate::rounding::round::steps_per_quantum;
use crate::scalar::quanta_per_unit;
use crate::scalar::Scalar;
use crate::scalar::INFINITY_BITS;
use crate::scalar::SIGN_BIT;
use core::ops::Mul;
use vstd::arithmetic::power2::*;
use vstd::prelude::*;
use vstd::std_specs::ops::MulSpecImpl;

verus! {

fn multiply(a: Scalar, b: Scalar) -> (r: Scalar)
    ensures
        r.is_product_of(a, b),
{
    let negative = (a.bits >= SIGN_BIT) != (b.bits >= SIGN_BIT);
    if a.is_nan() || b.is_nan() {
        return Scalar { bits: NAN_BITS };
    }
    let mine = a.abs().bits;
    let theirs = b.abs().bits;
    if mine == INFINITY_BITS || theirs == INFINITY_BITS {
        if mine == 0 || theirs == 0 {
            return Scalar { bits: NAN_BITS };
        }
        return signed(negative, INFINITY_BITS);
    }
    let (sa, ta) = a.parts();
    let (sb, tb) = b.parts();
    proof {
        assert(sa * sb < 0x400_0000_0000_0000_0000_0000_0000) by (nonlinear_arith)
            requires
                sa < 0x20_0000_0000_0000,
                sb < 0x20_0000_0000_0000,
        ;
    }
    let m: u128 = sa as u128 * sb as u128;
    let scale: u64 = ta + tb + 126;
    proof {
        lemma_product_brackets(a, b);
    }
    round(
        negative,
        m,
        scale,
        false,
        Ghost(a.magnitude() * b.magnitude()),
        Ghost(quanta_per_unit()),
    )
}

impl Mul for Scalar {
    type Output = Scalar;

    fn mul(self, other: Scalar) -> (r: Scalar)
        ensures
            r.is_product_of(self, other),
    {
        let r = multiply(self, other);
        proof {
            lemma_product_is_unique(r, self, other);
        }
        r
    }
}

impl MulSpecImpl for Scalar {
    open spec fn obeys_mul_spec() -> bool {
        true
    }

    open spec fn mul_req(self, other: Scalar) -> bool {
        true
    }

    open spec fn mul_spec(self, other: Scalar) -> Scalar {
        self.times(other)
    }
}

/// What `times` names is the product.
pub proof fn lemma_times(a: Scalar, b: Scalar)
    ensures
        a.times(b).is_product_of(a, b),
{
    let negative = a.sign() != b.sign();
    if a.is_nan() || b.is_nan() || (a.is_infinite() && b.is_zero()) || (a.is_zero()
        && b.is_infinite()) {
        assert(Scalar { bits: NAN_BITS }.is_product_of(a, b));
    } else if a.is_infinite() || b.is_infinite() {
        assert(infinity(negative).is_product_of(a, b));
    } else {
        let num = a.magnitude() * b.magnitude();
        let den = quanta_per_unit();
        lemma_pow2_pos(1074);
        lemma_rounding_exists(negative, num, den);
        let r = choose|r: Scalar| r.is_rounding_of(negative, num, den);
        assert(r.is_product_of(a, b));
    }
}

/// Two scalars have one product: `times` names it.
pub proof fn lemma_product_is_unique(r: Scalar, a: Scalar, b: Scalar)
    requires
        r.is_product_of(a, b),
    ensures
        r == a.times(b),
{
    let p = a.times(b);
    lemma_pow2_pos(1074);
    if p.is_rounding_of(a.sign() != b.sign(), a.magnitude() * b.magnitude(), quanta_per_unit()) {
        lemma_rounding_is_unique(
            r,
            p,
            a.sign() != b.sign(),
            a.magnitude() * b.magnitude(),
            quanta_per_unit(),
        );
    }
}

/// The product of two significands, taken as so many steps of the size that
/// the two scales give, is the exact product of the magnitudes.
proof fn lemma_product_brackets(a: Scalar, b: Scalar)
    ensures
        brackets(
            a.significand() * b.significand(),
            a.scale() + b.scale() + 126,
            false,
            a.magnitude() * b.magnitude(),
            quanta_per_unit(),
        ),
{
    let sa = a.significand() as int;
    let sb = b.significand() as int;
    let pa = pow2(a.scale()) as int;
    let pb = pow2(b.scale()) as int;
    let w = steps_per_quantum() as int;
    let one = quanta_per_unit() as int;
    let p = pow2(a.scale() + b.scale() + 126) as int;
    lemma_pow2_pos(1074);
    lemma_pow2_pos(a.scale() + b.scale() + 126);
    lemma_pow2_adds(a.scale(), b.scale());
    lemma_pow2_adds(a.scale() + b.scale(), 126);
    lemma_pow2_adds(126, 1074);
    let steps = sa * sb;
    let scales = pa * pb;
    let unit = p * one;
    assert(unit == scales * w) by (nonlinear_arith)
        requires
            unit == p * one,
            p == scales * pow2(126),
            w == pow2(126) * one,
    ;
    assert((sa * pa) * (sb * pb) == steps * scales) by (nonlinear_arith)
        requires
            steps == sa * sb,
            scales == pa * pb,
    ;
    assert(steps * p * one == steps * unit && (steps + 1) * p * one == steps * unit + unit)
        by (nonlinear_arith)
        requires
            unit == p * one,
    ;
    assert((steps * scales) * w == steps * unit) by (nonlinear_arith)
        requires
            unit == scales * w,
    ;
    assert(unit > 0) by (nonlinear_arith)
        requires
            unit == p * one,
            p > 0,
            one > 0,
    ;
}

} // verus!
