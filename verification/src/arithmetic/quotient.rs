//! Division.

use crate::arithmetic::infinity;
use crate::arithmetic::zero;
use crate::arithmetic::NAN_BITS;
use crate::rounding::lemma_rounding_exists;
use crate::rounding::lemma_rounding_is_unique;
use crate::rounding::lemma_zero_rounds_to_zero;
use crate::rounding::round::bit_length;
use crate::rounding::round::brackets;
use crate::rounding::round::power_of_two;
use crate::rounding::round::round;
use crate::rounding::round::signed;
use crate::rounding::round::steps_per_quantum;
use crate::scalar::lemma_magnitude_zero;
use crate::scalar::quanta_per_unit;
use crate::scalar::Scalar;
use crate::scalar::IMPLICIT_BIT;
use crate::scalar::INFINITY_BITS;
use crate::scalar::SIGN_BIT;
use core::ops::Div;
use vstd::arithmetic::mul::*;
use vstd::arithmetic::power2::*;
use vstd::prelude::*;
use vstd::std_specs::ops::DivSpecImpl;

verus! {

fn divide(a: Scalar, b: Scalar) -> (r: Scalar)
    ensures
        r.is_quotient_of(a, b),
{
    let negative = (a.bits >= SIGN_BIT) != (b.bits >= SIGN_BIT);
    if a.is_nan() || b.is_nan() {
        return Scalar { bits: NAN_BITS };
    }
    let mine = a.abs().bits;
    let theirs = b.abs().bits;
    if mine == INFINITY_BITS {
        if theirs == INFINITY_BITS {
            return Scalar { bits: NAN_BITS };
        }
        return signed(negative, INFINITY_BITS);
    }
    if theirs == INFINITY_BITS {
        return signed(negative, 0);
    }
    if theirs == 0 {
        if mine == 0 {
            return Scalar { bits: NAN_BITS };
        }
        return signed(negative, INFINITY_BITS);
    }
    if mine == 0 {
        let r = signed(negative, 0);
        proof {
            lemma_magnitude_zero(a);
            lemma_magnitude_zero(b);
            lemma_mul_basics(quanta_per_unit() as int);
            lemma_zero_rounds_to_zero(r, 0, b.magnitude());
        }
        return r;
    }
    let (sa, ta) = a.parts();
    let (sb, tb) = b.parts();
    proof {
        lemma_magnitude_zero(a);
        lemma_magnitude_zero(b);
        lemma_pow2_pos(ta as nat);
        lemma_pow2_pos(tb as nat);
        lemma_mul_basics(pow2(ta as nat) as int);
        lemma_mul_basics(pow2(tb as nat) as int);
    }
    let (na, places_a) = normalized(sa);
    let (nb, places_b) = normalized(sb);
    proof {
        lemma2_to64();
    }
    let wide: u128 = na as u128 * 0x1_0000_0000_0000_0000;
    let m: u128 = wide / nb as u128;
    let more = wide % nb as u128 != 0;
    let scale: u64 = ta + places_b + 2210 - places_a - tb;
    proof {
        lemma_quotient_brackets(
            a,
            b,
            places_a as nat,
            places_b as nat,
            scale as nat,
            m as nat,
            more,
        );
    }
    round(
        negative,
        m,
        scale,
        more,
        Ghost(a.magnitude() * quanta_per_unit()),
        Ghost(b.magnitude()),
    )
}

/// A significand that is not zero, shifted up until its leading bit is the
/// implicit bit, and the number of places it was shifted by.
fn normalized(significand: u64) -> (n: (u64, u64))
    requires
        0 < significand < 2 * IMPLICIT_BIT,
    ensures
        n.1 <= 52,
        n.0 == significand * pow2(n.1 as nat),
        IMPLICIT_BIT <= n.0 < 2 * IMPLICIT_BIT,
{
    let l = bit_length(significand as u128);
    proof {
        lemma2_to64_rest();
        if l > 53 {
            lemma_pow2_strictly_increases(53, (l - 1) as nat);
        }
    }
    let places: u32 = 53 - l;
    let factor = power_of_two(places);
    proof {
        lemma_pow2_adds(places as nat, l as nat);
        lemma_pow2_adds(places as nat, (l - 1) as nat);
        lemma_pow2_pos(places as nat);
        assert(significand * factor < pow2(53) && significand * factor >= pow2(52))
            by (nonlinear_arith)
            requires
                pow2((l - 1) as nat) <= significand < pow2(l as nat),
                factor > 0,
                pow2(53) == factor * pow2(l as nat),
                pow2(52) == factor * pow2((l - 1) as nat),
        ;
    }
    ((significand as u128 * factor) as u64, places as u64)
}

impl Div for Scalar {
    type Output = Scalar;

    fn div(self, other: Scalar) -> (r: Scalar)
        ensures
            r.is_quotient_of(self, other),
    {
        let r = divide(self, other);
        proof {
            lemma_quotient_is_unique(r, self, other);
        }
        r
    }
}

impl DivSpecImpl for Scalar {
    open spec fn obeys_div_spec() -> bool {
        true
    }

    open spec fn div_req(self, other: Scalar) -> bool {
        true
    }

    open spec fn div_spec(self, other: Scalar) -> Scalar {
        self.over(other)
    }
}

/// What `over` names is the quotient.
pub proof fn lemma_over(a: Scalar, b: Scalar)
    ensures
        a.over(b).is_quotient_of(a, b),
{
    let negative = a.sign() != b.sign();
    if a.is_nan() || b.is_nan() || (a.is_infinite() && b.is_infinite()) || (a.is_zero()
        && b.is_zero()) {
        assert(Scalar { bits: NAN_BITS }.is_quotient_of(a, b));
    } else if a.is_infinite() || b.is_zero() {
        assert(infinity(negative).is_quotient_of(a, b));
    } else if b.is_infinite() {
        assert(zero(negative).is_quotient_of(a, b));
    } else {
        let num = a.magnitude() * quanta_per_unit();
        let den = b.magnitude();
        lemma_magnitude_zero(b);
        lemma_rounding_exists(negative, num, den);
        let r = choose|r: Scalar| r.is_rounding_of(negative, num, den);
        assert(r.is_quotient_of(a, b));
    }
}

/// Two scalars have one quotient: `over` names it.
pub proof fn lemma_quotient_is_unique(r: Scalar, a: Scalar, b: Scalar)
    requires
        r.is_quotient_of(a, b),
    ensures
        r == a.over(b),
{
    let q = a.over(b);
    lemma_magnitude_zero(b);
    if q.is_rounding_of(a.sign() != b.sign(), a.magnitude() * quanta_per_unit(), b.magnitude())
        && !b.is_zero() {
        lemma_rounding_is_unique(
            r,
            q,
            a.sign() != b.sign(),
            a.magnitude() * quanta_per_unit(),
            b.magnitude(),
        );
    }
}

/// The whole part of the quotient of two normalized significands, the
/// dividend extended by 64 bits, taken as so many steps of the size that
/// the scales and the shifts give, is the whole part of the exact quotient
/// of the magnitudes; and something is left over where the division did
/// not come out even.
proof fn lemma_quotient_brackets(
    a: Scalar,
    b: Scalar,
    places_a: nat,
    places_b: nat,
    scale: nat,
    m: nat,
    more: bool,
)
    requires
        b.significand() > 0,
        scale + places_a + b.scale() == a.scale() + places_b + 2210,
        m == (a.significand() * pow2(places_a) * pow2(64)) / (b.significand() * pow2(places_b)),
        more == ((a.significand() * pow2(places_a) * pow2(64)) % (b.significand() * pow2(
            places_b,
        )) != 0),
        b.significand() * pow2(places_b) >= IMPLICIT_BIT,
        a.significand() * pow2(places_a) >= IMPLICIT_BIT,
        a.significand() * pow2(places_a) < 2 * IMPLICIT_BIT,
        b.significand() * pow2(places_b) < 2 * IMPLICIT_BIT,
    ensures
        brackets(m, scale, more, a.magnitude() * quanta_per_unit(), b.magnitude()),
        m < 0x100_0000_0000_0000_0000_0000_0000_0000,
        m >= 0x40_0000_0000_0000,
{
    let sa = a.significand() as int;
    let sb = b.significand() as int;
    let pa = pow2(a.scale()) as int;
    let pb = pow2(b.scale()) as int;
    let ua = pow2(places_a) as int;
    let ub = pow2(places_b) as int;
    let ps = pow2(scale) as int;
    let w64 = pow2(64) as int;
    let big = pow2(2210) as int;
    let one = quanta_per_unit() as int;
    let w = steps_per_quantum() as int;
    let dividend = sa * ua * w64;
    let divisor = sb * ub;
    let rest = dividend % divisor;
    lemma2_to64();
    lemma_pow2_pos(a.scale());
    lemma_pow2_pos(b.scale());
    lemma_pow2_pos(places_a);
    lemma_pow2_pos(places_b);
    lemma_pow2_pos(scale);
    lemma_pow2_pos(2210);
    lemma_pow2_pos(1074);
    lemma_pow2_pos(1200);
    vstd::arithmetic::div_mod::lemma_fundamental_div_mod(dividend, divisor);
    vstd::arithmetic::div_mod::lemma_mod_bound(dividend, divisor);
    assert(dividend == divisor * m + rest);
    // the size of the whole part
    assert(dividend >= 0x10_0000_0000_0000 * w64 && dividend < 0x20_0000_0000_0000 * w64)
        by (nonlinear_arith)
        requires
            dividend == (sa * ua) * w64,
            0x10_0000_0000_0000 <= sa * ua < 0x20_0000_0000_0000,
            w64 > 0,
    ;
    assert(m < 0x100_0000_0000_0000_0000_0000_0000_0000 && m >= 0x40_0000_0000_0000)
        by (nonlinear_arith)
        requires
            dividend == divisor * m + rest,
            0 <= rest < divisor,
            0x10_0000_0000_0000 <= divisor < 0x20_0000_0000_0000,
            0x10_0000_0000_0000 * 0x1_0000_0000_0000_0000 <= dividend,
            dividend < 0x20_0000_0000_0000 * 0x1_0000_0000_0000_0000,
            m >= 0,
    ;
    // both sides on one scale
    lemma_pow2_adds(scale, b.scale());
    lemma_pow2_adds(scale + b.scale(), places_a);
    lemma_pow2_adds(a.scale(), places_b);
    lemma_pow2_adds(a.scale() + places_b, 2210);
    lemma_pow2_adds(1074, 1200);
    lemma_pow2_adds(2210, 64);
    let g = pa * big;
    assert(g > 0) by (nonlinear_arith)
        requires
            g == pa * big,
            pa > 0,
            big > 0,
    ;
    assert(ps * pb * ua == pa * ub * big);
    assert(one * w == big * w64);
    let low = m * ps * (sb * pb);
    let exact = (sa * pa) * one * w;
    let high = (m + 1) * ps * (sb * pb);
    let k = ps * pb * ua;
    let msb = m * sb;
    assert(low * ua == msb * k) by (nonlinear_arith)
        requires
            low == m * ps * (sb * pb),
            k == ps * pb * ua,
            msb == m * sb,
    ;
    assert(high * ua == (msb + sb) * k) by (nonlinear_arith)
        requires
            high == (m + 1) * ps * (sb * pb),
            k == ps * pb * ua,
            msb == m * sb,
    ;
    assert(k == ub * g) by (nonlinear_arith)
        requires
            k == pa * ub * big,
            g == pa * big,
    ;
    assert(msb * k == (divisor * m) * g && (msb + sb) * k == (divisor * m + divisor) * g)
        by (nonlinear_arith)
        requires
            k == ub * g,
            msb == m * sb,
            divisor == sb * ub,
    ;
    let ow = one * w;
    assert(exact == (sa * pa) * ow) by (nonlinear_arith)
        requires
            exact == (sa * pa) * one * w,
            ow == one * w,
    ;
    assert(exact * ua == dividend * g) by (nonlinear_arith)
        requires
            exact == (sa * pa) * ow,
            dividend == sa * ua * w64,
            g == pa * big,
            ow == big * w64,
    ;
    assert(low * ua <= exact * ua < high * ua && (rest != 0 <==> low * ua < exact * ua))
        by (nonlinear_arith)
        requires
            low * ua == (divisor * m) * g,
            high * ua == (divisor * m + divisor) * g,
            exact * ua == dividend * g,
            dividend == divisor * m + rest,
            0 <= rest < divisor,
            g > 0,
    ;
    assert(low <= exact < high && (rest != 0 <==> low < exact)) by (nonlinear_arith)
        requires
            low * ua <= exact * ua < high * ua,
            rest != 0 <==> low * ua < exact * ua,
            ua > 0,
    ;
    assert(a.magnitude() * quanta_per_unit() * steps_per_quantum() == exact);
    assert(m * pow2(scale) * b.magnitude() == low);
    assert((m + 1) * pow2(scale) * b.magnitude() == high);
}

} // verus!
