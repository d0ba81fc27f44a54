//! What holds of the arithmetic of scalars, and so of every quantity: the
//! operators and the conversions of the quantities are those of the
//! scalars they hold.

pub mod chain;

use crate::arithmetic::zero;
use crate::arithmetic::product::lemma_product_is_unique;
use crate::arithmetic::product::lemma_times;
use crate::arithmetic::quotient::lemma_over;
use crate::arithmetic::sum::lemma_plus;
use crate::arithmetic::sum::lemma_sum_is_unique;
use crate::rounding::encode;
use crate::rounding::lemma_encode;
use crate::rounding::lemma_rounding_error;
use crate::rounding::lemma_rounding_keeps_order;
use crate::scalar::lemma_magnitude_order;
use crate::scalar::lemma_magnitude_zero;
use crate::scalar::lemma_whole;
use crate::scalar::quanta_per_unit;
use crate::scalar::scalar;
use crate::scalar::Scalar;
use crate::scalar::IMPLICIT_BIT;
use vstd::arithmetic::mul::lemma_mul_basics;
use vstd::arithmetic::power2::*;
use vstd::prelude::*;

verus! {

/// The encoding of one.
pub const ONE: u64 = 0x3FF0_0000_0000_0000;

/// Whether the exact value `num / den`, in quanta, lies between 2^-1021 and
/// 2^1023: in the range of the normal scalars, a binade away from either
/// end of it.
pub open spec fn in_range(num: nat, den: nat) -> bool {
    pow2(53) * den <= num <= pow2(2097) * den
}

/// The larger of the magnitudes of two scalars.
pub open spec fn larger_magnitude(a: Scalar, b: Scalar) -> nat {
    if a.magnitude() >= b.magnitude() {
        a.magnitude()
    } else {
        b.magnitude()
    }
}

impl Scalar {
    /// Whether the scalar is within one part in 2^e of the other, taken
    /// relative to the other.
    pub open spec fn is_near(self, other: Scalar, e: nat) -> bool {
        &&& !self.is_nan()
        &&& !other.is_nan()
        &&& -other.magnitude() <= (self.quanta() - other.quanta()) * pow2(e) <= other.magnitude()
    }

    /// Whether the scalar is within `size` parts in 2^e of the other, both
    /// in quanta.
    pub open spec fn is_within(self, other: Scalar, size: nat, e: nat) -> bool {
        &&& !self.is_nan()
        &&& !other.is_nan()
        &&& -size <= (self.quanta() - other.quanta()) * pow2(e) <= size
    }

    /// Whether the scalar is finite and between 2^-1021 and 2^1023 in
    /// magnitude.
    pub open spec fn is_in_range(self) -> bool {
        self.is_finite() && in_range(self.magnitude(), 1)
    }

    /// Whether the scalar is of ordinary size: finite, and between 2^-1000
    /// and 2^1000 in magnitude, which takes in all from 1e-300 to 1e300.
    pub open spec fn is_ordinary(self) -> bool {
        self.is_finite() && pow2(74) <= self.magnitude() <= pow2(2074)
    }

    /// Whether the scalar is of moderate size, as a conversion factor is:
    /// finite, and between 2^-21 and 2^21 in magnitude.
    pub open spec fn is_moderate(self) -> bool {
        &&& self.is_finite()
        &&& quanta_per_unit() <= self.magnitude() * pow2(21)
        &&& self.magnitude() <= quanta_per_unit() * pow2(21)
    }
}

/// The product does not depend on the order of the factors, nor the sum on
/// the order of the terms.
pub proof fn lemma_order_is_free(a: Scalar, b: Scalar)
    ensures
        a.times(b) == b.times(a),
        a.plus(b) == b.plus(a),
{
    lemma_times(a, b);
    assert(a.magnitude() * b.magnitude() == b.magnitude() * a.magnitude()) by (nonlinear_arith);
    lemma_product_is_unique(a.times(b), b, a);
    lemma_plus(a, b);
    lemma_sum_is_unique(a.plus(b), b, a);
}

/// A finite scalar less itself is zero, and plus zero at that. (Of an
/// infinity or a NaN the difference is a NaN.)
pub proof fn lemma_minus_self(a: Scalar)
    requires
        a.is_finite(),
    ensures
        a.minus(a) == zero(false),
{
    lemma_plus(a, a);
}

/// A finite scalar other than zero, over itself, is one. (Of a zero, an
/// infinity or a NaN the quotient is a NaN.)
pub proof fn lemma_over_self(a: Scalar)
    requires
        a.is_finite(),
        !a.is_zero(),
    ensures
        a.over(a) == scalar(ONE),
        scalar(ONE).is_integer(1),
{
    let q = a.over(a);
    let one = scalar(ONE);
    let size = a.magnitude();
    lemma_over(a, a);
    lemma2_to64_rest();
    lemma_whole(one, 1, 52);
    lemma_magnitude_zero(a);
    let exact = size * quanta_per_unit();
    assert(q.is_rounding_of(false, exact, size));
    assert(one.magnitude() * size == exact) by (nonlinear_arith)
        requires
            one.magnitude() == quanta_per_unit(),
            exact == size * quanta_per_unit(),
    ;
    assert(one.gap(exact, size) == 0);
    assert(q.gap(exact, size) <= one.gap(exact, size));
    assert(q.magnitude() == one.magnitude()) by (nonlinear_arith)
        requires
            q.magnitude() * size == one.magnitude() * size,
            size > 0,
    ;
    lemma_magnitude_order(q, one);
}

/// A product divided by the factor it was made with gives the first scalar
/// back within one part in 2^51, where the scalar and the product are in
/// range; zero comes back as it is.
pub proof fn lemma_times_over(v: Scalar, k: Scalar)
    requires
        v.is_finite(),
        k.is_finite(),
        !k.is_zero(),
        v.is_zero() || (v.is_in_range() && in_range(
            v.magnitude() * k.magnitude(),
            quanta_per_unit(),
        )),
    ensures
        v.times(k).over(k).is_near(v, 51),
{
    let p = v.times(k);
    let r = p.over(k);
    let size = v.magnitude() as int;
    let factor = k.magnitude() as int;
    let one = quanta_per_unit() as int;
    lemma_times(v, k);
    lemma_over(p, k);
    lemma_magnitude_zero(v);
    lemma_magnitude_zero(k);
    lemma_pow2_pos(1074);
    lemma2_to64_rest();
    lemma_mul_basics(factor);
    lemma_mul_basics(one);
    if v.is_zero() {
        lemma_zero_is_kept(p, v.sign() != k.sign(), one as nat);
        lemma_zero_is_kept(r, v.sign(), factor as nat);
        lemma_mul_basics(pow2(51) as int);
    } else {
        let x = size * factor;
        lemma_range(x as nat, one as nat);
        lemma_rounded_in_range(p, v.sign() != k.sign(), x as nat, one as nat);
        let y = p.magnitude() * one;
        assert(x >= pow2(53) * factor) by (nonlinear_arith)
            requires
                x == size * factor,
                size >= pow2(53),
                factor > 0,
        ;
        assert(x <= pow2(2097) * factor) by (nonlinear_arith)
            requires
                x == size * factor,
                size <= pow2(2097),
                factor > 0,
        ;
        lemma_range(x as nat, factor as nat);
        lemma_two_roundings(x, y, pow2(53) * factor, pow2(2097) * factor);
        lemma_rounded_in_range(r, v.sign(), y as nat, factor as nat);
        let z = r.magnitude() * factor;
        assert(-x <= (z - x) * 0x8_0000_0000_0000 <= x);
        let d = r.magnitude() - size;
        assert(-size <= d * 0x8_0000_0000_0000 <= size) by (nonlinear_arith)
            requires
                -(size * factor) <= (r.magnitude() * factor - size * factor) * 0x8_0000_0000_0000
                    <= size * factor,
                d == r.magnitude() - size,
                factor > 0,
        ;
    }
}

/// A quotient multiplied by the divisor it was made with gives the first
/// scalar back within one part in 2^51, where the scalar and the quotient
/// are in range; zero comes back as it is.
pub proof fn lemma_over_times(v: Scalar, k: Scalar)
    requires
        v.is_finite(),
        k.is_finite(),
        !k.is_zero(),
        v.is_zero() || (v.is_in_range() && in_range(
            v.magnitude() * quanta_per_unit(),
            k.magnitude(),
        )),
    ensures
        v.over(k).times(k).is_near(v, 51),
{
    let q = v.over(k);
    let r = q.times(k);
    let size = v.magnitude() as int;
    let factor = k.magnitude() as int;
    let one = quanta_per_unit() as int;
    lemma_over(v, k);
    lemma_times(q, k);
    lemma_magnitude_zero(v);
    lemma_magnitude_zero(k);
    lemma_pow2_pos(1074);
    lemma2_to64_rest();
    lemma_mul_basics(factor);
    lemma_mul_basics(one);
    if v.is_zero() {
        lemma_zero_is_kept(q, v.sign() != k.sign(), factor as nat);
        lemma_zero_is_kept(r, v.sign(), one as nat);
        lemma_mul_basics(pow2(51) as int);
    } else {
        let x = size * one;
        lemma_range(x as nat, factor as nat);
        lemma_rounded_in_range(q, v.sign() != k.sign(), x as nat, factor as nat);
        let y = q.magnitude() * factor;
        assert(x >= pow2(53) * one) by (nonlinear_arith)
            requires
                x == size * one,
                size >= pow2(53),
                one > 0,
        ;
        assert(x <= pow2(2097) * one) by (nonlinear_arith)
            requires
                x == size * one,
                size <= pow2(2097),
                one > 0,
        ;
        lemma_range(x as nat, one as nat);
        lemma_two_roundings(x, y, pow2(53) * one, pow2(2097) * one);
        lemma_rounded_in_range(r, v.sign(), y as nat, one as nat);
        let z = r.magnitude() * one;
        assert(-x <= (z - x) * 0x8_0000_0000_0000 <= x);
        let d = r.magnitude() - size;
        assert(-size <= d * 0x8_0000_0000_0000 <= size) by (nonlinear_arith)
            requires
                -(size * one) <= (r.magnitude() * one - size * one) * 0x8_0000_0000_0000 <= size
                    * one,
                d == r.magnitude() - size,
                one > 0,
        ;
    }
}

/// A positive normal scalar between 2^-21 and 2^21 is of moderate size.
pub proof fn lemma_moderate(k: Scalar, places: nat)
    requires
        k.is_finite(),
        k.exponent() >= 1,
        k.scale() + places == 1074,
        32 <= places <= 73,
    ensures
        k.is_moderate(),
        !k.is_zero(),
{
    let one = quanta_per_unit() as int;
    let size = k.magnitude() as int;
    let p = pow2(k.scale()) as int;
    let s = k.significand() as int;
    lemma2_to64();
    lemma2_to64_rest();
    lemma_pow2_adds(places, k.scale());
    lemma_pow2_pos(k.scale());
    lemma_pow2_adds(21, 52);
    lemma_pow2_adds(32, 21);
    if places > 32 {
        lemma_pow2_strictly_increases(32, places);
    }
    if places < 73 {
        lemma_pow2_strictly_increases(places, 73);
    }
    assert(one <= size * pow2(21) && size <= one * pow2(21)) by (nonlinear_arith)
        requires
            one == pow2(places) * p,
            size == s * p,
            pow2(52) <= s < pow2(53),
            pow2(32) <= pow2(places) <= pow2(73),
            pow2(73) == pow2(21) * pow2(52),
            pow2(53) == pow2(32) * pow2(21),
            p > 0,
            pow2(21) > 0,
    ;
    lemma_magnitude_zero(k);
    assert(size > 0) by (nonlinear_arith)
        requires
            size == s * p,
            s > 0,
            p > 0,
    ;
}

/// A value comes back from a unit within one part in 2^51, whether it is
/// multiplied by a factor of moderate size and then divided by it or the
/// other way round: where it is zero, where it is of ordinary size, and
/// further out as long as it and what it is made into are in range.
pub proof fn lemma_round_trip(v: Scalar, k: Scalar)
    requires
        v.is_finite(),
        k.is_moderate(),
        !k.is_zero(),
    ensures
        v.is_zero() || v.is_ordinary() || (v.is_in_range() && in_range(
            v.magnitude() * k.magnitude(),
            quanta_per_unit(),
        )) ==> v.times(k).over(k).is_near(v, 51),
        v.is_zero() || v.is_ordinary() || (v.is_in_range() && in_range(
            v.magnitude() * quanta_per_unit(),
            k.magnitude(),
        )) ==> v.over(k).times(k).is_near(v, 51),
{
    if v.is_ordinary() {
        let size = v.magnitude() as int;
        let factor = k.magnitude() as int;
        let one = quanta_per_unit() as int;
        lemma_pow2_adds(53, 21);
        lemma_pow2_adds(2074, 21);
        lemma_pow2_strictly_increases(53, 74);
        lemma_pow2_strictly_increases(2074, 2097);
        lemma_pow2_strictly_increases(2095, 2097);
        lemma_pow2_pos(21);
        lemma_pow2_pos(53);
        lemma_pow2_pos(1074);
        lemma_mul_basics(size);
        let low = pow2(53) as int;
        let high = pow2(2097) as int;
        let wide = pow2(21) as int;
        assert(low * wide <= size);
        assert(size * wide <= pow2(2095)) by (nonlinear_arith)
            requires
                size <= pow2(2074),
                pow2(2095) == pow2(2074) * wide,
                wide > 0,
        ;
        assert(low * one <= size * factor && size * factor <= high * one && low * factor <= size
            * one && size * one <= high * factor) by (nonlinear_arith)
            requires
                low * wide <= size,
                size * wide <= pow2(2095),
                pow2(2095) <= high,
                one <= factor * wide,
                factor <= one * wide,
                wide > 0,
                low > 0,
                one > 0,
                factor >= 0,
                size >= 0,
        ;
    }
    if v.is_zero() || (v.is_in_range() && in_range(
        v.magnitude() * k.magnitude(),
        quanta_per_unit(),
    )) {
        lemma_times_over(v, k);
    }
    if v.is_zero() || (v.is_in_range() && in_range(
        v.magnitude() * quanta_per_unit(),
        k.magnitude(),
    )) {
        lemma_over_times(v, k);
    }
}

/// A sum less the term that was added gives the first scalar back within
/// one part in 2^51 of the larger of the two, where neither the sum nor the
/// difference leaves the range of the finite scalars. (That the sum stays
/// finite is not enough: where the first scalar is the largest there is,
/// the difference can round to infinity.)
pub proof fn lemma_plus_minus(a: Scalar, b: Scalar)
    requires
        a.is_finite(),
        b.is_finite(),
        a.plus(b).is_finite(),
        a.plus(b).minus(b).is_finite(),
    ensures
        a.plus(b).minus(b).is_within(a, larger_magnitude(a, b), 51),
{
    let s = a.plus(b);
    let r = s.minus(b);
    let opposite = b.negated();
    let size = a.magnitude() as int;
    let term = b.magnitude() as int;
    let most = larger_magnitude(a, b) as int;
    lemma2_to64_rest();
    lemma_plus(a, b);
    lemma_sum_error(s, a, b);
    lemma_plus(s, opposite);
    let x = a.quanta() + b.quanta();
    let first = s.quanta() - x;
    // the sum is no more than twice the larger, and so is its error
    assert(-2 * most <= first * 0x20_0000_0000_0000 <= 2 * most);
    lemma_sum_error(r, s, opposite);
    let y = s.quanta() + opposite.quanta();
    let second = r.quanta() - y;
    assert(y == a.quanta() + first);
    assert(-(most + 2 * most) <= second * 0x20_0000_0000_0000 <= most + 2 * most);
    assert(r.quanta() - a.quanta() == first + second);
}

/// Neither the sum of two scalars of no more than 2^1022 in magnitude nor the
/// sum less the second of them leaves the range of the finite scalars.
pub proof fn lemma_plus_minus_stays_finite(a: Scalar, b: Scalar)
    requires
        a.is_finite(),
        b.is_finite(),
        a.magnitude() <= pow2(2096),
        b.magnitude() <= pow2(2096),
    ensures
        a.plus(b).is_finite(),
        a.plus(b).minus(b).is_finite(),
{
    let s = a.plus(b);
    let r = s.minus(b);
    let opposite = b.negated();
    // two scalars to hold the sums against: 2^1023 and half as much again
    let first = encode(2045, IMPLICIT_BIT as nat);
    let second = encode(2045, (IMPLICIT_BIT + IMPLICIT_BIT / 2) as nat);
    lemma_encode(2045, IMPLICIT_BIT as nat);
    lemma_encode(2045, (IMPLICIT_BIT + IMPLICIT_BIT / 2) as nat);
    lemma2_to64_rest();
    lemma_pow2_adds(52, 2045);
    lemma_pow2_adds(51, 2045);
    lemma_pow2_unfold(2097);
    let unit = pow2(2096) as int;
    assert(first.magnitude() == 2 * unit && second.magnitude() == 3 * unit) by (nonlinear_arith)
        requires
            first.magnitude() == pow2(52) * pow2(2045),
            second.magnitude() == (pow2(52) + pow2(51)) * pow2(2045),
            pow2(52) == 2 * pow2(51),
            unit == pow2(51) * pow2(2045),
    ;
    lemma_mul_basics(first.magnitude() as int);
    lemma_mul_basics(second.magnitude() as int);
    lemma_plus(a, b);
    let x = a.quanta() + b.quanta();
    if x != 0 {
        let size: nat = if x < 0 {
            (-x) as nat
        } else {
            x as nat
        };
        lemma_rounding_keeps_order(s, first, x < 0, size, 1);
    }
    lemma_magnitude_zero(s);
    lemma_magnitude_order(s, first);
    assert(s.magnitude() <= 2 * unit);
    lemma_plus(s, opposite);
    let y = s.quanta() + opposite.quanta();
    if y != 0 {
        let size: nat = if y < 0 {
            (-y) as nat
        } else {
            y as nat
        };
        lemma_rounding_keeps_order(r, second, y < 0, size, 1);
    }
    lemma_magnitude_zero(r);
    lemma_magnitude_order(r, second);
}

/// A sum less the term that was added gives the first scalar back within
/// one part in 2^20 of itself, where the term is no more than 2^30 times
/// the scalar in magnitude and nothing leaves the range of the finite
/// scalars. (A scalar that is small against the term is rounded away in
/// the sum and does not come back.)
pub proof fn lemma_plus_minus_near(a: Scalar, b: Scalar)
    requires
        a.is_finite(),
        b.is_finite(),
        a.plus(b).is_finite(),
        a.plus(b).minus(b).is_finite(),
        b.magnitude() <= pow2(30) * a.magnitude(),
    ensures
        a.plus(b).minus(b).is_near(a, 20),
{
    lemma_plus_minus(a, b);
    lemma2_to64();
    lemma2_to64_rest();
}

/// The product of two whole numbers is the whole number that is their
/// product, where that is a scalar: nothing is rounded.
pub proof fn lemma_whole_product(a: Scalar, b: Scalar, c: Scalar, m: nat, n: nat)
    requires
        a.is_finite(),
        b.is_finite(),
        c.is_finite(),
        !a.sign(),
        !b.sign(),
        !c.sign(),
        a.is_integer(m as int),
        b.is_integer(n as int),
        c.is_integer((m * n) as int),
    ensures
        a.times(b) == c,
{
    let p = a.times(b);
    let one = quanta_per_unit() as int;
    let exact = a.magnitude() * b.magnitude();
    lemma_times(a, b);
    lemma_pow2_pos(1074);
    assert(c.magnitude() * one == exact) by (nonlinear_arith)
        requires
            a.magnitude() == m * one,
            b.magnitude() == n * one,
            c.magnitude() == (m * n) * one,
            exact == a.magnitude() * b.magnitude(),
    ;
    assert(p.is_rounding_of(false, exact, one as nat));
    assert(c.gap(exact, one as nat) == 0);
    assert(p.gap(exact, one as nat) <= c.gap(exact, one as nat));
    assert(p.magnitude() == c.magnitude()) by (nonlinear_arith)
        requires
            p.magnitude() * one == c.magnitude() * one,
            one > 0,
    ;
    lemma_magnitude_order(p, c);
}

/// Zero times or over a finite scalar other than zero is zero, with the sign
/// that the two signs give.
pub proof fn lemma_zero_stays_zero(v: Scalar, k: Scalar)
    requires
        v.is_zero(),
        k.is_finite(),
        !k.is_zero(),
    ensures
        v.times(k).is_zero(),
        v.times(k).sign() == (v.sign() != k.sign()),
        v.over(k).is_zero(),
        v.over(k).sign() == (v.sign() != k.sign()),
{
    lemma_times(v, k);
    lemma_over(v, k);
    lemma_magnitude_zero(v);
    lemma_magnitude_zero(k);
    lemma_pow2_pos(1074);
    lemma_mul_basics(k.magnitude() as int);
    lemma_mul_basics(quanta_per_unit() as int);
    lemma_zero_is_kept(v.times(k), v.sign() != k.sign(), quanta_per_unit());
    lemma_zero_is_kept(v.over(k), v.sign() != k.sign(), k.magnitude());
}

/// One zero is near another of the same or the other sign.
pub proof fn lemma_zero_is_near(r: Scalar, v: Scalar, e: nat)
    requires
        r.is_zero(),
        v.is_zero(),
    ensures
        r.is_near(v, e),
{
    lemma_magnitude_zero(r);
    lemma_magnitude_zero(v);
    lemma_mul_basics(pow2(e) as int);
}

/// What an exact value in range rounds to is a finite scalar other than
/// zero, within one part in 2^53 of the exact value.
pub(crate) proof fn lemma_rounded_in_range(r: Scalar, negative: bool, num: nat, den: nat)
    requires
        den > 0,
        r.is_rounding_of(negative, num, den),
        pow2(52) * den <= num,
        num <= pow2(2097) * den + pow2(2097) * den / 2,
    ensures
        r.is_finite(),
        !r.is_zero(),
        -num <= (r.magnitude() * den - num) * pow2(53) <= num,
{
    lemma2_to64_rest();
    lemma_pow2_unfold(2098);
    lemma_pow2_pos(2097);
    lemma_pow2_pos(53);
    let top = pow2(2097) as int;
    let half = top * den / 2;
    assert(0 < top * den && 2 * (top * den) == pow2(2098) * den) by (nonlinear_arith)
        requires
            top > 0,
            den > 0,
            pow2(2098) == 2 * top,
    ;
    lemma_rounding_error(r, negative, num, den);
    let size = r.magnitude() * den;
    let bound = pow2(2098) * den;
    // within a part in 2^53 of less than three quarters of 2^2098, and of
    // more than nothing
    assert(0 < size < bound) by (nonlinear_arith)
        requires
            r.gap(num, den) * 0x20_0000_0000_0000 <= num,
            r.gap(num, den) == if size >= num {
                size - num
            } else {
                num - size
            },
            0 < num,
            4 * num <= 3 * bound,
    ;
    assert(r.magnitude() < pow2(2098) && r.magnitude() > 0) by (nonlinear_arith)
        requires
            0 < r.magnitude() * den < pow2(2098) * den,
            den > 0,
    ;
    lemma_magnitude_zero(r);
    let infinity = Scalar { bits: crate::scalar::INFINITY_BITS };
    lemma_pow2_adds(52, 2046);
    assert(infinity.exponent() == 2047 && infinity.fraction() == 0);
    lemma_magnitude_order(r, infinity);
}

/// A finite sum is within one part in 2^53 of the exact sum.
proof fn lemma_sum_error(s: Scalar, a: Scalar, b: Scalar)
    requires
        a.is_finite(),
        b.is_finite(),
        s.is_sum_of(a, b),
        s.is_finite(),
    ensures
        a.quanta() + b.quanta() >= 0 ==> -(a.quanta() + b.quanta()) <= (s.quanta() - (a.quanta()
            + b.quanta())) * pow2(53) <= a.quanta() + b.quanta(),
        a.quanta() + b.quanta() < 0 ==> a.quanta() + b.quanta() <= (s.quanta() - (a.quanta()
            + b.quanta())) * pow2(53) <= -(a.quanta() + b.quanta()),
{
    let x = a.quanta() + b.quanta();
    lemma2_to64_rest();
    if x == 0 {
        lemma_magnitude_zero(s);
        lemma_mul_basics(pow2(53) as int);
    } else {
        let negative = x < 0;
        let size: nat = if negative {
            (-x) as nat
        } else {
            x as nat
        };
        assert(s.is_rounding_of(negative, size, 1));
        lemma_mul_basics(size as int);
        lemma_mul_basics(s.magnitude() as int);
        lemma_mul_basics(pow2(52) as int);
        lemma_mul_basics(pow2(2098) as int);
        if size < pow2(53) {
            // a whole number of quanta below 2^53 is a scalar
            lemma_encode(0, size);
            let exact = encode(0, size);
            lemma_mul_basics(pow2(0) as int);
            lemma2_to64();
            assert(exact.gap(size, 1) == 0);
            assert(s.gap(size, 1) <= exact.gap(size, 1));
            lemma_magnitude_order(s, exact);
            lemma_mul_basics(pow2(53) as int);
        } else {
            // an exact sum of 2^2098 quanta or more had rounded to infinity
            let infinity = Scalar { bits: crate::scalar::INFINITY_BITS };
            lemma_pow2_adds(52, 2046);
            assert(infinity.exponent() == 2047 && infinity.fraction() == 0);
            lemma_mul_basics(infinity.magnitude() as int);
            lemma_rounding_keeps_order(s, infinity, negative, size, 1);
            lemma_magnitude_order(s, infinity);
            assert(size < pow2(2098));
            lemma_rounding_error(s, negative, size, 1);
        }
    }
}

/// What an exact value of zero rounds to is zero.
proof fn lemma_zero_is_kept(r: Scalar, negative: bool, den: nat)
    requires
        den > 0,
        r.is_rounding_of(negative, 0, den),
    ensures
        r.is_zero(),
        r.magnitude() == 0,
{
    let none = Scalar { bits: 0 };
    lemma_magnitude_zero(none);
    lemma_magnitude_zero(r);
    lemma_mul_basics(den as int);
    assert(r.gap(0, den) <= none.gap(0, den));
    assert(r.magnitude() == 0) by (nonlinear_arith)
        requires
            r.magnitude() * den <= 0,
            den > 0,
    ;
}

/// The bounds of the range in the form that the lemmas on rounding take
/// them.
proof fn lemma_range(num: nat, den: nat)
    requires
        den > 0,
        in_range(num, den),
    ensures
        pow2(52) * den <= num,
        num <= pow2(2097) * den + pow2(2097) * den / 2,
        num > 0,
{
    lemma2_to64_rest();
    lemma_pow2_pos(2097);
    assert(pow2(52) * den <= pow2(53) * den && pow2(53) * den > 0 && pow2(2097) * den >= 0)
        by (nonlinear_arith)
        requires
            pow2(52) <= pow2(53),
            pow2(53) > 0,
            pow2(2097) > 0,
            den > 0,
    ;
}

/// Two roundings in a row, each within one part in 2^53 of what it rounds,
/// stay within one part in 2^51 of the first exact value; and the first
/// keeps half a binade of the margin that the exact value has.
proof fn lemma_two_roundings(x: int, y: int, low: int, high: int)
    requires
        0 < x,
        -x <= (y - x) * 0x20_0000_0000_0000 <= x,
        low <= x <= high,
    ensures
        2 * y >= low,
        2 * y <= 3 * high,
        y > 0,
        forall|z: int|
            -y <= (z - y) * 0x20_0000_0000_0000 <= y ==> -x <= (#[trigger] (z - x))
                * 0x8_0000_0000_0000 <= x,
{
}

} // verus!
