//! Chains of roundings: how closely the result of several operations in a
//! row follows the exact value, one rounding at a time.

use crate::arithmetic::product::lemma_times;
use crate::arithmetic::quotient::lemma_over;
use crate::laws::in_range;
use crate::laws::lemma_rounded_in_range;
use crate::scalar::lemma_magnitude_zero;
use crate::scalar::quanta_per_unit;
use crate::scalar::Scalar;
use vstd::arithmetic::mul::lemma_mul_basics;
use vstd::arithmetic::power2::*;
use vstd::prelude::*;

verus! {

impl Scalar {
    /// Whether the scalar is finite and its magnitude within one part in
    /// 2^e of the exact value `num / den`, in quanta.
    pub open spec fn tracks(self, num: nat, den: nat, e: nat) -> bool {
        &&& self.is_finite()
        &&& -num <= (self.magnitude() * den - num) * pow2(e) <= num
    }

    /// Whether the scalar is finite and between 2^low and 2^high in
    /// magnitude: a factor of one or more.
    pub open spec fn is_between(self, low: nat, high: nat) -> bool {
        &&& self.is_finite()
        &&& quanta_per_unit() * pow2(low) <= self.magnitude() <= quanta_per_unit() * pow2(high)
    }
}

/// Whether the exact value `num / den` is between 2^low and 2^high, all in
/// quanta.
pub open spec fn is_bounded(num: nat, den: nat, low: nat, high: nat) -> bool {
    pow2(low) * den <= num <= pow2(high) * den
}

/// A scalar of ordinary size tracks itself and is between 2^74 and 2^2074
/// quanta.
pub proof fn lemma_ordinary(v: Scalar)
    requires
        v.is_ordinary(),
    ensures
        v.tracks(v.magnitude(), 1, 52),
        is_bounded(v.magnitude(), 1, 74, 2074),
{
    lemma_mul_basics(v.magnitude() as int);
    lemma_mul_basics(pow2(52) as int);
    lemma_mul_basics(pow2(74) as int);
    lemma_mul_basics(pow2(2074) as int);
}

/// A finite scalar tracks itself.
pub proof fn lemma_tracks_itself(v: Scalar)
    requires
        v.is_finite(),
    ensures
        v.tracks(v.magnitude(), 1, 52),
{
    lemma_mul_basics(v.magnitude() as int);
    lemma_mul_basics(pow2(52) as int);
}

/// The product of a scalar that tracks an exact value and a factor tracks
/// the exact product, a bit less closely, where the exact product is in
/// range.
pub proof fn lemma_times_tracks(a: Scalar, k: Scalar, num: nat, den: nat, e: nat)
    requires
        den > 0,
        1 <= e <= 52,
        a.tracks(num, den, e),
        k.is_finite(),
        !k.is_zero(),
        in_range(num * k.magnitude(), den * quanta_per_unit()),
    ensures
        a.times(k).tracks(num * k.magnitude(), den * quanta_per_unit(), (e - 1) as nat),
        den * quanta_per_unit() > 0,
        a.times(k).sign() == (a.sign() != k.sign()),
{
    let p = a.times(k);
    let size = a.magnitude() as int;
    let factor = k.magnitude() as int;
    let one = quanta_per_unit() as int;
    lemma_times(a, k);
    lemma_magnitude_zero(k);
    lemma_pow2_pos(1074);
    assert(den * one > 0) by (nonlinear_arith)
        requires
            den > 0,
            one > 0,
    ;
    // on the scale of the product
    let n = num * factor;
    let x = (size * den) * factor;
    lemma_scaled_error(num as int, size * den, factor, pow2(e) as int);
    let exact = size * factor;
    let z = (p.magnitude() * one) * den;
    assert(x == exact * den && z == p.magnitude() * (den * one)) by (nonlinear_arith)
        requires
            x == (size * den) * factor,
            exact == size * factor,
            z == (p.magnitude() * one) * den,
    ;
    lemma_half_more_or_less(n, x, e);
    lemma_tracked_is_in_range(exact as nat, one as nat, n as nat, (den * one) as nat, den, x);
    lemma_rounded_in_range(p, a.sign() != k.sign(), exact as nat, one as nat);
    lemma_scaled_error(exact, p.magnitude() * one, den as int, pow2(53) as int);
    lemma_one_more_rounding(n, x, z, e);
}

/// The quotient of a scalar that tracks an exact value by a divisor tracks
/// the exact quotient, a bit less closely, where the exact quotient is in
/// range.
pub proof fn lemma_over_tracks(a: Scalar, k: Scalar, num: nat, den: nat, e: nat)
    requires
        den > 0,
        1 <= e <= 52,
        a.tracks(num, den, e),
        k.is_finite(),
        !k.is_zero(),
        in_range(num * quanta_per_unit(), den * k.magnitude()),
    ensures
        a.over(k).tracks(num * quanta_per_unit(), den * k.magnitude(), (e - 1) as nat),
        den * k.magnitude() > 0,
        a.over(k).sign() == (a.sign() != k.sign()),
{
    let q = a.over(k);
    let size = a.magnitude() as int;
    let factor = k.magnitude() as int;
    let one = quanta_per_unit() as int;
    lemma_over(a, k);
    lemma_magnitude_zero(k);
    lemma_pow2_pos(1074);
    assert(den * factor > 0) by (nonlinear_arith)
        requires
            den > 0,
            factor > 0,
    ;
    let n = num * one;
    let x = (size * den) * one;
    lemma_scaled_error(num as int, size * den, one, pow2(e) as int);
    let exact = size * one;
    let z = (q.magnitude() * factor) * den;
    assert(x == exact * den && z == q.magnitude() * (den * factor)) by (nonlinear_arith)
        requires
            x == (size * den) * one,
            exact == size * one,
            z == (q.magnitude() * factor) * den,
    ;
    lemma_half_more_or_less(n, x, e);
    lemma_tracked_is_in_range(exact as nat, factor as nat, n as nat, (den * factor) as nat, den, x);
    lemma_magnitude_zero(a);
    lemma_rounded_in_range(q, a.sign() != k.sign(), exact as nat, factor as nat);
    lemma_scaled_error(exact, q.magnitude() * factor, den as int, pow2(53) as int);
    lemma_one_more_rounding(n, x, z, e);
}

/// A scalar that tracks the exact value of another, written on whatever
/// scale, is near to it.
pub proof fn lemma_tracks_is_near(r: Scalar, v: Scalar, scale: nat, e: nat)
    requires
        v.is_finite(),
        scale > 0,
        r.sign() == v.sign(),
        r.tracks(v.magnitude() * scale, scale, e),
    ensures
        r.is_near(v, e),
{
    let d = r.magnitude() - v.magnitude();
    let p = pow2(e) as int;
    lemma_pow2_pos(e);
    assert(-v.magnitude() <= d * p <= v.magnitude()) by (nonlinear_arith)
        requires
            -(v.magnitude() * scale) <= (r.magnitude() * scale - v.magnitude() * scale) * p
                <= v.magnitude() * scale,
            d == r.magnitude() - v.magnitude(),
            scale > 0,
            p > 0,
    ;
    assert((-d) * p == -(d * p)) by (nonlinear_arith);
}

/// An exact value times a factor of one or more: the bounds go up by those
/// of the factor, and what lies between 2^53 and 2^2097 is in range.
pub proof fn lemma_bounds_times(
    num: nat,
    den: nat,
    low: nat,
    high: nat,
    k: Scalar,
    least: nat,
    most: nat,
)
    requires
        den > 0,
        is_bounded(num, den, low, high),
        k.is_between(least, most),
    ensures
        is_bounded(num * k.magnitude(), den * quanta_per_unit(), low + least, high + most),
        53 <= low + least && high + most <= 2097 ==> in_range(
            num * k.magnitude(),
            den * quanta_per_unit(),
        ),
        !k.is_zero(),
        den * quanta_per_unit() > 0,
{
    lemma_pow2_pos(1074);
    assert(den * quanta_per_unit() > 0) by (nonlinear_arith)
        requires
            den > 0,
            quanta_per_unit() > 0,
    ;
    let one = quanta_per_unit() as int;
    let factor = k.magnitude() as int;
    lemma_pow2_pos(1074);
    lemma_pow2_pos(least);
    lemma_pow2_pos(low);
    lemma_pow2_adds(low, least);
    lemma_pow2_adds(high, most);
    lemma_magnitude_zero(k);
    assert(factor > 0) by (nonlinear_arith)
        requires
            one * pow2(least) <= factor,
            one > 0,
            pow2(least) > 0,
    ;
    lemma_scaled_bounds(
        num as int,
        den as int,
        pow2(low) as int,
        pow2(high) as int,
        factor,
        one,
        pow2(least) as int,
        pow2(most) as int,
    );
    lemma_bounded_is_in_range(
        num * k.magnitude(),
        den * quanta_per_unit(),
        low + least,
        high + most,
    );
}

/// An exact value over a divisor of one or more: the bounds go down by
/// those of the divisor, and what lies between 2^53 and 2^2097 is in range.
pub proof fn lemma_bounds_over(
    num: nat,
    den: nat,
    low: nat,
    high: nat,
    k: Scalar,
    least: nat,
    most: nat,
)
    requires
        den > 0,
        is_bounded(num, den, low, high),
        k.is_between(least, most),
        most <= low,
        least <= high,
    ensures
        is_bounded(
            num * quanta_per_unit(),
            den * k.magnitude(),
            (low - most) as nat,
            (high - least) as nat,
        ),
        53 <= low - most && high - least <= 2097 ==> in_range(
            num * quanta_per_unit(),
            den * k.magnitude(),
        ),
        !k.is_zero(),
        den * k.magnitude() > 0,
{
    let one = quanta_per_unit() as int;
    let factor = k.magnitude() as int;
    lemma_pow2_pos(1074);
    lemma_pow2_pos(least);
    lemma_pow2_pos((low - most) as nat);
    lemma_pow2_adds((low - most) as nat, most);
    lemma_pow2_adds((high - least) as nat, least);
    lemma_magnitude_zero(k);
    assert(factor > 0) by (nonlinear_arith)
        requires
            one * pow2(least) <= factor,
            one > 0,
            pow2(least) > 0,
    ;
    assert(den * factor > 0) by (nonlinear_arith)
        requires
            den > 0,
            factor > 0,
    ;
    // num / den over factor / one: between 2^low / 2^most and
    // 2^high / 2^least
    let lower = pow2((low - most) as nat) as int;
    let upper = pow2((high - least) as nat) as int;
    assert(lower * (den * factor) <= num * one) by (nonlinear_arith)
        requires
            (lower * pow2(most)) * den <= num,
            factor <= one * pow2(most),
            den > 0,
            lower > 0,
            one > 0,
    ;
    assert(num * one <= upper * (den * factor)) by (nonlinear_arith)
        requires
            num <= (upper * pow2(least)) * den,
            one * pow2(least) <= factor,
            den > 0,
            upper >= 0,
            one > 0,
            pow2(least) > 0,
    ;
    lemma_bounded_is_in_range(
        num * quanta_per_unit(),
        den * k.magnitude(),
        (low - most) as nat,
        (high - least) as nat,
    );
}

/// What lies between 2^53 and 2^2097 quanta is in range.
pub proof fn lemma_bounded_is_in_range(num: nat, den: nat, low: nat, high: nat)
    requires
        is_bounded(num, den, low, high),
    ensures
        53 <= low && high <= 2097 ==> in_range(num, den),
{
    if 53 <= low && high <= 2097 {
        if 53 < low {
            lemma_pow2_strictly_increases(53, low);
        }
        if high < 2097 {
            lemma_pow2_strictly_increases(high, 2097);
        }
        assert(pow2(53) * den <= pow2(low) * den && pow2(high) * den <= pow2(2097) * den)
            by (nonlinear_arith)
            requires
                pow2(53) <= pow2(low),
                pow2(high) <= pow2(2097),
        ;
    }
}

/// Whether an exact value is in range does not depend on the scale on which
/// it is written.
pub proof fn lemma_in_range_scaled(num: nat, den: nat, c: nat)
    requires
        c > 0,
        in_range(num, den),
    ensures
        in_range(num * c, den * c),
{
    assert(pow2(53) * (den * c) <= num * c && num * c <= pow2(2097) * (den * c))
        by (nonlinear_arith)
        requires
            pow2(53) * den <= num <= pow2(2097) * den,
            c > 0,
    ;
}

/// Bounds on a ratio and on a factor make bounds on their product.
proof fn lemma_scaled_bounds(
    num: int,
    den: int,
    low: int,
    high: int,
    factor: int,
    one: int,
    least: int,
    most: int,
)
    requires
        den > 0,
        one > 0,
        low > 0,
        least > 0,
        low * den <= num <= high * den,
        one * least <= factor <= one * most,
    ensures
        (low * least) * (den * one) <= num * factor <= (high * most) * (den * one),
{
    assert((low * least) * (den * one) <= num * factor) by (nonlinear_arith)
        requires
            low * den <= num,
            one * least <= factor,
            den > 0,
            one > 0,
            low > 0,
            least > 0,
    ;
    assert(num * factor <= (high * most) * (den * one)) by (nonlinear_arith)
        requires
            0 <= num <= high * den,
            0 <= factor <= one * most,
            den > 0,
            one > 0,
    ;
}

/// What is within one part in two of an exact value is between half of it
/// and half as much again.
proof fn lemma_half_more_or_less(n: int, x: int, e: nat)
    requires
        1 <= e,
        n >= 0,
        -n <= (x - n) * pow2(e) <= n,
    ensures
        2 * x >= n,
        2 * x <= 3 * n,
{
    lemma_pow2_unfold(e);
    lemma_pow2_pos((e - 1) as nat);
    let half = pow2((e - 1) as nat) as int;
    assert(2 * x >= n && 2 * x <= 3 * n) by (nonlinear_arith)
        requires
            -n <= (x - n) * (2 * half) <= n,
            half >= 1,
            n >= 0,
    ;
}

/// One rounding more, on the way from an exact value: where a magnitude
/// `x` is within one part in 2^e of `n`, and `z` within one part in 2^53 of
/// `x`, `z` is within one part in 2^(e-1) of `n`.
proof fn lemma_one_more_rounding(n: int, x: int, z: int, e: nat)
    requires
        1 <= e <= 52,
        n >= 0,
        -n <= (x - n) * pow2(e) <= n,
        -x <= (z - x) * pow2(53) <= x,
    ensures
        -n <= (z - n) * pow2((e - 1) as nat) <= n,
        2 * x >= n,
        2 * x <= 3 * n,
{
    let half = pow2((e - 1) as nat) as int;
    let rest = pow2((54 - e) as nat) as int;
    lemma_pow2_unfold(e);
    lemma_pow2_adds((e - 1) as nat, (54 - e) as nat);
    lemma_pow2_pos((e - 1) as nat);
    lemma2_to64();
    if 54 - e > 2 {
        lemma_pow2_strictly_increases(2, (54 - e) as nat);
    }
    let first = x - n;
    let second = z - x;
    assert(2 * x >= n && 2 * x <= 3 * n) by (nonlinear_arith)
        requires
            -n <= (x - n) * (2 * half) <= n,
            half >= 1,
            n >= 0,
    ;
    assert(-n <= 2 * (first * half) <= n) by (nonlinear_arith)
        requires
            -n <= first * (2 * half) <= n,
    ;
    assert(-3 * n <= 8 * (second * half) <= 3 * n) by (nonlinear_arith)
        requires
            -x <= second * (half * rest) <= x,
            rest >= 4,
            half >= 1,
            0 <= 2 * x <= 3 * n,
    ;
    assert((z - n) * half == first * half + second * half) by (nonlinear_arith)
        requires
            first == x - n,
            second == z - x,
    ;
}

/// An error bound holds on any scale: both sides may be multiplied by a
/// positive number.
proof fn lemma_scaled_error(n: int, x: int, c: int, p: int)
    requires
        c > 0,
        -n <= (x - n) * p <= n,
    ensures
        -(n * c) <= (x * c - n * c) * p <= n * c,
{
    assert((x * c - n * c) * p == ((x - n) * p) * c) by (nonlinear_arith);
    assert(-(n * c) <= ((x - n) * p) * c <= n * c) by (nonlinear_arith)
        requires
            -n <= (x - n) * p <= n,
            c > 0,
    ;
}

/// Where the exact value `n / d` has a margin of a binade and `x / den`
/// over `d / den` is within half of it, the latter is in the range that
/// the lemmas on rounding ask for.
proof fn lemma_tracked_is_in_range(exact: nat, by: nat, n: nat, d: nat, den: nat, x: int)
    requires
        den > 0,
        by > 0,
        d == den * by,
        x == exact * den,
        2 * x >= n,
        2 * x <= 3 * n,
        pow2(53) * d <= n <= pow2(2097) * d,
    ensures
        pow2(52) * by <= exact,
        exact <= pow2(2097) * by + pow2(2097) * by / 2,
{
    lemma2_to64_rest();
    lemma_pow2_pos(2097);
    let low = pow2(52) as int;
    let high = pow2(2097) as int;
    assert(low * by <= exact) by (nonlinear_arith)
        requires
            2 * (exact * den) >= n,
            n >= (2 * low) * (den * by),
            den > 0,
            by > 0,
    ;
    assert(2 * exact <= 3 * (high * by)) by (nonlinear_arith)
        requires
            2 * (exact * den) <= 3 * n,
            n <= high * (den * by),
            den > 0,
            by > 0,
            high > 0,
    ;
}

} // verus!
