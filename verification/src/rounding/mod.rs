//! Rounding to nearest, ties to even: which scalar an exact value rounds
//! to, that there is one and one only, and how far from the exact value it
//! can lie.

pub mod round;

use crate::scalar::lemma_magnitude_order;
use crate::scalar::lemma_magnitude_zero;
use crate::scalar::quanta_per_unit;
use crate::scalar::Scalar;
use crate::scalar::IMPLICIT_BIT;
use crate::scalar::INFINITY_BITS;
use crate::scalar::SIGN_BIT;
use vstd::arithmetic::mul::*;
use vstd::arithmetic::power2::*;
use vstd::prelude::*;

verus! {

impl Scalar {
    /// The distance between the magnitude of the scalar and the exact
    /// value `num / den`, in quanta and multiplied by `den`.
    pub open spec fn gap(self, num: nat, den: nat) -> int {
        if self.magnitude() * den >= num {
            self.magnitude() * den - num
        } else {
            num - self.magnitude() * den
        }
    }

    /// The scalar whose encoding is the next one up.
    pub open spec fn successor(self) -> Scalar {
        Scalar { bits: (self.bits + 1) as u64 }
    }

    /// Whether the scalar is what the exact magnitude `num / den`, in
    /// quanta, rounds to: it has the sign asked for, no scalar is nearer
    /// to the exact magnitude, and where another is as near, the encoding
    /// of this one is even. Infinity counts as 2^2098 quanta, so that a
    /// magnitude beyond every finite scalar rounds to it.
    pub open spec fn is_rounding_of(self, negative: bool, num: nat, den: nat) -> bool {
        &&& !self.is_nan()
        &&& self.sign() == negative
        &&& forall|y: Scalar| !y.is_nan() ==> self.gap(num, den) <= #[trigger] y.gap(num, den)
        &&& forall|y: Scalar|
            !y.is_nan() && y.abs_bits() != self.abs_bits() && #[trigger] y.gap(num, den)
                == self.gap(num, den) ==> self.abs_bits() % 2 == 0
    }
}

/// The scalar without sign whose significand `q` is scaled by `2^t`: the
/// encoding is `t * 2^52 + q`, whether the scalar is subnormal or normal.
pub open spec fn encode(t: nat, q: nat) -> Scalar {
    Scalar { bits: (t * IMPLICIT_BIT + q) as u64 }
}

/// What `encode` encodes. A significand of 2^53 is let in: it carries into
/// the binade above, or into infinity.
pub proof fn lemma_encode(t: nat, q: nat)
    requires
        t <= 2045,
        q <= 2 * IMPLICIT_BIT,
        t == 0 || q >= IMPLICIT_BIT,
    ensures
        encode(t, q).bits == t * IMPLICIT_BIT + q,
        encode(t, q).bits <= INFINITY_BITS,
        !encode(t, q).sign(),
        !encode(t, q).is_nan(),
        encode(t, q).magnitude() == q * pow2(t),
{
    let x = encode(t, q);
    assert(t * IMPLICIT_BIT + q <= INFINITY_BITS);
    if q == 2 * IMPLICIT_BIT {
        assert(x.exponent() == t + 2);
        assert(x.fraction() == 0);
        lemma_pow2_unfold(t + 1);
        assert(IMPLICIT_BIT * (2 * pow2(t)) == (2 * IMPLICIT_BIT) * pow2(t)) by (nonlinear_arith);
    } else if q >= IMPLICIT_BIT {
        assert(x.exponent() == t + 1);
        assert(x.fraction() == q - IMPLICIT_BIT);
    } else {
        assert(x.exponent() == 0);
        assert(x.fraction() == q);
    }
}

/// An exact magnitude that lies between two neighbouring scalars rounds to
/// the nearer of the two, and where both are as near, to the one with the
/// even encoding.
pub proof fn lemma_rounds_to_neighbour(below: Scalar, r: Scalar, num: nat, den: nat)
    requires
        den > 0,
        !below.sign(),
        below.bits < INFINITY_BITS,
        below.magnitude() * den <= num,
        num <= below.successor().magnitude() * den,
        r.abs_bits() == below.bits || r.abs_bits() == below.bits + 1,
        r.gap(num, den) <= below.gap(num, den),
        r.gap(num, den) <= below.successor().gap(num, den),
        below.gap(num, den) == below.successor().gap(num, den)
            ==> r.abs_bits() % 2 == 0,
    ensures
        r.is_rounding_of(r.sign(), num, den),
{
    let above = below.successor();
    lemma_magnitude_order(below, above);
    assert forall|y: Scalar| !y.is_nan() implies r.gap(num, den) <= #[trigger] y.gap(num, den) by {
        lemma_outside_neighbours(below, y, num, den);
    }
    assert forall|y: Scalar|
        !y.is_nan() && y.abs_bits() != r.abs_bits() && #[trigger] y.gap(num, den) == r.gap(
            num,
            den,
        ) implies r.abs_bits() % 2 == 0 by {
        lemma_outside_neighbours(below, y, num, den);
        lemma_outside_neighbours(below, r, num, den);
        lemma_magnitude_order(y, below);
        lemma_magnitude_order(y, above);
        lemma_magnitude_order(r, below);
        lemma_magnitude_order(r, above);
        if y.abs_bits() < below.bits {
            // strictly further than the neighbour below
            assert(y.magnitude() * den < below.magnitude() * den) by (nonlinear_arith)
                requires
                    y.magnitude() < below.magnitude(),
                    den > 0,
            ;
        } else if y.abs_bits() > above.bits {
            assert(y.magnitude() * den > above.magnitude() * den) by (nonlinear_arith)
                requires
                    y.magnitude() > above.magnitude(),
                    den > 0,
            ;
        }
    }
}

/// A scalar is one of two neighbours or further from what lies between them
/// than the neighbour on its side.
proof fn lemma_outside_neighbours(below: Scalar, y: Scalar, num: nat, den: nat)
    requires
        den > 0,
        !below.sign(),
        below.bits < INFINITY_BITS,
        below.magnitude() * den <= num,
        num <= below.successor().magnitude() * den,
    ensures
        y.abs_bits() <= below.bits ==> y.gap(num, den) >= below.gap(num, den),
        y.abs_bits() > below.bits ==> y.gap(num, den) >= below.successor().gap(num, den),
        y.abs_bits() == below.bits ==> y.gap(num, den) == below.gap(num, den),
        y.abs_bits() == below.bits + 1 ==> y.gap(num, den) == below.successor().gap(num, den),
{
    let above = below.successor();
    lemma_magnitude_order(y, below);
    lemma_magnitude_order(y, above);
    if y.abs_bits() <= below.bits {
        assert(y.magnitude() * den <= below.magnitude() * den) by (nonlinear_arith)
            requires
                y.magnitude() <= below.magnitude(),
                den > 0,
        ;
    } else {
        assert(y.magnitude() * den >= above.magnitude() * den) by (nonlinear_arith)
            requires
                y.magnitude() >= above.magnitude(),
                den > 0,
        ;
    }
}

/// An exact magnitude of zero rounds to zero.
pub(crate) proof fn lemma_zero_rounds_to_zero(r: Scalar, num: nat, den: nat)
    requires
        r.abs_bits() == 0,
        den > 0,
        num == 0,
    ensures
        r.is_rounding_of(r.sign(), num, den),
{
    lemma_magnitude_zero(r);
    lemma_mul_basics(den as int);
    assert(r.gap(num, den) == 0);
    assert forall|y: Scalar|
        !y.is_nan() && y.abs_bits() != r.abs_bits() && #[trigger] y.gap(num, den) == r.gap(
            num,
            den,
        ) implies r.abs_bits() % 2 == 0 by {
        lemma_magnitude_zero(y);
        assert(y.magnitude() * den > 0) by (nonlinear_arith)
            requires
                y.magnitude() > 0,
                den > 0,
        ;
    }
}

/// An exact magnitude of 2^2098 quanta or more rounds to infinity.
pub proof fn lemma_beyond_rounds_to_infinity(r: Scalar, num: nat, den: nat)
    requires
        r.abs_bits() == INFINITY_BITS,
        den > 0,
        pow2(2098) * den <= num,
    ensures
        r.is_rounding_of(r.sign(), num, den),
{
    let top = pow2(2098) as int;
    lemma2_to64_rest();
    lemma_pow2_adds(52, 2046);
    assert(r.exponent() == 2047 && r.fraction() == 0);
    assert(r.magnitude() == top);
    assert forall|y: Scalar| !y.is_nan() implies r.gap(num, den) <= #[trigger] y.gap(num, den) by {
        lemma_magnitude_order(y, r);
        assert(y.magnitude() * den <= top * den) by (nonlinear_arith)
            requires
                y.magnitude() <= top,
                den > 0,
        ;
    }
    assert forall|y: Scalar|
        !y.is_nan() && y.abs_bits() != r.abs_bits() && #[trigger] y.gap(num, den) == r.gap(
            num,
            den,
        ) implies r.abs_bits() % 2 == 0 by {
        lemma_magnitude_order(y, r);
        assert(y.magnitude() * den < top * den) by (nonlinear_arith)
            requires
                y.magnitude() < top,
                den > 0,
        ;
    }
}

/// Rounding keeps the order: what an exact magnitude rounds to lies on the
/// same side of any scalar as the exact magnitude, or on the scalar.
pub proof fn lemma_rounding_keeps_order(r: Scalar, y: Scalar, negative: bool, num: nat, den: nat)
    requires
        den > 0,
        r.is_rounding_of(negative, num, den),
        !y.is_nan(),
    ensures
        num <= y.magnitude() * den ==> r.magnitude() <= y.magnitude(),
        y.magnitude() * den <= num ==> y.magnitude() <= r.magnitude(),
{
    assert(r.gap(num, den) <= y.gap(num, den));
    if num <= y.magnitude() * den && r.magnitude() > y.magnitude() {
        assert(r.magnitude() * den > y.magnitude() * den) by (nonlinear_arith)
            requires
                r.magnitude() > y.magnitude(),
                den > 0,
        ;
    }
    if y.magnitude() * den <= num && y.magnitude() > r.magnitude() {
        assert(r.magnitude() * den < y.magnitude() * den) by (nonlinear_arith)
            requires
                r.magnitude() < y.magnitude(),
                den > 0,
        ;
    }
}

/// An exact magnitude rounds to one scalar only.
pub proof fn lemma_rounding_is_unique(a: Scalar, b: Scalar, negative: bool, num: nat, den: nat)
    requires
        den > 0,
        a.is_rounding_of(negative, num, den),
        b.is_rounding_of(negative, num, den),
    ensures
        a == b,
{
    assert(a.gap(num, den) <= b.gap(num, den));
    assert(b.gap(num, den) <= a.gap(num, den));
    if a.abs_bits() < b.abs_bits() {
        lemma_ties_are_neighbours(a, b, num, den);
    } else if b.abs_bits() < a.abs_bits() {
        lemma_ties_are_neighbours(b, a, num, den);
    }
}

/// Of two scalars that stand apart, both as near to an exact magnitude as
/// any scalar is, one has an odd encoding: they are neighbours.
proof fn lemma_ties_are_neighbours(lower: Scalar, upper: Scalar, num: nat, den: nat)
    requires
        den > 0,
        !lower.is_nan(),
        !upper.is_nan(),
        lower.abs_bits() < upper.abs_bits(),
        lower.gap(num, den) == upper.gap(num, den),
        forall|y: Scalar| !y.is_nan() ==> lower.gap(num, den) <= #[trigger] y.gap(num, den),
    ensures
        upper.abs_bits() == lower.abs_bits() + 1,
{
    let between = Scalar { bits: (lower.abs_bits() + 1) as u64 };
    lemma_magnitude_order(lower, upper);
    lemma_magnitude_order(lower, between);
    lemma_magnitude_order(between, upper);
    let low = lower.magnitude() * den;
    let high = upper.magnitude() * den;
    let mid = between.magnitude() * den;
    assert(low < high) by (nonlinear_arith)
        requires
            low == lower.magnitude() * den,
            high == upper.magnitude() * den,
            lower.magnitude() < upper.magnitude(),
            den > 0,
    ;
    if upper.abs_bits() > lower.abs_bits() + 1 {
        assert(low < mid < high) by (nonlinear_arith)
            requires
                low == lower.magnitude() * den,
                high == upper.magnitude() * den,
                mid == between.magnitude() * den,
                lower.magnitude() < between.magnitude() < upper.magnitude(),
                den > 0,
        ;
        assert(between.gap(num, den) < lower.gap(num, den));
    }
}

/// Every exact magnitude rounds to some scalar of either sign.
pub proof fn lemma_rounding_exists(negative: bool, num: nat, den: nat)
    requires
        den > 0,
    ensures
        exists|r: Scalar| r.is_rounding_of(negative, num, den),
{
    let sign_bits: nat = if negative {
        SIGN_BIT as nat
    } else {
        0
    };
    if num >= pow2(2098) * den {
        let r = Scalar { bits: (INFINITY_BITS + sign_bits) as u64 };
        lemma_beyond_rounds_to_infinity(r, num, den);
        assert(r.is_rounding_of(negative, num, den));
    } else {
        let t = lemma_binade(num, den, 0);
        let unit = den * pow2(t);
        lemma_pow2_pos(t);
        assert(unit > 0) by (nonlinear_arith)
            requires
                unit == den * pow2(t),
                den > 0,
                pow2(t) > 0,
        ;
        let q = num / unit;
        let rest = num % unit;
        vstd::arithmetic::div_mod::lemma_fundamental_div_mod(num as int, unit as int);
        vstd::arithmetic::div_mod::lemma_mod_bound(num as int, unit as int);
        assert(q < 2 * IMPLICIT_BIT && (t == 0 || q >= IMPLICIT_BIT)) by (nonlinear_arith)
            requires
                num == unit * q + rest,
                0 <= rest < unit,
                t == 0 || IMPLICIT_BIT * pow2(t) * den <= num,
                num < 2 * IMPLICIT_BIT * pow2(t) * den,
                unit == den * pow2(t),
        ;
        lemma_encode(t, q);
        lemma_encode(t, q + 1);
        let below = encode(t, q);
        let above = below.successor();
        assert(above == encode(t, q + 1));
        assert(below.magnitude() * den == unit * q && above.magnitude() * den == unit * q + unit)
            by (nonlinear_arith)
            requires
                below.magnitude() == q * pow2(t),
                above.magnitude() == (q + 1) * pow2(t),
                unit == den * pow2(t),
        ;
        let nearer_below = 2 * rest < unit || (2 * rest == unit && below.bits % 2 == 0);
        let rest_bits: nat = if nearer_below {
            below.bits as nat
        } else {
            above.bits as nat
        };
        let r = Scalar { bits: (rest_bits + sign_bits) as u64 };
        assert(r.abs_bits() == rest_bits);
        lemma_rounds_to_neighbour(below, r, num, den);
        assert(r.is_rounding_of(negative, num, den));
    }
}

/// The binade of an exact magnitude below 2^2098 quanta: the least scale on
/// which the magnitude has no more than 53 bits.
proof fn lemma_binade(num: nat, den: nat, t: nat) -> (found: nat)
    requires
        den > 0,
        t <= 2045,
        t == 0 || IMPLICIT_BIT * pow2(t) * den <= num,
        num < pow2(2098) * den,
    ensures
        found <= 2045,
        found == 0 || IMPLICIT_BIT * pow2(found) * den <= num,
        num < 2 * IMPLICIT_BIT * pow2(found) * den,
    decreases 2045 - t,
{
    lemma2_to64_rest();
    if num < 2 * IMPLICIT_BIT * pow2(t) * den {
        t
    } else if t == 2045 {
        lemma_pow2_adds(53, 2045);
        assert(false);
        t
    } else {
        lemma_pow2_unfold(t + 1);
        assert(IMPLICIT_BIT * pow2(t + 1) * den == 2 * IMPLICIT_BIT * pow2(t) * den)
            by (nonlinear_arith)
            requires
                pow2(t + 1) == 2 * pow2(t),
        ;
        lemma_binade(num, den, t + 1)
    }
}

/// Rounding moves an exact magnitude in the range of the normal scalars by
/// no more than one part in 2^53.
pub proof fn lemma_rounding_error(r: Scalar, negative: bool, num: nat, den: nat)
    requires
        den > 0,
        r.is_rounding_of(negative, num, den),
        IMPLICIT_BIT * den <= num < pow2(2098) * den,
    ensures
        r.gap(num, den) * pow2(53) <= num,
{
    lemma2_to64();
    lemma2_to64_rest();
    let t = lemma_binade(num, den, 0);
    let unit = den * pow2(t);
    lemma_pow2_pos(t);
    assert(unit > 0 && IMPLICIT_BIT * unit <= num < 2 * IMPLICIT_BIT * unit) by (nonlinear_arith)
        requires
            unit == den * pow2(t),
            den > 0,
            pow2(t) > 0,
            t == 0 || IMPLICIT_BIT * pow2(t) * den <= num,
            IMPLICIT_BIT * den <= num,
            pow2(0) == 1,
            num < 2 * IMPLICIT_BIT * pow2(t) * den,
    ;
    let q = num / unit;
    let rest = num % unit;
    vstd::arithmetic::div_mod::lemma_fundamental_div_mod(num as int, unit as int);
    vstd::arithmetic::div_mod::lemma_mod_bound(num as int, unit as int);
    assert(IMPLICIT_BIT <= q < 2 * IMPLICIT_BIT) by (nonlinear_arith)
        requires
            num == unit * q + rest,
            0 <= rest < unit,
            IMPLICIT_BIT * unit <= num < 2 * IMPLICIT_BIT * unit,
    ;
    lemma_encode(t, q);
    lemma_encode(t, q + 1);
    let below = encode(t, q);
    let above = encode(t, q + 1);
    assert(below.magnitude() * den == unit * q && above.magnitude() * den == unit * q + unit)
        by (nonlinear_arith)
        requires
            below.magnitude() == q * pow2(t),
            above.magnitude() == (q + 1) * pow2(t),
            unit == den * pow2(t),
    ;
    assert(r.gap(num, den) <= below.gap(num, den));
    assert(r.gap(num, den) <= above.gap(num, den));
    let g = r.gap(num, den);
    assert(g * pow2(53) <= num) by (nonlinear_arith)
        requires
            2 * g <= unit,
            0x10_0000_0000_0000 * unit <= num,
            pow2(53) == 0x20_0000_0000_0000,
            g >= 0,
    ;
}

/// A positive normal scalar with a neighbour on either side in its own
/// binade, and less than half a step from the ratio `num / den`, is what
/// the ratio rounds to.
pub proof fn lemma_ratio(x: Scalar, num: nat, den: nat, k: nat)
    requires
        den > 0,
        !x.sign(),
        x.is_finite(),
        x.exponent() >= 1,
        0 < x.fraction() < IMPLICIT_BIT - 1,
        x.scale() + k == 1074,
        -den < 2 * (x.significand() * den - num * pow2(k)) < den,
    ensures
        x.is_ratio(num, den),
{
    let p = pow2(x.scale()) as int;
    let d = x.significand() * den - num * pow2(k);
    let exact = num * quanta_per_unit();
    let before = Scalar { bits: (x.bits - 1) as u64 };
    let after = x.successor();
    lemma_pow2_adds(k, x.scale());
    lemma_pow2_pos(x.scale());
    let here = x.magnitude() * den - exact;
    assert(here == p * d && before.magnitude() * den - exact == p * d - p * den && after.magnitude()
        * den - exact == p * d + p * den) by (nonlinear_arith)
        requires
            here == x.magnitude() * den - exact,
            x.magnitude() == x.significand() * p,
            before.magnitude() == (x.significand() - 1) * p,
            after.magnitude() == (x.significand() + 1) * p,
            exact == num * (pow2(k) * p),
            d == x.significand() * den - num * pow2(k),
    ;
    let pd = p * d;
    let pden = p * den;
    assert(-pden < 2 * pd < pden && (d >= 0 <==> pd >= 0)) by (nonlinear_arith)
        requires
            pd == p * d,
            pden == p * den,
            -den < 2 * d < den,
            p > 0,
    ;
    if d >= 0 {
        assert(before.successor() == x);
        lemma_rounds_to_neighbour(before, x, exact, den);
    } else {
        lemma_rounds_to_neighbour(x, x, exact, den);
    }
}

} // verus!
