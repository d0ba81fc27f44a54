//! The rounding of an exact magnitude that an operation has worked out in
//! whole steps, with the proof that the scalar made of it is the one that
//! the exact magnitude rounds to.

use crate::rounding::encode;
use crate::rounding::lemma_beyond_rounds_to_infinity;
use crate::rounding::lemma_encode;
use crate::rounding::lemma_rounds_to_neighbour;
use crate::rounding::lemma_zero_rounds_to_zero;
use crate::scalar::lemma_magnitude_order;
use crate::scalar::Scalar;
use crate::scalar::IMPLICIT_BIT;
use crate::scalar::INFINITY_BITS;
use crate::scalar::SIGN_BIT;
use vstd::arithmetic::mul::*;
use vstd::arithmetic::power2::*;
use vstd::prelude::*;

verus! {

/// The finer steps in which an exact value is handed over for rounding:
/// 2^1200 to the quantum.
pub open spec fn steps_per_quantum() -> nat {
    pow2(1200)
}

/// Whether the exact magnitude `num / den`, in quanta, is at least `m`
/// steps of size `2^scale` and less than `m + 1` of them, and more than `m`
/// just where `more` says so.
pub open spec fn brackets(m: nat, scale: nat, more: bool, num: nat, den: nat) -> bool {
    &&& den > 0
    &&& m * pow2(scale) * den <= num * steps_per_quantum()
    &&& num * steps_per_quantum() < (m + 1) * pow2(scale) * den
    &&& more == (m * pow2(scale) * den < num * steps_per_quantum())
}

/// Rounds an exact magnitude to a scalar of the given sign. The magnitude
/// is handed over as `m` steps of size `2^scale`, in units of 2^-1200
/// quanta, with `more` set where the exact magnitude is above that and
/// below `m + 1` steps; `num / den` is the same magnitude as a ratio, in
/// quanta.
pub(crate) fn round(
    negative: bool,
    m: u128,
    scale: u64,
    more: bool,
    Ghost(num): Ghost<nat>,
    Ghost(den): Ghost<nat>,
) -> (r: Scalar)
    requires
        m < 0x100_0000_0000_0000_0000_0000_0000_0000,
        scale <= 10_000,
        more ==> m >= 0x40_0000_0000_0000,
        brackets(m as nat, scale as nat, more, num, den),
    ensures
        r.is_rounding_of(negative, num, den),
{
    let l = bit_length(m);
    proof {
        lemma2_to64();
        lemma2_to64_rest();
        lemma_pow2_adds(60, 60);
        if l > 120 {
            lemma_pow2_strictly_increases(120, (l - 1) as nat);
        }
        assert(l <= 120);
    }
    if m == 0 {
        let r = signed(negative, 0);
        proof {
            lemma_pow2_pos(1200);
            lemma_mul_basics(pow2(scale as nat) as int);
            lemma_mul_basics(den as int);
            assert(num == 0) by (nonlinear_arith)
                requires
                    num * steps_per_quantum() == 0,
                    steps_per_quantum() > 0,
            ;
            lemma_zero_rounds_to_zero(r, num, den);
        }
        return r;
    }
    // the place of the leading bit decides the binade, and the binade
    // decides how many of the low bits are rounded away
    let lead: u64 = l as u64 + scale;
    let t: u64 = if lead > 1253 {
        lead - 1253
    } else {
        0
    };
    if t >= 2046 {
        let r = signed(negative, INFINITY_BITS);
        proof {
            lemma_overflow_rounds_to_infinity(r, m as nat, l as nat, scale as nat, num, den);
        }
        return r;
    }
    if t + 1200 <= scale {
        // nothing is rounded away: the steps are whole multiples of the
        // spacing in this binade
        let up: u32 = (scale - t - 1200) as u32;
        proof {
            if more {
                lemma_pow2_strictly_increases(54, l as nat);
            }
            assert(up + l <= 53);
            lemma_pow2_adds(up as nat, l as nat);
            if up + l < 53 {
                lemma_pow2_strictly_increases((up + l) as nat, 53);
            }
            lemma_pow2_pos(up as nat);
            assert(m * pow2(up as nat) < pow2((up + l) as nat)) by (nonlinear_arith)
                requires
                    m < pow2(l as nat),
                    pow2(up as nat) > 0,
                    pow2((up + l) as nat) == pow2(up as nat) * pow2(l as nat),
            ;
        }
        let q: u128 = m * power_of_two(up);
        let r = signed(negative, t * IMPLICIT_BIT + q as u64);
        proof {
            assert(brackets(m as nat, scale as nat, more, num, den));
            lemma_exact_rounds_to_itself(
                r,
                m as nat,
                l as nat,
                scale as nat,
                t as nat,
                up as nat,
                num,
                den,
            );
        }
        return r;
    }
    let down: u64 = t + 1200 - scale;
    if down > l as u64 {
        // less than half the least step: nothing is left
        let r = signed(negative, 0);
        proof {
            lemma_underflow_rounds_to_zero(
                r,
                m as nat,
                l as nat,
                scale as nat,
                down as nat,
                more,
                num,
                den,
            );
        }
        return r;
    }
    let step: u128 = power_of_two(down as u32);
    proof {
        lemma_pow2_pos(down as nat);
    }
    let q: u128 = m / step;
    let rem: u128 = m % step;
    let half: u128 = step / 2;
    let round_up = rem > half || (rem == half && (more || q % 2 == 1));
    proof {
        lemma_pow2_unfold(down as nat);
        lemma_quotient_fits(m as nat, l as nat, scale as nat, t as nat, down as nat);
    }
    let kept: u64 = t * IMPLICIT_BIT + q as u64;
    let r = signed(
        negative,
        if round_up {
            kept + 1
        } else {
            kept
        },
    );
    proof {
        lemma_rounded(
            r,
            m as nat,
            scale as nat,
            t as nat,
            down as nat,
            more,
            round_up,
            num,
            den,
        );
    }
    r
}

/// A scalar with the given sign and the rest of the encoding.
pub(crate) fn signed(negative: bool, abs_bits: u64) -> (r: Scalar)
    requires
        abs_bits < SIGN_BIT,
    ensures
        r.sign() == negative,
        r.abs_bits() == abs_bits,
{
    if negative {
        Scalar { bits: abs_bits + SIGN_BIT }
    } else {
        Scalar { bits: abs_bits }
    }
}

/// The number of bits of `m`: zero for zero, else the place of the leading
/// bit, counted from one.
pub(crate) fn bit_length(m: u128) -> (l: u32)
    ensures
        l <= 128,
        m == 0 <==> l == 0,
        l > 0 ==> pow2((l - 1) as nat) <= m,
        m < pow2(l as nat),
{
    let mut l: u32 = 0;
    let mut rest: u128 = m;
    proof {
        lemma2_to64();
    }
    while rest > 0
        invariant
            l <= 128,
            rest * pow2(l as nat) <= m < (rest + 1) * pow2(l as nat),
            l > 0 ==> pow2((l - 1) as nat) <= m,
            l == 0 ==> rest == m,
        decreases rest,
    {
        proof {
            let p = pow2(l as nat) as int;
            lemma_pow2_unfold((l + 1) as nat);
            lemma_pow2_pos(l as nat);
            let half = (rest / 2) as int;
            assert(half * (2 * p) <= rest * p && (rest + 1) * p <= (half + 1) * (2 * p) && p
                <= rest * p) by (nonlinear_arith)
                requires
                    2 * half <= rest <= 2 * half + 1,
                    rest >= 1,
                    p > 0,
            ;
            if l == 128 {
                lemma2_to64();
                lemma_pow2_adds(64, 64);
            }
        }
        rest = rest / 2;
        l = l + 1;
    }
    proof {
        lemma_mul_basics(pow2(l as nat) as int);
        if l > 0 {
            lemma_pow2_pos((l - 1) as nat);
        }
    }
    l
}

/// Two to the power `k`.
pub(crate) fn power_of_two(k: u32) -> (p: u128)
    requires
        k <= 126,
    ensures
        p == pow2(k as nat),
{
    let mut p: u128 = 1;
    let mut i: u32 = 0;
    proof {
        lemma2_to64();
    }
    while i < k
        invariant
            i <= k <= 126,
            p == pow2(i as nat),
        decreases k - i,
    {
        proof {
            lemma_pow2_unfold((i + 1) as nat);
            lemma2_to64_rest();
            lemma_pow2_adds(63, 63);
            if i < 126 {
                lemma_pow2_strictly_increases(i as nat, 126);
            }
        }
        p = p * 2;
        i = i + 1;
    }
    p
}

/// What is left after the low `down` bits are rounded away, and rounded up
/// where they make more than half a step, or just half with an odd
/// significand, is what the exact magnitude rounds to.
proof fn lemma_rounded(
    r: Scalar,
    m: nat,
    scale: nat,
    t: nat,
    down: nat,
    more: bool,
    round_up: bool,
    num: nat,
    den: nat,
)
    requires
        t <= 2045,
        down >= 1,
        down + scale == t + 1200,
        m / pow2(down) < 2 * IMPLICIT_BIT,
        t > 0 ==> m / pow2(down) >= IMPLICIT_BIT,
        round_up == (2 * (m % pow2(down)) > pow2(down) || (2 * (m % pow2(down)) == pow2(down) && (
        more || (m / pow2(down)) % 2 == 1))),
        r.abs_bits() == t * IMPLICIT_BIT + m / pow2(down) + if round_up {
            1nat
        } else {
            0nat
        },
        brackets(m, scale, more, num, den),
    ensures
        r.is_rounding_of(r.sign(), num, den),
{
    let w = steps_per_quantum() as int;
    let p = pow2(scale) as int;
    let tt = pow2(t) as int;
    let s = pow2(down) as int;
    let q = m as int / s;
    let rem = m as int % s;
    let a = p * den;
    let x = num * w;
    lemma_pow2_pos(1200);
    lemma_pow2_pos(scale);
    lemma_pow2_pos(down);
    lemma_pow2_unfold(down);
    vstd::arithmetic::div_mod::lemma_fundamental_div_mod(m as int, s);
    vstd::arithmetic::div_mod::lemma_mod_bound(m as int, s);
    assert(a > 0) by (nonlinear_arith)
        requires
            a == p * den,
            p > 0,
            den > 0,
    ;
    assert(m * p * den == (q * s + rem) * a && (m + 1) * p * den == (q * s + rem + 1) * a)
        by (nonlinear_arith)
        requires
            m == s * q + rem,
            a == p * den,
    ;
    lemma_nearer_neighbour(q, s, rem, a, x);
    // the two neighbours
    lemma_encode(t, q as nat);
    lemma_encode(t, (q + 1) as nat);
    let below = encode(t, q as nat);
    let above = below.successor();
    assert(above == encode(t, (q + 1) as nat));
    // their magnitudes on the scale of the steps
    lemma_pow2_adds(t, 1200);
    lemma_pow2_adds(down, scale);
    assert(tt * w == s * p);
    assert(below.magnitude() * den * w == q * s * a) by (nonlinear_arith)
        requires
            below.magnitude() == q * tt,
            tt * w == s * p,
            a == p * den,
    ;
    assert(above.magnitude() * den * w == (q + 1) * s * a) by (nonlinear_arith)
        requires
            above.magnitude() == (q + 1) * tt,
            tt * w == s * p,
            a == p * den,
    ;
    let lo = (below.magnitude() * den) as int;
    let hi = (above.magnitude() * den) as int;
    assert(lo <= num < hi) by (nonlinear_arith)
        requires
            lo * w <= num * w < hi * w,
            w > 0,
    ;
    let gl = num - lo;
    let gh = hi - num;
    assert(below.gap(num, den) == gl);
    assert(above.gap(num, den) == gh);
    assert(gl * w == x - q * s * a && gh * w == (q + 1) * s * a - x) by (nonlinear_arith)
        requires
            gl == num - lo,
            gh == hi - num,
            lo * w == q * s * a,
            hi * w == (q + 1) * s * a,
            x == num * w,
    ;
    assert((gl < gh <==> gl * w < gh * w) && (gl == gh <==> gl * w == gh * w)) by (nonlinear_arith)
        requires
            w > 0,
    ;
    assert(more == (x > (q * s + rem) * a));
    if round_up {
        assert(r.abs_bits() == above.bits);
        assert(gh <= gl);
    } else {
        assert(r.abs_bits() == below.bits);
        assert(gl <= gh);
    }
    assert(gl == gh ==> r.abs_bits() % 2 == 0) by {
        if gl == gh {
            assert(2 * rem == s && !more);
            assert((t * IMPLICIT_BIT) % 2 == 0) by (nonlinear_arith)
                requires
                    IMPLICIT_BIT == 0x10_0000_0000_0000,
            ;
        }
    }
    lemma_rounds_to_neighbour(below, r, num, den);
}

/// Which of two neighbours an exact value is nearer to, from where it lies
/// in the step between them: `x` is the value, `q * s * a` the neighbour
/// below, `(q + 1) * s * a` the one above, and `rem` counts the whole parts
/// of size `a` by which the value lies above the lower one.
proof fn lemma_nearer_neighbour(q: int, s: int, rem: int, a: int, x: int)
    requires
        a > 0,
        s >= 2,
        s % 2 == 0,
        0 <= rem < s,
        (q * s + rem) * a <= x < (q * s + rem + 1) * a,
    ensures
        q * s * a <= x < (q + 1) * s * a,
        2 * rem > s ==> (q + 1) * s * a - x < x - q * s * a,
        2 * rem < s ==> x - q * s * a < (q + 1) * s * a - x,
        2 * rem == s && x > (q * s + rem) * a ==> (q + 1) * s * a - x < x - q * s * a,
        2 * rem == s && x == (q * s + rem) * a ==> (q + 1) * s * a - x == x - q * s * a,
{
    let h = s / 2;
    let qsa = q * s * a;
    let ra = rem * a;
    let ha = h * a;
    assert((q * s + rem) * a == qsa + ra) by (nonlinear_arith)
        requires
            qsa == q * s * a,
            ra == rem * a,
    ;
    assert((q * s + rem + 1) * a == qsa + ra + a) by (nonlinear_arith)
        requires
            qsa == q * s * a,
            ra == rem * a,
    ;
    assert((q + 1) * s * a == qsa + 2 * ha) by (nonlinear_arith)
        requires
            qsa == q * s * a,
            ha == h * a,
            s == 2 * h,
    ;
    assert(0 <= ra && ra + a <= 2 * ha) by (nonlinear_arith)
        requires
            ra == rem * a,
            ha == h * a,
            0 <= rem,
            rem + 1 <= 2 * h,
            a > 0,
    ;
    if rem > h {
        assert(ra >= ha + a) by (nonlinear_arith)
            requires
                ra == rem * a,
                ha == h * a,
                rem >= h + 1,
                a > 0,
        ;
    } else if rem < h {
        assert(ra + a <= ha) by (nonlinear_arith)
            requires
                ra == rem * a,
                ha == h * a,
                rem + 1 <= h,
                a > 0,
        ;
    }
}

/// An exact magnitude that is a scalar's own rounds to that scalar.
proof fn lemma_exact_rounds_to_itself(
    r: Scalar,
    m: nat,
    l: nat,
    scale: nat,
    t: nat,
    up: nat,
    num: nat,
    den: nat,
)
    requires
        l >= 1,
        pow2((l - 1) as nat) <= m < pow2(l),
        t <= 2045,
        t == if l + scale > 1253 {
            l + scale - 1253
        } else {
            0
        },
        scale == t + 1200 + up,
        r.abs_bits() == t * IMPLICIT_BIT + m * pow2(up),
        exists|more: bool| #[trigger]
            brackets(m, scale, more, num, den) && (more ==> m >= 0x40_0000_0000_0000),
    ensures
        r.is_rounding_of(r.sign(), num, den),
{
    let more = choose|more: bool| #[trigger]
        brackets(m, scale, more, num, den) && (more ==> m >= 0x40_0000_0000_0000);
    let w = steps_per_quantum() as int;
    let p = pow2(scale) as int;
    let tt = pow2(t) as int;
    let u = pow2(up) as int;
    let q = m * pow2(up);
    lemma2_to64();
    lemma2_to64_rest();
    lemma_pow2_pos(1200);
    lemma_pow2_pos(t);
    lemma_pow2_pos(up);
    // the significand fits, and is normal unless the binade is the lowest
    assert(up + l <= 53);
    if more {
        if l < 55 {
            if l < 54 {
                lemma_pow2_strictly_increases(l, 54);
            }
        }
        assert(false);
    }
    lemma_pow2_adds(up, l);
    lemma_pow2_adds(up, (l - 1) as nat);
    if up + l < 53 {
        lemma_pow2_strictly_increases(up + l, 53);
    }
    assert(q < pow2(up + l) && q >= pow2((up + l - 1) as nat)) by (nonlinear_arith)
        requires
            q == m * u,
            pow2((l - 1) as nat) <= m < pow2(l),
            u > 0,
            pow2(up + l) == u * pow2(l),
            pow2((up + l - 1) as nat) == u * pow2((l - 1) as nat),
    ;
    lemma_encode(t, q);
    let below = encode(t, q);
    // the exact magnitude is that of the scalar
    lemma_pow2_adds(t + 1200, up);
    lemma_pow2_adds(t, 1200);
    assert(p == tt * w * u);
    assert(m * p * den == (q * tt * den) * w) by (nonlinear_arith)
        requires
            p == tt * w * u,
            q == m * u,
    ;
    assert(num == q * tt * den) by (nonlinear_arith)
        requires
            num * w == (q * tt * den) * w,
            w > 0,
    ;
    assert(below.magnitude() * den == num);
    let above = below.successor();
    lemma_magnitude_order(below, above);
    assert(above.magnitude() * den > num) by (nonlinear_arith)
        requires
            above.magnitude() > below.magnitude(),
            below.magnitude() * den == num,
            den > 0,
    ;
    lemma_rounds_to_neighbour(below, r, num, den);
}

/// Steps whose leading bit lies at 2^2098 quanta or above make an exact
/// magnitude that rounds to infinity.
proof fn lemma_overflow_rounds_to_infinity(
    r: Scalar,
    m: nat,
    l: nat,
    scale: nat,
    num: nat,
    den: nat,
)
    requires
        r.abs_bits() == INFINITY_BITS,
        l >= 1,
        pow2((l - 1) as nat) <= m,
        l + scale >= 3299,
        den > 0,
        m * pow2(scale) * den <= num * steps_per_quantum(),
    ensures
        r.is_rounding_of(r.sign(), num, den),
{
    let w = steps_per_quantum() as int;
    let top = pow2(2098) as int;
    let p = pow2(scale) as int;
    let lead = pow2((l - 1) as nat) as int;
    lemma_pow2_pos(1200);
    lemma_pow2_pos(scale);
    lemma_pow2_adds((l - 1) as nat, scale);
    lemma_pow2_adds(2098, 1200);
    if l - 1 + scale > 3298 {
        lemma_pow2_strictly_increases(3298, (l - 1 + scale) as nat);
    }
    assert(top * w <= lead * p);
    assert(top * w * den <= m * p * den) by (nonlinear_arith)
        requires
            top * w <= lead * p,
            lead <= m,
            p > 0,
            den > 0,
    ;
    assert(top * den <= num) by (nonlinear_arith)
        requires
            top * w * den <= num * w,
            w > 0,
    ;
    lemma_beyond_rounds_to_infinity(r, num, den);
}

/// An exact magnitude below half a quantum rounds to zero.
proof fn lemma_underflow_rounds_to_zero(
    r: Scalar,
    m: nat,
    l: nat,
    scale: nat,
    down: nat,
    more: bool,
    num: nat,
    den: nat,
)
    requires
        r.abs_bits() == 0,
        m < pow2(l),
        down > l,
        down + scale == 1200,
        brackets(m, scale, more, num, den),
    ensures
        r.is_rounding_of(r.sign(), num, den),
{
    let w = steps_per_quantum() as int;
    let p = pow2(scale) as int;
    let edge = pow2(l) as int;
    lemma_pow2_pos(scale);
    lemma_pow2_adds((down - 1) as nat, scale);
    lemma_pow2_unfold(1200);
    if l < down - 1 {
        lemma_pow2_strictly_increases(l, (down - 1) as nat);
    }
    // twice the exact magnitude is below one quantum
    assert(2 * (edge * p) <= w) by (nonlinear_arith)
        requires
            edge <= pow2((down - 1) as nat),
            pow2(1199) == pow2((down - 1) as nat) * p,
            w == 2 * pow2(1199),
            p > 0,
    ;
    assert((m + 1) * p * den <= edge * p * den) by (nonlinear_arith)
        requires
            m + 1 <= edge,
            p > 0,
            den > 0,
    ;
    assert(2 * num < den) by (nonlinear_arith)
        requires
            num * w < edge * p * den,
            2 * (edge * p) <= w,
            den > 0,
            w > 0,
            p > 0,
            edge > 0,
    ;
    let below = encode(0, 0);
    lemma_encode(0, 0);
    lemma_encode(0, 1);
    lemma2_to64();
    assert(below.successor() == encode(0, 1));
    lemma_mul_basics(den as int);
    lemma_rounds_to_neighbour(below, r, num, den);
}

/// The bits that are kept when the low `down` bits are rounded away make a
/// significand: below 2^53, and with its leading bit set unless the binade
/// is the lowest.
proof fn lemma_quotient_fits(m: nat, l: nat, scale: nat, t: nat, down: nat)
    requires
        l >= 1,
        pow2((l - 1) as nat) <= m < pow2(l),
        1 <= down <= l,
        t == if l + scale > 1253 {
            l + scale - 1253
        } else {
            0
        },
        down + scale == t + 1200,
    ensures
        m / pow2(down) < 2 * IMPLICIT_BIT,
        t > 0 ==> m / pow2(down) >= IMPLICIT_BIT,
{
    let d = pow2(down) as int;
    let q = m as int / d;
    lemma2_to64_rest();
    lemma_pow2_pos(down);
    vstd::arithmetic::div_mod::lemma_fundamental_div_mod(m as int, d);
    vstd::arithmetic::div_mod::lemma_mod_bound(m as int, d);
    lemma_pow2_adds(53, down);
    if l < 53 + down {
        lemma_pow2_strictly_increases(l, 53 + down);
    }
    assert(q < pow2(53)) by (nonlinear_arith)
        requires
            m == d * q + m as int % d,
            0 <= m as int % d < d,
            m < pow2(53) * d,
            d > 0,
    ;
    if t > 0 {
        lemma_pow2_adds(52, down);
        assert(q >= pow2(52)) by (nonlinear_arith)
            requires
                m == d * q + m as int % d,
                0 <= m as int % d < d,
                m >= pow2(52) * d,
                d > 0,
        ;
    }
}

} // verus!
