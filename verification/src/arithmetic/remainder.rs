//! The remainder of a division.

use crate::arithmetic::NAN_BITS;
use crate::rounding::encode;
use crate::rounding::lemma_encode;
use crate::rounding::round::signed;
use crate::scalar::lemma_magnitude_order;
use crate::scalar::lemma_magnitude_zero;
use crate::scalar::lemma_one_encoding;
use crate::scalar::Scalar;
use crate::scalar::IMPLICIT_BIT;
use crate::scalar::INFINITY_BITS;
use crate::scalar::SIGN_BIT;
use core::ops::Rem;
use vstd::arithmetic::div_mod::lemma_mul_mod_noop_right;
use vstd::arithmetic::div_mod::lemma_small_mod;
use vstd::arithmetic::div_mod::lemma_truncate_middle;
use vstd::arithmetic::mul::*;
use vstd::arithmetic::power2::*;
use vstd::prelude::*;
use vstd::std_specs::ops::RemSpecImpl;

verus! {

fn remainder(a: Scalar, b: Scalar) -> (r: Scalar)
    ensures
        r.is_remainder_of(a, b),
{
    if a.is_nan() || b.is_nan() {
        return Scalar { bits: NAN_BITS };
    }
    let mine = a.abs().bits;
    let theirs = b.abs().bits;
    if mine == INFINITY_BITS || theirs == 0 {
        return Scalar { bits: NAN_BITS };
    }
    if theirs == INFINITY_BITS {
        return a;
    }
    proof {
        lemma_magnitude_order(a, b);
        lemma_magnitude_order(b, a);
        lemma_magnitude_zero(b);
    }
    if mine < theirs {
        proof {
            lemma_small_mod(a.magnitude(), b.magnitude());
        }
        return a;
    }
    let (sa, ta) = a.parts();
    let (sb, tb) = b.parts();
    proof {
        lemma_pow2_pos(tb as nat);
        if sb == 0 {
            lemma_mul_basics(pow2(tb as nat) as int);
        }
        lemma2_to64();
        lemma_mul_basics(sa as int);
    }
    // long division, a bit of the quotient at a time: only what is left
    // is kept
    let mut left: u64 = sa % sb;
    let mut done: u64 = 0;
    while done < ta - tb
        invariant
            done <= ta - tb,
            tb <= ta <= 2046,
            0 < sb < 2 * IMPLICIT_BIT,
            left == (sa * pow2(done as nat)) % (sb as int),
        decreases ta - tb - done,
    {
        proof {
            lemma_pow2_unfold((done + 1) as nat);
            lemma_mul_mod_noop_right(2, sa * pow2(done as nat), sb as int);
            assert(2 * (sa * pow2(done as nat)) == sa * (2 * pow2(done as nat)))
                by (nonlinear_arith);
        }
        left = (left * 2) % sb;
        done = done + 1;
    }
    proof {
        lemma_remainder(a, b, left as nat);
    }
    exact(a.bits >= SIGN_BIT, left, tb)
}

/// The scalar of the given sign whose magnitude is `q * 2^t` quanta: the
/// significand is shifted up to its place, as far as the scale lets it.
fn exact(negative: bool, q: u64, t: u64) -> (r: Scalar)
    requires
        q < 2 * IMPLICIT_BIT,
        t <= 2045,
    ensures
        r.is_finite(),
        r.sign() == negative,
        r.magnitude() == q * pow2(t as nat),
{
    let mut significand = q;
    let mut scale = t;
    while scale > 0 && significand < IMPLICIT_BIT
        invariant
            scale <= t <= 2045,
            significand < 2 * IMPLICIT_BIT,
            significand * pow2(scale as nat) == q * pow2(t as nat),
        decreases scale,
    {
        proof {
            lemma_pow2_unfold(scale as nat);
            assert((2 * significand) * pow2((scale - 1) as nat) == significand * (2 * pow2(
                (scale - 1) as nat,
            ))) by (nonlinear_arith);
        }
        significand = significand * 2;
        scale = scale - 1;
    }
    proof {
        lemma_encode(scale as nat, significand as nat);
    }
    signed(negative, scale * IMPLICIT_BIT + significand)
}

impl Rem for Scalar {
    type Output = Scalar;

    fn rem(self, other: Scalar) -> (r: Scalar)
        ensures
            r.is_remainder_of(self, other),
    {
        let r = remainder(self, other);
        proof {
            lemma_remainder_is_unique(r, self, other);
        }
        r
    }
}

impl RemSpecImpl for Scalar {
    open spec fn obeys_rem_spec() -> bool {
        true
    }

    open spec fn rem_req(self, other: Scalar) -> bool {
        true
    }

    open spec fn rem_spec(self, other: Scalar) -> Scalar {
        self.modulo(other)
    }
}

/// What `modulo` names is the remainder.
pub proof fn lemma_modulo(a: Scalar, b: Scalar)
    ensures
        a.modulo(b).is_remainder_of(a, b),
{
    if a.is_nan() || b.is_nan() || a.is_infinite() || b.is_zero() {
        assert(Scalar { bits: NAN_BITS }.is_remainder_of(a, b));
    } else if b.is_infinite() {
        assert(a.is_remainder_of(a, b));
    } else {
        lemma_magnitude_order(a, b);
        lemma_magnitude_order(b, a);
        lemma_magnitude_zero(b);
        if a.abs_bits() < b.abs_bits() {
            lemma_small_mod(a.magnitude(), b.magnitude());
            assert(a.is_remainder_of(a, b));
        } else {
            lemma_pow2_pos(b.scale());
            if b.significand() == 0 {
                lemma_mul_basics(pow2(b.scale()) as int);
            }
            let wide = a.significand() * pow2((a.scale() - b.scale()) as nat);
            let left = wide % b.significand();
            lemma_remainder(a, b, left);
            lemma_exact_exists(a.sign(), left, b.scale());
            let r = choose|r: Scalar|
                r.is_finite() && r.sign() == a.sign() && #[trigger] r.magnitude() == left * pow2(
                    b.scale(),
                );
            assert(r.is_remainder_of(a, b));
        }
    }
}

/// Two scalars have one remainder: `modulo` names it.
pub proof fn lemma_remainder_is_unique(r: Scalar, a: Scalar, b: Scalar)
    requires
        r.is_remainder_of(a, b),
    ensures
        r == a.modulo(b),
{
    let m = a.modulo(b);
    lemma_one_encoding(r, m);
}

/// A significand on a scale makes a finite scalar of either sign.
proof fn lemma_exact_exists(negative: bool, q: nat, t: nat)
    requires
        q < 2 * IMPLICIT_BIT,
        t <= 2045,
    ensures
        exists|r: Scalar|
            r.is_finite() && r.sign() == negative && #[trigger] r.magnitude() == q * pow2(t),
    decreases t,
{
    if t == 0 || q >= IMPLICIT_BIT {
        lemma_encode(t, q);
        let plain = encode(t, q);
        let r = if negative {
            Scalar { bits: (plain.bits + SIGN_BIT) as u64 }
        } else {
            plain
        };
        assert(r.abs_bits() == plain.bits);
        assert(r.is_finite() && r.sign() == negative && r.magnitude() == q * pow2(t));
    } else {
        lemma_exact_exists(negative, 2 * q, (t - 1) as nat);
        lemma_pow2_unfold(t);
        assert((2 * q) * pow2((t - 1) as nat) == q * (2 * pow2((t - 1) as nat)))
            by (nonlinear_arith);
    }
}

/// What the significand of the dividend, brought to the scale of the
/// divisor, leaves on division by the significand of the divisor, is on
/// that scale what the magnitudes leave.
proof fn lemma_remainder(a: Scalar, b: Scalar, left: nat)
    requires
        b.is_finite(),
        a.scale() >= b.scale(),
        b.significand() > 0,
        left == (a.significand() * pow2((a.scale() - b.scale()) as nat)) % b.significand(),
    ensures
        left * pow2(b.scale()) == a.magnitude() % b.magnitude(),
        left < b.significand(),
        b.scale() <= 2045,
{
    let d = (a.scale() - b.scale()) as nat;
    let sa = a.significand() as int;
    let sb = b.significand() as int;
    let pb = pow2(b.scale()) as int;
    let up = pow2(d) as int;
    lemma_pow2_pos(b.scale());
    lemma_pow2_pos(d);
    lemma_pow2_adds(d, b.scale());
    assert(sa * up >= 0) by (nonlinear_arith)
        requires
            sa >= 0,
            up > 0,
    ;
    lemma_truncate_middle(sa * up, pb, sb);
    assert(a.magnitude() == pb * (sa * up)) by (nonlinear_arith)
        requires
            a.magnitude() == sa * pow2(a.scale()),
            pow2(a.scale()) == up * pb,
    ;
    assert(b.magnitude() == pb * sb) by (nonlinear_arith)
        requires
            b.magnitude() == sb * pb,
    ;
    assert(left * pb == pb * left) by (nonlinear_arith);
    vstd::arithmetic::div_mod::lemma_mod_bound(sa * up, sb);
}

} // verus!
