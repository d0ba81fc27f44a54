//! Addition and subtraction.

use crate::arithmetic::zero;
use crate::arithmetic::NAN_BITS;
use crate::rounding::lemma_rounding_exists;
use crate::rounding::lemma_rounding_is_unique;
use crate::rounding::round::brackets;
use crate::rounding::round::power_of_two;
use crate::rounding::round::round;
use crate::rounding::round::signed;
use crate::rounding::round::steps_per_quantum;
use crate::scalar::lemma_magnitude_order;
use crate::scalar::Scalar;
use crate::scalar::IMPLICIT_BIT;
use crate::scalar::INFINITY_BITS;
use crate::scalar::SIGN_BIT;
use core::ops::Add;
use core::ops::Neg;
use core::ops::Sub;
use vstd::arithmetic::mul::*;
use vstd::arithmetic::power2::*;
use vstd::prelude::*;
use vstd::std_specs::ops::AddSpecImpl;
use vstd::std_specs::ops::SubSpecImpl;

verus! {

fn sum(a: Scalar, b: Scalar) -> (r: Scalar)
    ensures
        r.is_sum_of(a, b),
{
    if a.is_nan() || b.is_nan() {
        return Scalar { bits: NAN_BITS };
    }
    let mine = a.abs().bits;
    let theirs = b.abs().bits;
    let my_sign = a.bits >= SIGN_BIT;
    let their_sign = b.bits >= SIGN_BIT;
    if mine == INFINITY_BITS {
        if theirs == INFINITY_BITS && my_sign != their_sign {
            return Scalar { bits: NAN_BITS };
        }
        return a;
    }
    if theirs == INFINITY_BITS {
        return b;
    }
    proof {
        lemma_magnitude_order(a, b);
        lemma_magnitude_order(b, a);
    }
    if my_sign != their_sign && mine == theirs {
        return Scalar { bits: 0 };
    }
    // the operand of greater magnitude gives the sign and the scale
    if mine >= theirs {
        combine(a, b, my_sign == their_sign)
    } else {
        combine(b, a, my_sign == their_sign)
    }
}

/// The sum of two finite magnitudes, or the greater less the smaller, with
/// the sign of the greater.
fn combine(big: Scalar, small: Scalar, same_sign: bool) -> (r: Scalar)
    requires
        big.is_finite(),
        small.is_finite(),
        big.abs_bits() >= small.abs_bits(),
        same_sign || big.abs_bits() > small.abs_bits(),
    ensures
        r.sign() == big.sign(),
        !r.is_nan(),
        exact_sum(big, small, same_sign) == 0 ==> r.is_zero(),
        exact_sum(big, small, same_sign) != 0 ==> r.is_rounding_of(
            big.sign(),
            exact_sum(big, small, same_sign),
            1,
        ),
{
    let negative = big.bits >= SIGN_BIT;
    let (sb, tb) = big.parts();
    let (ss, ts) = small.parts();
    let distance: u64 = tb - ts;
    proof {
        lemma2_to64();
    }
    let wide_big: u128 = sb as u128 * 0x1_0000_0000_0000_0000;
    let wide_small: u128 = ss as u128 * 0x1_0000_0000_0000_0000;
    // the smaller operand on the scale of the greater: what falls off
    // at the low end is remembered, not kept
    let (aligned, lost) = if distance >= 118 {
        (0u128, ss != 0)
    } else {
        let step = power_of_two(distance as u32);
        proof {
            lemma_pow2_pos(distance as nat);
        }
        (wide_small / step, wide_small % step != 0)
    };
    proof {
        lemma_aligned(big, small, aligned as nat, lost);
    }
    let m: u128 = if same_sign {
        wide_big + aligned
    } else if lost {
        wide_big - aligned - 1
    } else {
        wide_big - aligned
    };
    proof {
        lemma_sum_brackets(big, small, same_sign, aligned as nat, lost, m as nat);
    }
    if m == 0 {
        proof {
            lemma_no_steps_no_sum(big, small, same_sign);
        }
        return signed(negative, 0);
    }
    let r = round(negative, m, tb + 1136, lost, Ghost(exact_sum(big, small, same_sign)), Ghost(1));
    proof {
        lemma_some_steps_some_sum(
            m as nat,
            big.scale() + 1136,
            lost,
            exact_sum(big, small, same_sign),
        );
    }
    r
}

impl Add for Scalar {
    type Output = Scalar;

    fn add(self, other: Scalar) -> (r: Scalar)
        ensures
            r.is_sum_of(self, other),
    {
        let r = sum(self, other);
        proof {
            lemma_sum_is_unique(r, self, other);
        }
        r
    }
}

impl AddSpecImpl for Scalar {
    open spec fn obeys_add_spec() -> bool {
        true
    }

    open spec fn add_req(self, other: Scalar) -> bool {
        true
    }

    open spec fn add_spec(self, other: Scalar) -> Scalar {
        self.plus(other)
    }
}

impl Sub for Scalar {
    type Output = Scalar;

    fn sub(self, other: Scalar) -> (r: Scalar)
        ensures
            r.is_difference_of(self, other),
    {
        self.add(other.neg())
    }
}

impl SubSpecImpl for Scalar {
    open spec fn obeys_sub_spec() -> bool {
        true
    }

    open spec fn sub_req(self, other: Scalar) -> bool {
        true
    }

    open spec fn sub_spec(self, other: Scalar) -> Scalar {
        self.minus(other)
    }
}

/// What `plus` names is the sum, and what `minus` names the difference.
pub proof fn lemma_plus(a: Scalar, b: Scalar)
    ensures
        a.plus(b).is_sum_of(a, b),
        a.minus(b).is_difference_of(a, b),
{
    lemma_plus_is_sum(a, b);
    lemma_plus_is_sum(a, b.negated());
}

proof fn lemma_plus_is_sum(a: Scalar, b: Scalar)
    ensures
        a.plus(b).is_sum_of(a, b),
{
    let x = a.quanta() + b.quanta();
    if a.is_nan() || b.is_nan() || (a.is_infinite() && b.is_infinite() && a.sign() != b.sign()) {
        assert(Scalar { bits: NAN_BITS }.is_sum_of(a, b));
    } else if a.is_infinite() {
        assert(a.is_sum_of(a, b));
    } else if b.is_infinite() {
        assert(b.is_sum_of(a, b));
    } else if x == 0 {
        assert(zero(a.sign() && b.sign()).is_sum_of(a, b));
    } else if x < 0 {
        let num = (-x) as nat;
        lemma_rounding_exists(true, num, 1);
        let r = choose|r: Scalar| r.is_rounding_of(true, num, 1);
        assert(r.is_sum_of(a, b));
    } else {
        let num = x as nat;
        lemma_rounding_exists(false, num, 1);
        let r = choose|r: Scalar| r.is_rounding_of(false, num, 1);
        assert(r.is_sum_of(a, b));
    }
}

/// Two scalars have one sum: `plus` names it.
pub proof fn lemma_sum_is_unique(r: Scalar, a: Scalar, b: Scalar)
    requires
        r.is_sum_of(a, b),
    ensures
        r == a.plus(b),
{
    let s = a.plus(b);
    let x = a.quanta() + b.quanta();
    if x < 0 && s.is_rounding_of(true, (-x) as nat, 1) {
        lemma_rounding_is_unique(r, s, true, (-x) as nat, 1);
    }
    if x > 0 && s.is_rounding_of(false, x as nat, 1) {
        lemma_rounding_is_unique(r, s, false, x as nat, 1);
    }
}

/// What the smaller of two operands comes to on the scale of the greater,
/// extended by 64 bits: `aligned` whole steps, and less than one step more
/// where `lost` is set.
pub open spec fn aligns(big: Scalar, small: Scalar, aligned: nat, lost: bool) -> bool {
    let step = pow2((big.scale() - small.scale()) as nat);
    let wide = small.significand() * pow2(64);
    &&& aligned * step <= wide < (aligned + 1) * step
    &&& lost == (aligned * step < wide)
}

/// The steps that the sum or difference comes to: the extended significand
/// of the greater operand, plus or minus the aligned smaller one, and one
/// less where something of the smaller was lost that is to be taken away.
pub open spec fn combined(big_significand: nat, same_sign: bool, aligned: nat, lost: bool) -> nat {
    if same_sign {
        big_significand * pow2(64) + aligned
    } else if lost {
        (big_significand * pow2(64) - aligned - 1) as nat
    } else {
        (big_significand * pow2(64) - aligned) as nat
    }
}

/// The exact sum of two magnitudes taken with the same sign, or their
/// difference, the greater first.
pub open spec fn exact_sum(big: Scalar, small: Scalar, same_sign: bool) -> nat {
    if same_sign {
        big.magnitude() + small.magnitude()
    } else {
        (big.magnitude() - small.magnitude()) as nat
    }
}

/// The whole quotient of the extended significand by the distance between
/// the scales aligns the smaller operand; far enough away, nothing whole is
/// left of it.
proof fn lemma_aligned(big: Scalar, small: Scalar, aligned: nat, lost: bool)
    requires
        big.abs_bits() >= small.abs_bits(),
        big.scale() - small.scale() < 118 ==> {
            &&& aligned == (small.significand() * pow2(64)) / pow2(
                (big.scale() - small.scale()) as nat,
            )
            &&& lost == ((small.significand() * pow2(64)) % pow2(
                (big.scale() - small.scale()) as nat,
            ) != 0)
        },
        big.scale() - small.scale() >= 118 ==> aligned == 0 && lost == (small.significand() != 0),
    ensures
        big.scale() >= small.scale(),
        aligns(big, small, aligned, lost),
        aligned <= small.significand() * pow2(64),
        lost ==> big.scale() - small.scale() > 64,
        lost ==> aligned < IMPLICIT_BIT,
        aligned <= big.significand() * pow2(64),
        lost || big.abs_bits() > small.abs_bits() ==> aligned < big.significand() * pow2(64),
{
    let d = (big.scale() - small.scale()) as nat;
    let step = pow2(d) as int;
    let wide = (small.significand() * pow2(64)) as int;
    lemma2_to64();
    lemma2_to64_rest();
    lemma_pow2_pos(d);
    assert(big.exponent() >= small.exponent());
    assert(wide < 0x20_0000_0000_0000 * 0x1_0000_0000_0000_0000) by (nonlinear_arith)
        requires
            wide == small.significand() * 0x1_0000_0000_0000_0000,
            small.significand() < 0x20_0000_0000_0000,
    ;
    if d >= 118 {
        lemma_pow2_adds(53, 64);
        if d > 117 {
            lemma_pow2_strictly_increases(117, d);
        }
        lemma_mul_basics(step);
        if small.significand() != 0 {
            assert(wide > 0) by (nonlinear_arith)
                requires
                    wide == small.significand() * 0x1_0000_0000_0000_0000,
                    small.significand() > 0,
            ;
        } else {
            assert(wide == 0) by (nonlinear_arith)
                requires
                    wide == small.significand() * 0x1_0000_0000_0000_0000,
                    small.significand() == 0,
            ;
        }
    } else {
        vstd::arithmetic::div_mod::lemma_fundamental_div_mod(wide, step);
        vstd::arithmetic::div_mod::lemma_mod_bound(wide, step);
        let rest = wide % step;
        assert(aligned * step <= wide && wide < (aligned + 1) * step && (rest != 0 <==> aligned
            * step < wide) && aligned <= wide) by (nonlinear_arith)
            requires
                wide == step * aligned + rest,
                0 <= rest < step,
                step >= 1,
                aligned >= 0,
        ;
        if d <= 64 {
            // the extension holds the whole shift: nothing falls off
            lemma_pow2_adds((64 - d) as nat, d);
            let part = small.significand() * pow2((64 - d) as nat);
            assert(wide == part * step) by (nonlinear_arith)
                requires
                    wide == small.significand() * pow2(64),
                    pow2(64) == pow2((64 - d) as nat) * step,
                    part == small.significand() * pow2((64 - d) as nat),
            ;
            vstd::arithmetic::div_mod::lemma_mod_multiples_basic(part as int, step);
        } else {
            lemma_pow2_adds(64, (d - 64) as nat);
            lemma_pow2_unfold((d - 64) as nat);
            lemma_pow2_pos((d - 65) as nat);
            assert(aligned < 0x10_0000_0000_0000) by (nonlinear_arith)
                requires
                    aligned * step <= wide,
                    wide < 0x20_0000_0000_0000 * 0x1_0000_0000_0000_0000,
                    step == 0x1_0000_0000_0000_0000 * pow2((d - 64) as nat),
                    pow2((d - 64) as nat) >= 2,
                    aligned >= 0,
            ;
        }
    }
    lemma_aligned_is_less(big, small, aligned, lost);
}

/// The aligned smaller operand is no more than the extended significand of
/// the greater, and less where something was lost or the magnitudes differ.
proof fn lemma_aligned_is_less(big: Scalar, small: Scalar, aligned: nat, lost: bool)
    requires
        big.abs_bits() >= small.abs_bits(),
        big.scale() >= small.scale(),
        aligned * pow2((big.scale() - small.scale()) as nat) <= small.significand() * pow2(64),
        lost ==> aligned * pow2((big.scale() - small.scale()) as nat) < small.significand()
            * pow2(64),
    ensures
        aligned <= big.significand() * pow2(64),
        lost || big.abs_bits() > small.abs_bits() ==> aligned < big.significand() * pow2(64),
{
    let d = (big.scale() - small.scale()) as nat;
    let step = pow2(d) as int;
    let sb = big.significand() as int;
    let ss = small.significand() as int;
    let ps = pow2(small.scale()) as int;
    let pb = pow2(big.scale()) as int;
    let w64 = pow2(64) as int;
    lemma_pow2_pos(d);
    lemma_pow2_pos(64);
    lemma_pow2_pos(small.scale());
    lemma_pow2_adds(d, small.scale());
    lemma_magnitude_order(big, small);
    lemma_magnitude_order(small, big);
    // the magnitudes, brought down to the scale of the smaller operand
    assert(sb * step >= ss && (big.abs_bits() > small.abs_bits() ==> sb * step > ss))
        by (nonlinear_arith)
        requires
            sb * pb >= ss * ps,
            big.abs_bits() > small.abs_bits() ==> sb * pb > ss * ps,
            pb == step * ps,
            ps > 0,
    ;
    let a = aligned as int;
    assert(a <= sb * w64 && (lost || big.abs_bits() > small.abs_bits() ==> a < sb * w64))
        by (nonlinear_arith)
        requires
            sb * step >= ss,
            big.abs_bits() > small.abs_bits() ==> sb * step > ss,
            a * step <= ss * w64,
            lost ==> a * step < ss * w64,
            step > 0,
            w64 > 0,
            a >= 0,
    ;
}

/// The sum or the difference of the extended significand of the greater
/// operand and the aligned smaller one, taken as so many steps on the scale
/// of the greater, is the whole part of the exact sum or difference of the
/// magnitudes.
proof fn lemma_sum_brackets(
    big: Scalar,
    small: Scalar,
    same_sign: bool,
    aligned: nat,
    lost: bool,
    m: nat,
)
    requires
        big.abs_bits() >= small.abs_bits(),
        big.scale() >= small.scale(),
        aligns(big, small, aligned, lost),
        same_sign || big.abs_bits() > small.abs_bits(),
        lost ==> big.scale() > small.scale() && aligned < IMPLICIT_BIT,
        aligned <= small.significand() * pow2(64),
        aligned <= big.significand() * pow2(64),
        lost ==> aligned < big.significand() * pow2(64),
        m == combined(big.significand(), same_sign, aligned, lost),
    ensures
        big.magnitude() >= small.magnitude(),
        brackets(m, big.scale() + 1136, lost, exact_sum(big, small, same_sign), 1),
        m < 0x100_0000_0000_0000_0000_0000_0000_0000,
        lost ==> m >= 0x40_0000_0000_0000,
{
    let d = (big.scale() - small.scale()) as nat;
    let step = pow2(d) as int;
    let sb = big.significand() as int;
    let ss = small.significand() as int;
    let w64 = pow2(64) as int;
    let wide_big = sb * w64;
    let wide_small = ss * w64;
    let ps = pow2(small.scale()) as int;
    let pb = pow2(big.scale()) as int;
    let c = ps * pow2(1136);
    let w = steps_per_quantum() as int;
    lemma2_to64();
    lemma2_to64_rest();
    lemma_pow2_pos(d);
    lemma_pow2_pos(small.scale());
    lemma_pow2_pos(1136);
    lemma_pow2_adds(d, small.scale());
    lemma_pow2_adds(big.scale(), 1136);
    lemma_pow2_adds(64, 1136);
    lemma_magnitude_order(big, small);
    lemma_magnitude_order(small, big);
    assert(c > 0) by (nonlinear_arith)
        requires
            c == ps * pow2(1136),
            ps > 0,
            pow2(1136) > 0,
    ;
    // on the scale of the smaller operand, in 64 bits more
    let mb = big.magnitude() as int;
    let ms = small.magnitude() as int;
    assert(mb * w == (wide_big * step) * c && ms * w == wide_small * c && pow2(big.scale() + 1136)
        == step * c) by (nonlinear_arith)
        requires
            mb == sb * pb,
            ms == ss * ps,
            pb == step * ps,
            w == w64 * pow2(1136),
            wide_big == sb * w64,
            wide_small == ss * w64,
            c == ps * pow2(1136),
            pow2(big.scale() + 1136) == pb * pow2(1136),
    ;
    let scale_step = pow2(big.scale() + 1136) as int;
    assert(wide_big < 0x20_0000_0000_0000 * 0x1_0000_0000_0000_0000 && wide_small
        < 0x20_0000_0000_0000 * 0x1_0000_0000_0000_0000) by (nonlinear_arith)
        requires
            wide_big == sb * 0x1_0000_0000_0000_0000,
            wide_small == ss * 0x1_0000_0000_0000_0000,
            0 <= sb < 0x20_0000_0000_0000,
            0 <= ss < 0x20_0000_0000_0000,
    ;
    let rest = wide_small - aligned * step;
    assert(0 <= rest < step && (lost <==> rest > 0)) by (nonlinear_arith)
        requires
            aligned * step <= wide_small < (aligned + 1) * step,
            lost == (aligned * step < wide_small),
            rest == wide_small - aligned * step,
    ;
    assert(aligned <= wide_small) by (nonlinear_arith)
        requires
            aligned * step <= wide_small,
            step >= 1,
            aligned >= 0,
    ;
    if lost {
        assert(sb >= IMPLICIT_BIT);
        assert(wide_big >= 0x10_0000_0000_0000 * 0x1_0000_0000_0000_0000) by (nonlinear_arith)
            requires
                wide_big == sb * 0x1_0000_0000_0000_0000,
                sb >= 0x10_0000_0000_0000,
        ;
    }
    let exact = exact_sum(big, small, same_sign) as int;
    let m_step = m * step;
    let big_step = wide_big * step;
    let aligned_step = aligned * step;
    assert(m_step == big_step + aligned_step || !same_sign) by (nonlinear_arith)
        requires
            m_step == m * step,
            big_step == wide_big * step,
            aligned_step == aligned * step,
            same_sign ==> m == wide_big + aligned,
    ;
    assert(m_step == big_step - aligned_step - step || same_sign || !lost) by (nonlinear_arith)
        requires
            m_step == m * step,
            big_step == wide_big * step,
            aligned_step == aligned * step,
            !same_sign && lost ==> m == wide_big - aligned - 1,
    ;
    assert(m_step == big_step - aligned_step || same_sign || lost) by (nonlinear_arith)
        requires
            m_step == m * step,
            big_step == wide_big * step,
            aligned_step == aligned * step,
            !same_sign && !lost ==> m == wide_big - aligned,
    ;
    let on_small = if same_sign {
        big_step + wide_small
    } else {
        big_step - wide_small
    };
    assert(m_step <= on_small < m_step + step && (lost <==> m_step < on_small));
    assert(mb * w + ms * w == (big_step + wide_small) * c && mb * w - ms * w == (big_step
        - wide_small) * c) by (nonlinear_arith)
        requires
            mb * w == big_step * c,
            ms * w == wide_small * c,
    ;
    assert((mb + ms) * w == mb * w + ms * w && (mb - ms) * w == mb * w - ms * w)
        by (nonlinear_arith);
    assert(exact * w == on_small * c);
    assert(m * scale_step == m_step * c && (m + 1) * scale_step == (m_step + step) * c)
        by (nonlinear_arith)
        requires
            scale_step == step * c,
            m_step == m * step,
    ;
    assert(m_step * c <= on_small * c < (m_step + step) * c && (m_step < on_small <==> m_step * c
        < on_small * c)) by (nonlinear_arith)
        requires
            m_step <= on_small < m_step + step,
            c > 0,
    ;
    lemma_mul_basics(m * scale_step);
    lemma_mul_basics((m + 1) * scale_step);
}

/// Where the steps of a sum come to none, the exact sum is zero.
proof fn lemma_no_steps_no_sum(big: Scalar, small: Scalar, same_sign: bool)
    requires
        exists|lost: bool| #[trigger]
            brackets(0, big.scale() + 1136, lost, exact_sum(big, small, same_sign), 1) && !lost,
    ensures
        exact_sum(big, small, same_sign) == 0,
{
    let num = exact_sum(big, small, same_sign);
    lemma_pow2_pos(1200);
    lemma_mul_basics(pow2(big.scale() + 1136) as int);
    assert(num == 0) by (nonlinear_arith)
        requires
            num * steps_per_quantum() == 0,
            steps_per_quantum() > 0,
    ;
}

/// Where the steps of a sum come to some, the exact sum is not zero.
proof fn lemma_some_steps_some_sum(m: nat, scale: nat, lost: bool, num: nat)
    requires
        m > 0,
        brackets(m, scale, lost, num, 1),
    ensures
        num != 0,
{
    lemma_pow2_pos(scale);
    assert(m * pow2(scale) * 1 > 0) by (nonlinear_arith)
        requires
            m > 0,
            pow2(scale) > 0,
    ;
}

} // verus!
