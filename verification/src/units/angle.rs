//! Angles, held in radians.

use crate::arithmetic::remainder::lemma_modulo;
use crate::arithmetic::zero;
use crate::arithmetic::sum::lemma_plus;
use crate::laws::in_range;
use crate::laws::lemma_whole_product;
use crate::laws::lemma_zero_is_near;
use crate::laws::lemma_zero_stays_zero;
use crate::laws::chain::lemma_bounds_over;
use crate::laws::chain::lemma_bounds_times;
use crate::laws::chain::lemma_in_range_scaled;
use crate::laws::chain::lemma_ordinary;
use crate::laws::chain::lemma_tracks_itself;
use crate::laws::chain::lemma_over_tracks;
use crate::laws::chain::lemma_times_tracks;
use crate::laws::chain::lemma_tracks_is_near;
use crate::rounding::lemma_rounding_is_unique;
use crate::rounding::lemma_rounding_keeps_order;
use crate::rounding::lemma_rounds_to_neighbour;
use crate::scalar::lemma_magnitude_order;
use crate::scalar::lemma_magnitude_zero;
use crate::scalar::lemma_scaled;
use crate::scalar::lemma_whole;
use crate::scalar::quanta_per_unit;
use crate::scalar::scalar;
use crate::scalar::Scalar;
use crate::text::rendered;
use core::cmp::Ordering;
use core::ops::Add;
use core::ops::Div;
use core::ops::Mul;
use core::ops::Neg;
use core::ops::Rem;
use core::ops::Sub;
use vstd::arithmetic::power2::lemma2_to64;
use vstd::arithmetic::power2::lemma2_to64_rest;
use vstd::arithmetic::power2::lemma_pow2_pos;
use vstd::arithmetic::power2::lemma_pow2_unfold;
use vstd::arithmetic::power2::pow2;
use vstd::prelude::*;
use vstd::std_specs::cmp::PartialEqSpecImpl;
use vstd::std_specs::cmp::PartialOrdSpecImpl;
use vstd::std_specs::ops::AddSpecImpl;
use vstd::std_specs::ops::DivSpecImpl;
use vstd::std_specs::ops::MulSpecImpl;
use vstd::std_specs::ops::NegSpecImpl;
use vstd::std_specs::ops::SubSpecImpl;
use vstd::string::StringExecFns;

verus! {

/// Radians in half a turn: the scalar next to pi.
pub const HALF_TURN: u64 = 0x4009_21FB_5444_2D18;

/// Radians in a full turn: twice that scalar.
pub const FULL_TURN: u64 = 0x4019_21FB_5444_2D18;

/// Degrees in half a turn: 180.
pub const DEGREES_PER_HALF_TURN: u64 = 0x4066_8000_0000_0000;

/// Arcminutes in a degree: 60.
pub const ARCMINUTES_PER_DEGREE: u64 = 0x404E_0000_0000_0000;

/// Arcseconds in a degree: 3600.
pub const ARCSECONDS_PER_DEGREE: u64 = 0x40AC_2000_0000_0000;

/// Half turns in a revolution: 2.
pub const HALF_TURNS_PER_REVOLUTION: u64 = 0x4000_0000_0000_0000;

/// The constants of this kind: half a turn lies between 3.141592653589793
/// and 3.141592653589794, a full turn is twice half a turn, exactly, and
/// the others are whole numbers.
pub proof fn lemma_angle_constants()
    ensures
        scalar(HALF_TURN).is_finite(),
        !scalar(HALF_TURN).sign(),
        3_141_592_653_589_793 * quanta_per_unit() < scalar(HALF_TURN).quanta()
            * 1_000_000_000_000_000 < 3_141_592_653_589_794 * quanta_per_unit(),
        scalar(FULL_TURN).is_finite(),
        !scalar(FULL_TURN).sign(),
        scalar(FULL_TURN).quanta() == 2 * scalar(HALF_TURN).quanta(),
        scalar(DEGREES_PER_HALF_TURN).is_integer(180),
        scalar(ARCMINUTES_PER_DEGREE).is_integer(60),
        scalar(ARCSECONDS_PER_DEGREE).is_integer(3600),
        scalar(HALF_TURNS_PER_REVOLUTION).is_integer(2),
{
    lemma2_to64_rest();
    lemma_whole(scalar(DEGREES_PER_HALF_TURN), 180, 45);
    lemma_whole(scalar(ARCMINUTES_PER_DEGREE), 60, 47);
    lemma_whole(scalar(ARCSECONDS_PER_DEGREE), 3600, 41);
    lemma_whole(scalar(HALF_TURNS_PER_REVOLUTION), 2, 51);
    // half a turn, in units of 2^-51
    let half = scalar(HALF_TURN);
    lemma_scaled(half, 51);
    let one = quanta_per_unit() as int;
    let q = half.quanta();
    let s = half.significand() as int;
    assert(3_141_592_653_589_793 * one < q * 1_000_000_000_000_000 < 3_141_592_653_589_794 * one)
        by (nonlinear_arith)
        requires
            q * 0x8_0000_0000_0000 == s * one,
            3_141_592_653_589_793 * 0x8_0000_0000_0000 < s * 1_000_000_000_000_000,
            s * 1_000_000_000_000_000 < 3_141_592_653_589_794 * 0x8_0000_0000_0000,
            one > 0,
    ;
    // a full turn: the same significand, one binade up
    let full = scalar(FULL_TURN);
    lemma_pow2_unfold(full.scale());
    let p = pow2(half.scale()) as int;
    assert(s * (2 * p) == 2 * (s * p)) by (nonlinear_arith);
}

/// Arcminutes in half a turn: 10800.
pub const ARCMINUTES_PER_HALF_TURN: u64 = 0x40C5_1800_0000_0000;

/// Arcseconds in half a turn: 648000.
pub const ARCSECONDS_PER_HALF_TURN: u64 = 0x4123_C680_0000_0000;

/// The arcminutes and the arcseconds in half a turn are the products of
/// the degrees in half a turn and what a degree holds of each: the
/// products are exact.
pub proof fn lemma_angle_products()
    ensures
        scalar(DEGREES_PER_HALF_TURN).times(scalar(ARCMINUTES_PER_DEGREE)) == scalar(
            ARCMINUTES_PER_HALF_TURN,
        ),
        scalar(DEGREES_PER_HALF_TURN).times(scalar(ARCSECONDS_PER_DEGREE)) == scalar(
            ARCSECONDS_PER_HALF_TURN,
        ),
        scalar(ARCMINUTES_PER_HALF_TURN).is_integer(10_800),
        scalar(ARCSECONDS_PER_HALF_TURN).is_integer(648_000),
{
    lemma_angle_constants();
    lemma2_to64_rest();
    lemma_whole(scalar(ARCMINUTES_PER_HALF_TURN), 10_800, 39);
    lemma_whole(scalar(ARCSECONDS_PER_HALF_TURN), 648_000, 33);
    lemma_whole_product(
        scalar(DEGREES_PER_HALF_TURN),
        scalar(ARCMINUTES_PER_DEGREE),
        scalar(ARCMINUTES_PER_HALF_TURN),
        180,
        60,
    );
    lemma_whole_product(
        scalar(DEGREES_PER_HALF_TURN),
        scalar(ARCSECONDS_PER_DEGREE),
        scalar(ARCSECONDS_PER_HALF_TURN),
        180,
        3600,
    );
}

/// The sizes of the constants of this kind, each between two powers of
/// two.
proof fn lemma_angle_sizes()
    ensures
        half_turn().is_between(1, 2),
        full_turn().is_between(2, 3),
        scalar(HALF_TURNS_PER_REVOLUTION).is_between(1, 1),
        scalar(DEGREES_PER_HALF_TURN).is_between(7, 8),
        scalar(ARCMINUTES_PER_DEGREE).is_between(5, 6),
        scalar(ARCSECONDS_PER_DEGREE).is_between(11, 12),
        scalar(ARCMINUTES_PER_HALF_TURN).is_between(13, 14),
        scalar(ARCSECONDS_PER_HALF_TURN).is_between(19, 20),
{
    lemma_angle_constants();
    lemma_angle_products();
    lemma2_to64();
    lemma_pow2_pos(1074);
    let one = quanta_per_unit() as int;
    let q = half_turn().quanta();
    assert(2 * one <= q <= 4 * one) by (nonlinear_arith)
        requires
            3_141_592_653_589_793 * one < q * 1_000_000_000_000_000,
            q * 1_000_000_000_000_000 < 3_141_592_653_589_794 * one,
            one > 0,
    ;
}

/// Whether a number of degrees is in range, and with it what it is made
/// into on the way to radians and back: the number times pi, and that over
/// 180.
pub open spec fn degrees_in_range(v: Scalar) -> bool {
    &&& v.is_in_range()
    &&& in_range(v.magnitude() * half_turn().magnitude(), quanta_per_unit())
    &&& in_range(
        v.magnitude() * half_turn().magnitude(),
        scalar(DEGREES_PER_HALF_TURN).magnitude(),
    )
}

/// Whether a number of parts of a degree is in range, `all` of them to
/// half a turn, and with it what it is made into on the way to radians and
/// back: the number times pi, that over `all`, and that times 180.
pub open spec fn parts_in_range(v: Scalar, all: Scalar) -> bool {
    &&& v.is_in_range()
    &&& in_range(v.magnitude() * half_turn().magnitude(), quanta_per_unit())
    &&& in_range(v.magnitude() * half_turn().magnitude(), all.magnitude())
    &&& in_range(
        v.magnitude() * half_turn().magnitude() * scalar(DEGREES_PER_HALF_TURN).magnitude(),
        all.magnitude() * quanta_per_unit(),
    )
}

/// Whether a number of revolutions is in range, and with it what it is
/// made into on the way to radians: twice the number, and that times pi.
pub open spec fn revolutions_in_range(v: Scalar) -> bool {
    &&& v.is_in_range()
    &&& in_range(
        v.magnitude() * scalar(HALF_TURNS_PER_REVOLUTION).magnitude(),
        quanta_per_unit(),
    )
    &&& in_range(
        v.magnitude() * scalar(HALF_TURNS_PER_REVOLUTION).magnitude() * half_turn().magnitude(),
        quanta_per_unit() * quanta_per_unit(),
    )
}

/// An angle given in degrees and read back in degrees comes back within
/// one part in 2^48, far inside one part in ten thousand: where it is
/// zero, where it is of ordinary size, and further out as long as it and
/// what it is made into on the way are in range.
pub proof fn lemma_degrees_round_trip(v: Scalar)
    requires
        v.is_finite(),
    ensures
        v.is_zero() || v.is_ordinary() || degrees_in_range(v) ==> v.times(half_turn()).over(
            scalar(DEGREES_PER_HALF_TURN),
        ).times(scalar(DEGREES_PER_HALF_TURN)).over(half_turn()).is_near(v, 48),
{
    let half = half_turn();
    let degrees = scalar(DEGREES_PER_HALF_TURN);
    let a = v.times(half);
    let b = a.over(degrees);
    let c = b.times(degrees);
    let d = c.over(half);
    lemma_angle_sizes();
    lemma_sized_is_positive(half, 1, 2);
    lemma_sized_is_positive(degrees, 7, 8);
    lemma_pow2_pos(1074);
    lemma2_to64();
    let size = v.magnitude();
    let one = quanta_per_unit();
    let p = half.magnitude();
    let g = degrees.magnitude();
    if v.is_zero() {
        lemma_zero_stays_zero(v, half);
        lemma_zero_stays_zero(a, degrees);
        lemma_zero_stays_zero(b, degrees);
        lemma_zero_stays_zero(c, half);
        lemma_zero_is_near(d, v, 48);
    } else if v.is_ordinary() || degrees_in_range(v) {
        // every exact value on the way is in range
        if v.is_ordinary() {
            lemma_ordinary(v);
            lemma_bounds_times(size, 1, 74, 2074, half, 1, 2);
            lemma_bounds_over(size * p, 1 * one, 75, 2076, degrees, 7, 8);
            lemma_bounds_times(size * p * one, 1 * one * g, 67, 2069, degrees, 7, 8);
            lemma_bounds_over(size * p * one * g, 1 * one * g * one, 74, 2077, half, 1, 2);
        } else {
            assert(one * g > 0 && p * one * g * one > 0) by (nonlinear_arith)
                requires
                    one > 0,
                    g > 0,
                    p > 0,
            ;
            lemma_in_range_scaled(size * p, g, one);
            lemma_in_range_scaled(size * p, one, one * g);
            lemma_in_range_scaled(size, 1, p * one * g * one);
            // the same exact values, on the scales on which the steps take them
            let both = one * g;
            let all = p * one * g * one;
            assert(1 * one == one && 1 * one * g == g * one) by (nonlinear_arith);
            assert(size * p * one * g == (size * p) * both && 1 * one * g * one == one * both)
                by (nonlinear_arith)
                requires
                    both == one * g,
            ;
            assert(size * p * one * g * one == size * all && 1 * one * g * one * p == 1 * all)
                by (nonlinear_arith)
                requires
                    all == p * one * g * one,
            ;
        }
        lemma_tracks_itself(v);
        lemma_times_tracks(v, half, size, 1, 52);
        lemma_over_tracks(a, degrees, size * p, 1 * one, 51);
        lemma_times_tracks(b, degrees, size * p * one, 1 * one * g, 50);
        lemma_over_tracks(c, half, size * p * one * g, 1 * one * g * one, 49);
        let scale = 1 * one * g * one * p;
        assert(size * p * one * g * one == size * scale) by (nonlinear_arith)
            requires
                scale == 1 * one * g * one * p,
        ;
        lemma_tracks_is_near(d, v, scale, 48);
    }
}

/// An angle given in arcminutes and read back in arcminutes comes back
/// within one part in 2^47: where it is zero, where it is of ordinary size,
/// and further out as long as it and what it is made into on the way are
/// in range.
pub proof fn lemma_arcminutes_round_trip(v: Scalar)
    requires
        v.is_finite(),
    ensures
        v.is_zero() || v.is_ordinary() || parts_in_range(v, scalar(ARCMINUTES_PER_HALF_TURN))
            ==> v.times(half_turn()).over(
            scalar(DEGREES_PER_HALF_TURN).times(scalar(ARCMINUTES_PER_DEGREE)),
        ).times(scalar(DEGREES_PER_HALF_TURN)).times(scalar(ARCMINUTES_PER_DEGREE)).over(
            half_turn(),
        ).is_near(v, 47),
{
    lemma_angle_constants();
    lemma_angle_products();
    lemma_angle_sizes();
    lemma_parts_round_trip(
        v,
        scalar(ARCMINUTES_PER_DEGREE),
        scalar(ARCMINUTES_PER_HALF_TURN),
        60,
        10_800,
        5,
        13,
    );
}

/// An angle given in arcseconds and read back in arcseconds comes back
/// within one part in 2^47: where it is zero, where it is of ordinary size,
/// and further out as long as it and what it is made into on the way are
/// in range.
pub proof fn lemma_arcseconds_round_trip(v: Scalar)
    requires
        v.is_finite(),
    ensures
        v.is_zero() || v.is_ordinary() || parts_in_range(v, scalar(ARCSECONDS_PER_HALF_TURN))
            ==> v.times(half_turn()).over(
            scalar(DEGREES_PER_HALF_TURN).times(scalar(ARCSECONDS_PER_DEGREE)),
        ).times(scalar(DEGREES_PER_HALF_TURN)).times(scalar(ARCSECONDS_PER_DEGREE)).over(
            half_turn(),
        ).is_near(v, 47),
{
    lemma_angle_constants();
    lemma_angle_products();
    lemma_angle_sizes();
    lemma_parts_round_trip(
        v,
        scalar(ARCSECONDS_PER_DEGREE),
        scalar(ARCSECONDS_PER_HALF_TURN),
        3600,
        648_000,
        11,
        19,
    );
}

/// The round trip through a part of a degree: `parts` of them to the
/// degree, `all` of them to half a turn.
proof fn lemma_parts_round_trip(
    v: Scalar,
    parts: Scalar,
    all: Scalar,
    m: nat,
    n: nat,
    parts_size: nat,
    all_size: nat,
)
    requires
        v.is_finite(),
        !parts.sign(),
        !all.sign(),
        parts.is_integer(m as int),
        all.is_integer(n as int),
        n == 180 * m,
        parts.is_between(parts_size, parts_size + 1),
        all.is_between(all_size, all_size + 1),
        parts_size <= 11,
        all_size <= 19,
    ensures
        v.is_zero() || v.is_ordinary() || parts_in_range(v, all) ==> v.times(half_turn()).over(
            all,
        ).times(scalar(DEGREES_PER_HALF_TURN)).times(parts).over(half_turn()).is_near(v, 47),
{
    let half = half_turn();
    let degrees = scalar(DEGREES_PER_HALF_TURN);
    let a = v.times(half);
    let b = a.over(all);
    let c = b.times(degrees);
    let d = c.times(parts);
    let e = d.over(half);
    lemma_angle_constants();
    lemma_angle_sizes();
    lemma_pow2_pos(1074);
    lemma_sized_is_positive(half, 1, 2);
    lemma_sized_is_positive(degrees, 7, 8);
    lemma_sized_is_positive(parts, parts_size, parts_size + 1);
    lemma_sized_is_positive(all, all_size, all_size + 1);
    let size = v.magnitude();
    let one = quanta_per_unit();
    let p = half.magnitude();
    let g = degrees.magnitude();
    let h = parts.magnitude();
    let w = all.magnitude();
    assert(g * h == w * one) by (nonlinear_arith)
        requires
            g == 180 * one,
            h == m * one,
            w == n * one,
            n == 180 * m,
    ;
    if v.is_zero() {
        lemma_zero_stays_zero(v, half);
        lemma_zero_stays_zero(a, all);
        lemma_zero_stays_zero(b, degrees);
        lemma_zero_stays_zero(c, parts);
        lemma_zero_stays_zero(d, half);
        lemma_zero_is_near(e, v, 47);
    } else if v.is_ordinary() || parts_in_range(v, all) {
        // every exact value on the way is in range
        if v.is_ordinary() {
            let low = (74 - all_size) as nat;
            let high = (2076 - all_size) as nat;
            lemma_ordinary(v);
            lemma_bounds_times(size, 1, 74, 2074, half, 1, 2);
            lemma_bounds_over(size * p, 1 * one, 75, 2076, all, all_size, all_size + 1);
            lemma_bounds_times(size * p * one, 1 * one * w, low, high, degrees, 7, 8);
            lemma_bounds_times(
                size * p * one * g,
                1 * one * w * one,
                low + 7,
                high + 8,
                parts,
                parts_size,
                parts_size + 1,
            );
            lemma_bounds_over(
                size * p * one * g * h,
                1 * one * w * one * one,
                low + 7 + parts_size,
                high + 8 + parts_size + 1,
                half,
                1,
                2,
            );
        } else {
            let wide = w * one * one;
            assert(wide > 0 && p * wide * one > 0) by (nonlinear_arith)
                requires
                    wide == w * one * one,
                    w > 0,
                    one > 0,
                    p > 0,
            ;
            lemma_in_range_scaled(size * p, w, one);
            lemma_in_range_scaled(size * p * g, w * one, one);
            lemma_in_range_scaled(size * p, one, wide);
            lemma_in_range_scaled(size, 1, p * wide * one);
            // the same exact values, on the scales on which the steps take them
            let whole = p * wide * one;
            assert(1 * one == one && 1 * one * w == w * one) by (nonlinear_arith);
            assert(size * p * one * g == (size * p * g) * one && 1 * one * w * one == (w * one)
                * one) by (nonlinear_arith);
            assert(size * p * one * g * h == (size * p) * wide && 1 * one * w * one * one == one
                * wide) by (nonlinear_arith)
                requires
                    g * h == w * one,
                    wide == w * one * one,
            ;
            assert(size * p * one * g * h * one == size * whole && 1 * one * w * one * one * p == 1
                * whole) by (nonlinear_arith)
                requires
                    g * h == w * one,
                    wide == w * one * one,
                    whole == p * wide * one,
            ;
        }
        lemma_tracks_itself(v);
        lemma_times_tracks(v, half, size, 1, 52);
        lemma_over_tracks(a, all, size * p, 1 * one, 51);
        lemma_times_tracks(b, degrees, size * p * one, 1 * one * w, 50);
        lemma_times_tracks(c, parts, size * p * one * g, 1 * one * w * one, 49);
        lemma_over_tracks(d, half, size * p * one * g * h, 1 * one * w * one * one, 48);
        let scale = 1 * one * w * one * one * p;
        assert(size * p * one * g * h * one == size * scale) by (nonlinear_arith)
            requires
                scale == 1 * one * w * one * one * p,
                g * h == w * one,
        ;
        lemma_tracks_is_near(e, v, scale, 47);
    }
}

/// A factor of one or more is not zero.
proof fn lemma_sized_is_positive(k: Scalar, least: nat, most: nat)
    requires
        k.is_between(least, most),
    ensures
        k.magnitude() > 0,
        !k.is_zero(),
{
    lemma_pow2_pos(1074);
    lemma_pow2_pos(least);
    lemma_magnitude_zero(k);
    assert(k.magnitude() > 0) by (nonlinear_arith)
        requires
            quanta_per_unit() * pow2(least) <= k.magnitude(),
            quanta_per_unit() > 0,
            pow2(least) > 0,
    ;
}

/// An angle given in revolutions and read back in revolutions comes back
/// within one part in 2^49: where it is zero, where it is of ordinary size,
/// and further out as long as it and what it is made into on the way are
/// in range.
pub proof fn lemma_revolutions_round_trip(v: Scalar)
    requires
        v.is_finite(),
    ensures
        v.is_zero() || v.is_ordinary() || revolutions_in_range(v) ==> v.times(
            scalar(HALF_TURNS_PER_REVOLUTION),
        ).times(half_turn()).over(full_turn()).is_near(v, 49),
{
    let half = half_turn();
    let full = full_turn();
    let two = scalar(HALF_TURNS_PER_REVOLUTION);
    let a = v.times(two);
    let b = a.times(half);
    let c = b.over(full);
    lemma_angle_constants();
    lemma_angle_sizes();
    lemma_sized_is_positive(half, 1, 2);
    lemma_sized_is_positive(full, 2, 3);
    lemma_sized_is_positive(two, 1, 1);
    lemma_pow2_pos(1074);
    lemma2_to64();
    let size = v.magnitude();
    let one = quanta_per_unit();
    let p = half.magnitude();
    let t = two.magnitude();
    let f = full.magnitude();
    if v.is_zero() {
        lemma_zero_stays_zero(v, two);
        lemma_zero_stays_zero(a, half);
        lemma_zero_stays_zero(b, full);
        lemma_zero_is_near(c, v, 49);
    } else if v.is_ordinary() || revolutions_in_range(v) {
        // every exact value on the way is in range
        if v.is_ordinary() {
            lemma_ordinary(v);
            lemma_bounds_times(size, 1, 74, 2074, two, 1, 1);
            lemma_bounds_times(size * t, 1 * one, 75, 2075, half, 1, 2);
            lemma_bounds_over(size * t * p, 1 * one * one, 76, 2077, full, 2, 3);
        } else {
            assert(t * p * one > 0) by (nonlinear_arith)
                requires
                    t > 0,
                    p > 0,
                    one > 0,
            ;
            lemma_in_range_scaled(size, 1, t * p * one);
            // the same exact values, on the scales on which the steps take them
            let all = t * p * one;
            assert(1 * one == one && 1 * one * one == one * one) by (nonlinear_arith);
            assert(size * t * p * one == size * all && 1 * one * one * f == 1 * all)
                by (nonlinear_arith)
                requires
                    all == t * p * one,
                    t == 2 * one,
                    f == 2 * p,
            ;
        }
        lemma_tracks_itself(v);
        lemma_times_tracks(v, two, size, 1, 52);
        lemma_times_tracks(a, half, size * t, 1 * one, 51);
        lemma_over_tracks(b, full, size * t * p, 1 * one * one, 50);
        let scale = 1 * one * one * f;
        assert(size * t * p * one == size * scale) by (nonlinear_arith)
            requires
                scale == 1 * one * one * f,
                t == 2 * one,
                f == 2 * p,
        ;
        lemma_tracks_is_near(c, v, scale, 49);
    }
}

/// A full turn, in radians.
pub open spec fn full_turn() -> Scalar {
    scalar(FULL_TURN)
}

/// Half a turn, in radians.
pub open spec fn half_turn() -> Scalar {
    scalar(HALF_TURN)
}

/// An angle. Its view is the number of radians.
#[derive(Clone, Copy, Debug)]
pub struct Angle {
    radians: Scalar,
}

impl View for Angle {
    type V = Scalar;

    closed spec fn view(&self) -> Scalar {
        self.radians
    }
}

impl Angle {
    /// An angle given in radians, the unit it is held in.
    pub fn from_radians(rad: Scalar) -> (r: Angle)
        ensures
            r@ == rad,
    {
        Angle { radians: rad }
    }

    /// An angle given in degrees: the degrees times half a turn, over the
    /// degrees in half a turn.
    pub fn from_degrees(deg: Scalar) -> (r: Angle)
        ensures
            r@ == deg.times(half_turn()).over(scalar(DEGREES_PER_HALF_TURN)),
    {
        let half = Scalar::from_bits(HALF_TURN);
        Angle { radians: deg.mul(half).div(Scalar::from_bits(DEGREES_PER_HALF_TURN)) }
    }

    /// An angle given in arcminutes.
    pub fn from_arcminutes(arcmin: Scalar) -> (r: Angle)
        ensures
            r@ == arcmin.times(half_turn()).over(
                scalar(DEGREES_PER_HALF_TURN).times(scalar(ARCMINUTES_PER_DEGREE)),
            ),
    {
        let half = Scalar::from_bits(HALF_TURN);
        let arcminutes_per_half_turn = Scalar::from_bits(DEGREES_PER_HALF_TURN).mul(
            Scalar::from_bits(ARCMINUTES_PER_DEGREE),
        );
        Angle { radians: arcmin.mul(half).div(arcminutes_per_half_turn) }
    }

    /// An angle given in arcseconds.
    pub fn from_arcseconds(arcsec: Scalar) -> (r: Angle)
        ensures
            r@ == arcsec.times(half_turn()).over(
                scalar(DEGREES_PER_HALF_TURN).times(scalar(ARCSECONDS_PER_DEGREE)),
            ),
    {
        let half = Scalar::from_bits(HALF_TURN);
        let arcseconds_per_half_turn = Scalar::from_bits(DEGREES_PER_HALF_TURN).mul(
            Scalar::from_bits(ARCSECONDS_PER_DEGREE),
        );
        Angle { radians: arcsec.mul(half).div(arcseconds_per_half_turn) }
    }

    /// An angle given in revolutions.
    pub fn from_revolutions(rev: Scalar) -> (r: Angle)
        ensures
            r@ == rev.times(scalar(HALF_TURNS_PER_REVOLUTION)).times(half_turn()),
    {
        let half = Scalar::from_bits(HALF_TURN);
        Angle { radians: rev.mul(Scalar::from_bits(HALF_TURNS_PER_REVOLUTION)).mul(half) }
    }

    /// The angle in radians.
    pub fn as_radians(&self) -> (rad: Scalar)
        ensures
            rad == self@,
    {
        self.radians
    }

    /// The angle in degrees.
    pub fn as_degrees(&self) -> (deg: Scalar)
        ensures
            deg == self@.times(scalar(DEGREES_PER_HALF_TURN)).over(half_turn()),
    {
        let half = Scalar::from_bits(HALF_TURN);
        self.radians.mul(Scalar::from_bits(DEGREES_PER_HALF_TURN)).div(half)
    }

    /// The angle in arcminutes.
    pub fn as_arcminutes(&self) -> (arcmin: Scalar)
        ensures
            arcmin == self@.times(scalar(DEGREES_PER_HALF_TURN)).times(
                scalar(ARCMINUTES_PER_DEGREE),
            ).over(half_turn()),
    {
        let half = Scalar::from_bits(HALF_TURN);
        self.radians.mul(Scalar::from_bits(DEGREES_PER_HALF_TURN)).mul(
            Scalar::from_bits(ARCMINUTES_PER_DEGREE),
        ).div(half)
    }

    /// The angle in arcseconds.
    pub fn as_arcseconds(&self) -> (arcsec: Scalar)
        ensures
            arcsec == self@.times(scalar(DEGREES_PER_HALF_TURN)).times(
                scalar(ARCSECONDS_PER_DEGREE),
            ).over(half_turn()),
    {
        let half = Scalar::from_bits(HALF_TURN);
        self.radians.mul(Scalar::from_bits(DEGREES_PER_HALF_TURN)).mul(
            Scalar::from_bits(ARCSECONDS_PER_DEGREE),
        ).div(half)
    }

    /// The angle in revolutions.
    pub fn as_revolutions(&self) -> (rev: Scalar)
        ensures
            rev == self@.over(full_turn()),
    {
        self.radians.div(Scalar::from_bits(FULL_TURN))
    }

    /// What `normalize` makes of the remainder of an angle on division by
    /// a full turn: a full turn is added to a remainder below zero, and to
    /// no other. Where the sum, which is rounded, is no longer below the
    /// full turn, the angle is a whole number of turns as nearly as a
    /// scalar can tell, and the result is zero.
    pub open spec fn wrapped(remainder: Scalar) -> Scalar {
        if !remainder.is_nan() && remainder.quanta() < 0 {
            let sum = remainder.plus(full_turn());
            if !sum.is_nan() && sum.quanta() < full_turn().quanta() {
                sum
            } else {
                zero(false)
            }
        } else {
            remainder
        }
    }

    /// What `normalize_signed` makes of the remainder of an angle on
    /// division by a full turn: a full turn is taken from a remainder of
    /// half a turn or more, and added to one below minus half a turn.
    pub open spec fn wrapped_signed(remainder: Scalar) -> Scalar {
        if !remainder.is_nan() && remainder.quanta() >= half_turn().quanta() {
            remainder.minus(full_turn())
        } else if !remainder.is_nan() && remainder.quanta() < -half_turn().quanta() {
            remainder.plus(full_turn())
        } else {
            remainder
        }
    }

    /// What `normalize` makes of so many radians.
    pub open spec fn normalized(radians: Scalar) -> Scalar {
        Angle::wrapped(radians.modulo(full_turn()))
    }

    /// What `normalize_signed` makes of so many radians.
    pub open spec fn normalized_signed(radians: Scalar) -> Scalar {
        Angle::wrapped_signed(radians.modulo(full_turn()))
    }

    /// The angle wrapped into [0, 2 pi): of every finite angle the result
    /// is no less than zero and less than a full turn. It is the remainder
    /// on division by a full turn, with a full turn added where it is below
    /// zero, and zero where that sum is no longer below the full turn. Of
    /// an angle that is infinite or a NaN the result is a NaN.
    pub fn normalize(&self) -> (r: Angle)
        ensures
            r@ == Angle::normalized(self@),
            self@.is_finite() ==> r@.is_finite() && 0 <= r@.quanta() < full_turn().quanta(),
            !self@.is_finite() ==> r@.is_nan(),
    {
        let full = Scalar::from_bits(FULL_TURN);
        let zero = Scalar::from_bits(0);
        proof {
            lemma_magnitude_zero(zero);
            lemma_modulo(self@, full_turn());
            if self@.is_finite() {
                lemma_normalize_in_range(self@);
            }
        }
        let remainder = self.radians.rem(full);
        if remainder < zero {
            let sum = remainder.add(full);
            if sum < full {
                Angle { radians: sum }
            } else {
                Angle { radians: zero }
            }
        } else {
            Angle { radians: remainder }
        }
    }

    /// The angle wrapped into [-pi, pi): of every finite angle the result
    /// is no less than minus half a turn and less than half a turn. It is
    /// the remainder on division by a full turn, less a full turn where it
    /// is half a turn or more, plus a full turn where it is below minus
    /// half a turn. Of an angle that is infinite or a NaN the result is a
    /// NaN.
    pub fn normalize_signed(&self) -> (r: Angle)
        ensures
            r@ == Angle::normalized_signed(self@),
            self@.is_finite() ==> r@.is_finite() && -half_turn().quanta() <= r@.quanta()
                < half_turn().quanta(),
            !self@.is_finite() ==> r@.is_nan(),
    {
        let full = Scalar::from_bits(FULL_TURN);
        let half = Scalar::from_bits(HALF_TURN);
        proof {
            lemma_modulo(self@, full_turn());
            if self@.is_finite() {
                lemma_normalize_signed_in_range(self@);
            }
        }
        let remainder = self.radians.rem(full);
        if remainder >= half {
            Angle { radians: remainder.sub(full) }
        } else if remainder < half.neg() {
            Angle { radians: remainder.add(full) }
        } else {
            Angle { radians: remainder }
        }
    }

    /// Whether the angle is greater than zero: false of zero and of a NaN.
    pub fn is_positive(&self) -> (b: bool)
        ensures
            b == self@.is_positive(),
    {
        self.radians.is_positive()
    }

    /// The angle without its sign.
    pub fn abs(&self) -> (r: Angle)
        ensures
            r@ == self@.abs(),
    {
        Angle { radians: self.radians.abs() }
    }

    /// The angle as text: the number of degrees with two decimals, and the
    /// unit.
    pub fn to_string(&self) -> (text: String)
        ensures
            text@ == rendered(
                self@.times(scalar(DEGREES_PER_HALF_TURN)).over(half_turn()),
                2,
            ) + " deg"@,
    {
        let mut text = self.as_degrees().to_hundredths();
        text.append(" deg");
        text
    }
}

/// The remainder of a finite angle on division by a full turn is finite,
/// has the sign of the angle and is less than a full turn in magnitude.
proof fn lemma_remainder_of_turns(radians: Scalar)
    requires
        radians.is_finite(),
    ensures
        radians.modulo(full_turn()).is_finite(),
        radians.modulo(full_turn()).sign() == radians.sign(),
        radians.modulo(full_turn()).magnitude() < full_turn().magnitude(),
        full_turn().quanta() == full_turn().magnitude(),
        half_turn().quanta() == half_turn().magnitude(),
        full_turn().quanta() == 2 * half_turn().quanta(),
        half_turn().quanta() > 0,
{
    lemma_angle_constants();
    lemma_modulo(radians, full_turn());
    lemma_pow2_pos(1074);
    let q = half_turn().quanta();
    assert(q > 0) by (nonlinear_arith)
        requires
            3_141_592_653_589_793 * quanta_per_unit() < q * 1_000_000_000_000_000,
            quanta_per_unit() > 0,
    ;
    vstd::arithmetic::div_mod::lemma_mod_bound(
        radians.magnitude() as int,
        full_turn().magnitude() as int,
    );
}

/// Normalization into the signed range is bounded: of whatever finite
/// angle, however large or small, the result is no less than minus half a
/// turn and less than half a turn.
pub proof fn lemma_normalize_signed_in_range(radians: Scalar)
    requires
        radians.is_finite(),
    ensures
        Angle::normalized_signed(radians).is_finite(),
        -half_turn().quanta() <= Angle::normalized_signed(radians).quanta() < half_turn().quanta(),
{
    let full = full_turn();
    let half = half_turn();
    let rem = radians.modulo(full);
    let r = Angle::normalized_signed(radians);
    lemma_remainder_of_turns(radians);
    if rem.quanta() >= half.quanta() {
        // a full turn is taken off: what is left lies in [-pi, 0)
        lemma_plus(rem, full);
        let exact = (full.magnitude() - rem.magnitude()) as nat;
        assert(r.is_rounding_of(true, exact, 1));
        lemma_rounding_keeps_order(r, half, true, exact, 1);
        lemma_magnitude_order(r, half);
    } else if rem.quanta() < -half.quanta() {
        // a full turn is put on: the remainder is beyond half a turn by a
        // step at least, so that the sum stays a step below half a turn
        lemma_plus(rem, full);
        let exact = (full.magnitude() - rem.magnitude()) as nat;
        assert(r.is_rounding_of(false, exact, 1));
        let after = Scalar { bits: (HALF_TURN + 1) as u64 };
        let before = Scalar { bits: (HALF_TURN - 1) as u64 };
        lemma_magnitude_order(rem, half);
        lemma_magnitude_order(rem, after);
        lemma_magnitude_order(before, half);
        let step = pow2(half.scale()) as int;
        let s = half.significand() as int;
        assert(after.magnitude() == s * step + step && before.magnitude() == s * step - step)
            by (nonlinear_arith)
            requires
                after.magnitude() == (s + 1) * step,
                before.magnitude() == (s - 1) * step,
        ;
        lemma_rounding_keeps_order(r, before, false, exact, 1);
        lemma_magnitude_order(r, before);
    }
}

/// Normalization into the unsigned range is bounded: of whatever finite
/// angle, however large or small, the result is no less than zero and less
/// than a full turn.
pub proof fn lemma_normalize_in_range(radians: Scalar)
    requires
        radians.is_finite(),
    ensures
        Angle::normalized(radians).is_finite(),
        0 <= Angle::normalized(radians).quanta() < full_turn().quanta(),
{
    let full = full_turn();
    let rem = radians.modulo(full);
    lemma_remainder_of_turns(radians);
    lemma_magnitude_zero(zero(false));
    if rem.quanta() < 0 {
        // the sum is what a magnitude between zero and the full turn
        // rounds to: it is no more than the full turn
        let sum = rem.plus(full);
        lemma_plus(rem, full);
        let exact = (full.magnitude() - rem.magnitude()) as nat;
        assert(sum.is_rounding_of(false, exact, 1));
        lemma_rounding_keeps_order(sum, full, false, exact, 1);
        lemma_magnitude_order(sum, full);
    }
}

/// Where the remainder lies within 2^-51 below zero, the sum of it and a
/// full turn rounds to the full turn, and the result is zero.
pub proof fn lemma_normalize_at_the_edge(radians: Scalar)
    requires
        radians.is_finite(),
        -pow2(1023) <= radians.modulo(full_turn()).quanta() < 0,
    ensures
        Angle::normalized(radians) == zero(false),
{
    let full = full_turn();
    let rem = radians.modulo(full);
    let sum = rem.plus(full);
    lemma_remainder_of_turns(radians);
    lemma_plus(rem, full);
    let exact = (full.magnitude() - rem.magnitude()) as nat;
    assert(sum.is_rounding_of(false, exact, 1));
    lemma_pow2_unfold(1024);
    lemma_pow2_pos(1023);
    let before = Scalar { bits: (FULL_TURN - 1) as u64 };
    let step = pow2(full.scale()) as int;
    let s = full.significand() as int;
    assert(before.magnitude() == s * step - step) by (nonlinear_arith)
        requires
            before.magnitude() == (s - 1) * step,
    ;
    assert(before.successor() == full);
    lemma_rounds_to_neighbour(before, full, exact, 1);
    lemma_rounding_is_unique(sum, full, false, exact, 1);
}

/// The angle turned the other way.
impl Neg for Angle {
    type Output = Angle;

    fn neg(self) -> (r: Angle)
        ensures
            r@ == self@.negated(),
    {
        Angle { radians: self.radians.neg() }
    }
}

impl NegSpecImpl for Angle {
    open spec fn obeys_neg_spec() -> bool {
        true
    }

    open spec fn neg_req(self) -> bool {
        true
    }

    closed spec fn neg_spec(self) -> Angle {
        Angle { radians: self.radians.negated() }
    }
}

/// Angle + Angle = Angle: the plain sum, with nothing wrapped.
impl Add for Angle {
    type Output = Angle;

    fn add(self, other: Angle) -> (r: Angle)
        ensures
            r@ == self@.plus(other@),
    {
        Angle { radians: self.radians.add(other.radians) }
    }
}

impl AddSpecImpl for Angle {
    open spec fn obeys_add_spec() -> bool {
        true
    }

    open spec fn add_req(self, other: Angle) -> bool {
        true
    }

    closed spec fn add_spec(self, other: Angle) -> Angle {
        Angle { radians: self.radians.plus(other.radians) }
    }
}

/// Angle - Angle = Angle: the plain difference, with nothing wrapped.
impl Sub for Angle {
    type Output = Angle;

    fn sub(self, other: Angle) -> (r: Angle)
        ensures
            r@ == self@.minus(other@),
    {
        Angle { radians: self.radians.sub(other.radians) }
    }
}

impl SubSpecImpl for Angle {
    open spec fn obeys_sub_spec() -> bool {
        true
    }

    open spec fn sub_req(self, other: Angle) -> bool {
        true
    }

    closed spec fn sub_spec(self, other: Angle) -> Angle {
        Angle { radians: self.radians.minus(other.radians) }
    }
}

/// Angle * scalar = Angle.
impl Mul<Scalar> for Angle {
    type Output = Angle;

    fn mul(self, factor: Scalar) -> (r: Angle)
        ensures
            r@ == self@.times(factor),
    {
        Angle { radians: self.radians.mul(factor) }
    }
}

impl MulSpecImpl<Scalar> for Angle {
    open spec fn obeys_mul_spec() -> bool {
        true
    }

    open spec fn mul_req(self, factor: Scalar) -> bool {
        true
    }

    closed spec fn mul_spec(self, factor: Scalar) -> Angle {
        Angle { radians: self.radians.times(factor) }
    }
}

/// Angle / scalar = Angle: a divisor of zero gives an infinity or a NaN.
impl Div<Scalar> for Angle {
    type Output = Angle;

    fn div(self, divisor: Scalar) -> (r: Angle)
        ensures
            r@ == self@.over(divisor),
    {
        Angle { radians: self.radians.div(divisor) }
    }
}

impl DivSpecImpl<Scalar> for Angle {
    open spec fn obeys_div_spec() -> bool {
        true
    }

    open spec fn div_req(self, divisor: Scalar) -> bool {
        true
    }

    closed spec fn div_spec(self, divisor: Scalar) -> Angle {
        Angle { radians: self.radians.over(divisor) }
    }
}

/// Angle / Angle = a plain number, the ratio of the two: a divisor of zero
/// gives an infinity or a NaN.
impl Div<Angle> for Angle {
    type Output = Scalar;

    fn div(self, other: Angle) -> (r: Scalar)
        ensures
            r == self@.over(other@),
    {
        self.radians.div(other.radians)
    }
}

impl DivSpecImpl<Angle> for Angle {
    open spec fn obeys_div_spec() -> bool {
        true
    }

    open spec fn div_req(self, other: Angle) -> bool {
        true
    }

    open spec fn div_spec(self, other: Angle) -> Scalar {
        self@.over(other@)
    }
}

/// Two angles are equal where their scalars are: never where one is a NaN.
impl PartialEq for Angle {
    fn eq(&self, other: &Angle) -> (r: bool) {
        self.radians == other.radians
    }
}

impl PartialEqSpecImpl for Angle {
    open spec fn obeys_eq_spec() -> bool {
        true
    }

    open spec fn eq_spec(&self, other: &Angle) -> bool {
        self@.equals(other@)
    }
}

/// Angles are ordered as their scalars are: not at all where one is a
/// NaN.
impl PartialOrd for Angle {
    fn partial_cmp(&self, other: &Angle) -> (r: Option<Ordering>) {
        self.radians.partial_cmp(&other.radians)
    }
}

impl PartialOrdSpecImpl for Angle {
    open spec fn obeys_partial_cmp_spec() -> bool {
        true
    }

    open spec fn partial_cmp_spec(&self, other: &Angle) -> Option<Ordering> {
        self@.compared_to(other@)
    }
}

} // verus!
