//! Scalars in decimal: the text of a scalar with a fixed number of decimals,
//! rounded to the nearest last digit with ties to the even digit, from the
//! exact value that the scalar stands for.

use crate::rounding::round::power_of_two;
use crate::scalar::quanta_per_unit;
use crate::scalar::Scalar;
use crate::scalar::INFINITY_BITS;
use crate::scalar::SIGN_BIT;
use vstd::arithmetic::div_mod::lemma_div_multiples_vanish;
use vstd::arithmetic::div_mod::lemma_div_multiples_vanish_quotient;
use vstd::arithmetic::div_mod::lemma_fundamental_div_mod;
use vstd::arithmetic::div_mod::lemma_mod_bound;
use vstd::arithmetic::div_mod::lemma_mod_multiples_basic;
use vstd::arithmetic::div_mod::lemma_small_mod;
use vstd::arithmetic::div_mod::lemma_truncate_middle;
use vstd::arithmetic::mul::*;
use vstd::arithmetic::power2::*;
use vstd::prelude::*;
use vstd::string::StringExecFns;

verus! {

/// Ten to the power `p`.
pub open spec fn pow10(p: nat) -> nat
    decreases p,
{
    if p == 0 {
        1
    } else {
        10 * pow10((p - 1) as nat)
    }
}

/// The character of a decimal digit.
pub open spec fn digit_char(d: nat) -> char {
    if d == 0 {
        '0'
    } else if d == 1 {
        '1'
    } else if d == 2 {
        '2'
    } else if d == 3 {
        '3'
    } else if d == 4 {
        '4'
    } else if d == 5 {
        '5'
    } else if d == 6 {
        '6'
    } else if d == 7 {
        '7'
    } else if d == 8 {
        '8'
    } else {
        '9'
    }
}

/// The decimal digits of a whole number, the most significant first, with
/// no zero in front of them; zero is the one digit 0.
pub open spec fn digits(n: nat) -> Seq<char>
    decreases n,
{
    if n < 10 {
        seq![digit_char(n)]
    } else {
        digits(n / 10).push(digit_char(n % 10))
    }
}

/// The last `width` decimal digits of a whole number, the most significant
/// first, with zeros in front where the number has fewer.
pub open spec fn digits_padded(n: nat, width: nat) -> Seq<char>
    decreases width,
{
    if width == 0 {
        Seq::empty()
    } else {
        digits_padded(n / 10, (width - 1) as nat).push(digit_char(n % 10))
    }
}

/// The whole number nearest to the ratio `num / den`, and of two that are
/// as near, the even one.
pub open spec fn nearest_whole(num: nat, den: nat) -> nat {
    let below = num / den;
    let rest = num % den;
    if 2 * rest < den || (2 * rest == den && below % 2 == 0) {
        below
    } else {
        below + 1
    }
}

/// The text of a scalar with `places` decimals: `NaN`, `inf` or `-inf`, or
/// a minus sign where the sign bit is set, the whole part, a point and the
/// decimals. The last decimal is rounded on the exact value of the scalar,
/// a tie going to the even digit.
pub open spec fn rendered(x: Scalar, places: nat) -> Seq<char> {
    if x.is_nan() {
        seq!['N', 'a', 'N']
    } else if x.is_infinite() {
        if x.sign() {
            seq!['-', 'i', 'n', 'f']
        } else {
            seq!['i', 'n', 'f']
        }
    } else {
        let count = nearest_whole(x.magnitude() * pow10(places), quanta_per_unit());
        let sign = if x.sign() {
            seq!['-']
        } else {
            Seq::<char>::empty()
        };
        sign + digits(count / pow10(places)) + seq!['.'] + digits_padded(
            count % pow10(places),
            places,
        )
    }
}

impl Scalar {
    /// The text of the scalar with one decimal.
    pub fn to_tenths(&self) -> (text: String)
        ensures
            text@ == rendered(*self, 1),
    {
        render(*self, 1)
    }

    /// The text of the scalar with two decimals.
    pub fn to_hundredths(&self) -> (text: String)
        ensures
            text@ == rendered(*self, 2),
    {
        render(*self, 2)
    }
}

/// The text of a scalar with one or two decimals.
fn render(x: Scalar, places: usize) -> (out: String)
    requires
        1 <= places <= 2,
    ensures
        out@ == rendered(x, places as nat),
{
    proof {
        reveal_strlit("NaN");
        reveal_strlit("inf");
        reveal_strlit("-inf");
        reveal_strlit("-");
        reveal_strlit(".");
        reveal_strlit("");
    }
    let rest = x.abs().to_bits();
    if rest > INFINITY_BITS {
        let out = String::from_str("NaN");
        assert(out@ =~= rendered(x, places as nat));
        return out;
    }
    let negative = x.to_bits() >= SIGN_BIT;
    if rest == INFINITY_BITS {
        let out = if negative {
            String::from_str("-inf")
        } else {
            String::from_str("inf")
        };
        assert(out@ =~= rendered(x, places as nat));
        return out;
    }
    let (whole, decimals) = decimal_parts(x, places);
    let mut out = if negative {
        String::from_str("-")
    } else {
        String::from_str("")
    };
    append_digits(&mut out, &whole);
    out.append(".");
    append_digits(&mut out, &decimals);
    proof {
        lemma_text_is_digits(whole@);
        lemma_text_is_padded(decimals@);
        assert(out@ =~= rendered(x, places as nat));
    }
    out
}

/// The digits of the whole part and of the decimals of a finite scalar,
/// rounded to so many places: each the least significant digit first.
fn decimal_parts(x: Scalar, places: usize) -> (parts: (Vec<u8>, Vec<u8>))
    requires
        x.is_finite(),
        1 <= places <= 2,
    ensures
        all_digits(parts.0@),
        all_digits(parts.1@),
        parts.0.len() > 0,
        parts.0.len() == 1 || parts.0@.last() != 0,
        parts.1.len() == places,
        value(parts.0@) == nearest_whole(
            x.magnitude() * pow10(places as nat),
            quanta_per_unit(),
        ) / pow10(places as nat),
        value(parts.1@) == nearest_whole(
            x.magnitude() * pow10(places as nat),
            quanta_per_unit(),
        ) % pow10(places as nat),
{
    let (significand, scale) = x.parts();
    let tens: u64 = if places == 1 {
        10
    } else {
        100
    };
    proof {
        assert(pow10(0) == 1);
        assert(pow10(1) == 10 * pow10(0));
        assert(pow10(2) == 10 * pow10(1));
        lemma2_to64();
        lemma2_to64_rest();
        lemma_pow2_pos(scale as nat);
        lemma_pow2_pos(1074);
    }
    if scale >= 1074 {
        // a whole number: the significand, doubled as often as the scale
        // asks for, and no decimals
        let mut whole = digits_of(significand);
        let mut done: u64 = 0;
        proof {
            lemma_mul_basics(significand as int);
        }
        while done < scale - 1074
            invariant
                done <= scale - 1074,
                1074 <= scale <= 2046,
                all_digits(whole@),
                whole.len() > 0,
                whole.len() <= 20 + done,
                whole.len() == 1 || whole@.last() != 0,
                value(whole@) == significand * pow2(done as nat),
            decreases scale - 1074 - done,
        {
            proof {
                lemma_pow2_unfold((done + 1) as nat);
                assert(2 * (significand * pow2(done as nat)) == significand * (2 * pow2(
                    done as nat,
                ))) by (nonlinear_arith);
            }
            double(&mut whole);
            done = done + 1;
        }
        let decimals = fixed_digits(0, places);
        proof {
            lemma_whole_count(x, places as nat, value(whole@));
        }
        (whole, decimals)
    } else {
        let down: u64 = 1074 - scale;
        let steps: u64 = significand * tens;
        let count: u64 = if down >= 62 {
            0
        } else {
            let unit = power_of_two(down as u32) as u64;
            let below = steps / unit;
            let rest = steps % unit;
            if 2 * rest < unit || (2 * rest == unit && below % 2 == 0) {
                below
            } else {
                below + 1
            }
        };
        proof {
            lemma_small_count(x, places as nat, down as nat, count as nat);
            lemma_pow10_positive(places as nat);
        }
        proof {
            lemma_mod_bound(count as int, tens as int);
        }
        (digits_of(count / tens), fixed_digits(count % tens, places))
    }
}

/// The decimal digits of a whole number, the least significant first: no
/// zero at the top, and the one digit zero for zero.
fn digits_of(n: u64) -> (v: Vec<u8>)
    ensures
        all_digits(v@),
        value(v@) == n,
        0 < v.len() <= 20,
        v.len() == 1 || v@.last() != 0,
{
    let mut v: Vec<u8> = Vec::new();
    v.push((n % 10) as u8);
    let mut rest: u64 = n / 10;
    proof {
        assert(v@.drop_last() =~= Seq::<u8>::empty());
        assert(value(v@.drop_last()) == 0);
        assert(pow10(0) == 1);
        lemma_mul_basics((n % 10) as int);
        assert(v@.last() == n % 10);
        assert(value(v@) == value(v@.drop_last()) + (v@.last() as nat) * pow10(
            (v@.len() - 1) as nat,
        ));
        assert(value(v@) == n % 10);
        assert(pow10(1) == 10 * pow10(0));
    }
    while rest > 0
        invariant
            all_digits(v@),
            0 < v.len() <= 20,
            value(v@) + rest * pow10(v.len() as nat) == n,
            rest > 0 || v.len() == 1 || v@.last() != 0,
        decreases rest,
    {
        let d = (rest % 10) as u8;
        proof {
            let top = pow10(v.len() as nat) as int;
            // twenty digits are more than the number can have
            if v.len() == 20 {
                lemma_pow10_twenty();
                assert(rest * top >= top) by (nonlinear_arith)
                    requires
                        rest >= 1,
                        top >= 0,
                ;
            }
            let longer = v@.push(d);
            assert(longer.drop_last() =~= v@);
            assert(pow10((v.len() + 1) as nat) == 10 * top);
            assert(rest * top == (rest / 10) * (10 * top) + d * top) by (nonlinear_arith)
                requires
                    rest == 10 * (rest / 10) + d,
            ;
        }
        v.push(d);
        rest = rest / 10;
    }
    proof {
        lemma_mul_basics(pow10(v.len() as nat) as int);
    }
    v
}

/// The last `width` decimal digits of a whole number, the least
/// significant first, with zeros at the top where the number has fewer.
fn fixed_digits(n: u64, width: usize) -> (v: Vec<u8>)
    requires
        n < pow10(width as nat),
    ensures
        all_digits(v@),
        v.len() == width,
        value(v@) == n,
{
    let mut v: Vec<u8> = Vec::new();
    let mut rest: u64 = n;
    proof {
        assert(pow10(0) == 1);
        lemma_mul_basics(n as int);
    }
    while v.len() < width
        invariant
            all_digits(v@),
            v.len() <= width,
            value(v@) + rest * pow10(v.len() as nat) == n,
        decreases width - v.len(),
    {
        let d = (rest % 10) as u8;
        proof {
            let top = pow10(v.len() as nat) as int;
            let longer = v@.push(d);
            assert(longer.drop_last() =~= v@);
            assert(pow10((v.len() + 1) as nat) == 10 * top);
            assert(rest * top == (rest / 10) * (10 * top) + d * top) by (nonlinear_arith)
                requires
                    rest == 10 * (rest / 10) + d,
            ;
        }
        v.push(d);
        rest = rest / 10;
    }
    proof {
        // what is left of the number is nothing: it has no more digits
        lemma_pow10_positive(width as nat);
        let top = pow10(width as nat) as int;
        assert(rest == 0) by (nonlinear_arith)
            requires
                value(v@) + rest * top == n,
                n < top,
                top > 0,
                rest >= 0,
                value(v@) >= 0,
        ;
        lemma_mul_basics(top);
    }
    v
}

/// Doubles the whole number that a sequence of digits stands for.
fn double(v: &mut Vec<u8>)
    requires
        all_digits(old(v)@),
        old(v).len() > 0,
        old(v).len() < 100_000,
        old(v).len() == 1 || old(v)@.last() != 0,
    ensures
        all_digits(final(v)@),
        value(final(v)@) == 2 * value(old(v)@),
        final(v).len() == old(v).len() || final(v).len() == old(v).len() + 1,
        final(v).len() == 1 || final(v)@.last() != 0,
{
    let ghost before = v@;
    let n = v.len();
    let mut carry: u8 = 0;
    let mut i: usize = 0;
    proof {
        assert(v@.take(0) =~= Seq::<u8>::empty());
        lemma_mul_basics(pow10(0) as int);
    }
    while i < n
        invariant
            i <= n,
            n == v.len(),
            n == before.len(),
            carry <= 1,
            all_digits(before),
            all_digits(v@),
            forall|j: int| i <= j < n ==> v@[j] == before[j],
            value(v@.take(i as int)) + carry * pow10(i as nat) == 2 * value(before.take(i as int)),
            i > 0 ==> 10 * carry + v@[i - 1] >= 2 * before[i - 1],
        decreases n - i,
    {
        let twice = 2 * v[i] + carry;
        let ghost earlier = v@;
        v.set(i, twice % 10);
        proof {
            let top = pow10(i as nat) as int;
            let old_digit = before[i as int] as int;
            assert(v@.take(i + 1).drop_last() =~= earlier.take(i as int));
            assert(before.take(i + 1).drop_last() =~= before.take(i as int));
            assert(v@.take(i + 1).last() == twice % 10);
            assert(before.take(i + 1).last() == old_digit);
            assert(pow10((i + 1) as nat) == 10 * top);
            assert((twice % 10) * top + (twice / 10) * (10 * top) == (2 * old_digit + carry) * top)
                by (nonlinear_arith)
                requires
                    twice == 10 * (twice / 10) + twice % 10,
                    twice == 2 * old_digit + carry,
            ;
            assert(2 * (old_digit * top) + carry * top == (2 * old_digit + carry) * top)
                by (nonlinear_arith);
        }
        carry = twice / 10;
        i = i + 1;
    }
    proof {
        assert(v@.take(n as int) =~= v@);
        assert(before.take(n as int) =~= before);
    }
    if carry > 0 {
        proof {
            assert(v@.push(carry).drop_last() =~= v@);
        }
        v.push(carry);
    } else {
        proof {
            lemma_mul_basics(pow10(n as nat) as int);
        }
    }
}

/// Appends the characters of a sequence of digits, the most significant
/// first.
fn append_digits(out: &mut String, digits: &Vec<u8>)
    requires
        all_digits(digits@),
    ensures
        final(out)@ == old(out)@ + text_of(digits@),
{
    let mut left: usize = digits.len();
    let ghost start = out@;
    while left > 0
        invariant
            left <= digits.len(),
            all_digits(digits@),
            out@ == start + text_of(digits@).take(digits.len() - left),
        decreases left,
    {
        left = left - 1;
        let d = digits[left];
        out.append(digit_text(d));
        proof {
            let text = text_of(digits@);
            let done = digits.len() - left;
            assert(text.take(done) =~= text.take(done - 1).push(digit_char(d as nat)));
            assert(out@ =~= start + text.take(done));
        }
    }
    proof {
        assert(text_of(digits@).take(digits.len() as int) =~= text_of(digits@));
    }
}

/// The text of one decimal digit.
fn digit_text(d: u8) -> (t: &'static str)
    requires
        d < 10,
    ensures
        t@ == seq![digit_char(d as nat)],
{
    proof {
        reveal_strlit("0");
        reveal_strlit("1");
        reveal_strlit("2");
        reveal_strlit("3");
        reveal_strlit("4");
        reveal_strlit("5");
        reveal_strlit("6");
        reveal_strlit("7");
        reveal_strlit("8");
        reveal_strlit("9");
    }
    let t = if d == 0 {
        "0"
    } else if d == 1 {
        "1"
    } else if d == 2 {
        "2"
    } else if d == 3 {
        "3"
    } else if d == 4 {
        "4"
    } else if d == 5 {
        "5"
    } else if d == 6 {
        "6"
    } else if d == 7 {
        "7"
    } else if d == 8 {
        "8"
    } else {
        "9"
    };
    assert(t@ =~= seq![digit_char(d as nat)]);
    t
}

/// The whole number that a sequence of decimal digits stands for, the
/// least significant first.
pub open spec fn value(s: Seq<u8>) -> nat
    decreases s.len(),
{
    if s.len() == 0 {
        0
    } else {
        value(s.drop_last()) + (s.last() as nat) * pow10((s.len() - 1) as nat)
    }
}

/// Whether every element is a decimal digit.
pub open spec fn all_digits(s: Seq<u8>) -> bool {
    forall|i: int| 0 <= i < s.len() ==> #[trigger] s[i] < 10
}

/// The characters of a sequence of digits, the most significant first.
pub open spec fn text_of(s: Seq<u8>) -> Seq<char> {
    Seq::new(s.len(), |i: int| digit_char(s[s.len() - 1 - i] as nat))
}

/// What `nearest_whole` gives is no further than half a unit from the
/// ratio, and even where it is just half a unit from it.
pub proof fn lemma_nearest_whole(num: nat, den: nat)
    requires
        den > 0,
    ensures
        -den <= 2 * (nearest_whole(num, den) * den - num) <= den,
        2 * (nearest_whole(num, den) * den - num) == den || 2 * (nearest_whole(num, den) * den
            - num) == -den ==> nearest_whole(num, den) % 2 == 0,
{
    let below = (num / den) as int;
    let rest = (num % den) as int;
    lemma_fundamental_div_mod(num as int, den as int);
    lemma_mod_bound(num as int, den as int);
    assert((below + 1) * den == below * den + den && den * below == below * den)
        by (nonlinear_arith);
}

/// Rounding to the nearest whole number is the same on every scale: both
/// the number and the unit may be multiplied by the same.
pub proof fn lemma_nearest_whole_scaled(num: nat, den: nat, c: nat)
    requires
        den > 0,
        c > 0,
    ensures
        nearest_whole(c * num, c * den) == nearest_whole(num, den),
{
    lemma_div_multiples_vanish_quotient(c as int, num as int, den as int);
    lemma_truncate_middle(num as int, c as int, den as int);
    let rest = (num % den) as int;
    assert(2 * (c * rest) < c * den <==> 2 * rest < den) by (nonlinear_arith)
        requires
            c > 0,
    ;
    assert(2 * (c * rest) == c * den <==> 2 * rest == den) by (nonlinear_arith)
        requires
            c > 0,
    ;
}

/// The count of decimal steps of a finite scalar that is a whole number:
/// the number itself with zeros for decimals.
proof fn lemma_whole_count(x: Scalar, places: nat, whole: nat)
    requires
        x.scale() >= 1074,
        whole == x.significand() * pow2((x.scale() - 1074) as nat),
    ensures
        nearest_whole(x.magnitude() * pow10(places), quanta_per_unit()) / pow10(places) == whole,
        nearest_whole(x.magnitude() * pow10(places), quanta_per_unit()) % pow10(places) == 0,
{
    let one = quanta_per_unit() as int;
    let tens = pow10(places) as int;
    let up = pow2((x.scale() - 1074) as nat) as int;
    lemma_pow2_adds((x.scale() - 1074) as nat, 1074);
    lemma_pow2_pos(1074);
    lemma_pow10_positive(places);
    let exact = x.magnitude() * pow10(places);
    assert(exact == one * (whole * tens)) by (nonlinear_arith)
        requires
            exact == (x.significand() * (up * one)) * tens,
            whole == x.significand() * up,
    ;
    lemma_div_multiples_vanish(whole * tens, one);
    lemma_mod_multiples_basic(whole * tens, one);
    assert((whole * tens) * one == one * (whole * tens)) by (nonlinear_arith);
    assert(nearest_whole(exact as nat, one as nat) == whole * tens);
    lemma_div_multiples_vanish(whole as int, tens);
    lemma_mod_multiples_basic(whole as int, tens);
    assert(whole * tens == tens * whole) by (nonlinear_arith);
}

/// The count of decimal steps of a finite scalar below 2^52: what the
/// significand times the power of ten comes to, rounded on the scale of
/// the scalar.
proof fn lemma_small_count(x: Scalar, places: nat, down: nat, count: nat)
    requires
        x.scale() + down == 1074,
        down >= 1,
        1 <= places <= 2,
        down >= 62 ==> count == 0,
        down < 62 ==> count == nearest_whole(x.significand() * pow10(places), pow2(down)),
    ensures
        count == nearest_whole(x.magnitude() * pow10(places), quanta_per_unit()),
        count / pow10(places) < 0x1_0000_0000_0000_0000,
{
    let steps = x.significand() * pow10(places);
    let unit = pow2(down);
    let c = pow2(x.scale());
    assert(pow10(0) == 1);
    assert(pow10(1) == 10 * pow10(0));
    assert(pow10(2) == 10 * pow10(1));
    lemma2_to64();
    lemma2_to64_rest();
    lemma_pow2_pos(x.scale());
    lemma_pow2_pos(down);
    lemma_pow2_adds(x.scale(), down);
    lemma_nearest_whole_scaled(steps, unit, c);
    assert(x.magnitude() * pow10(places) == c * steps) by (nonlinear_arith)
        requires
            x.magnitude() == x.significand() * c,
            steps == x.significand() * pow10(places),
    ;
    assert(steps < 0x1000_0000_0000_0000) by (nonlinear_arith)
        requires
            steps == x.significand() * pow10(places),
            x.significand() < 0x20_0000_0000_0000,
            pow10(places) <= 100,
    ;
    if down >= 62 {
        if down > 62 {
            lemma_pow2_strictly_increases(62, down);
        }
        lemma_small_mod(steps, unit);
        vstd::arithmetic::div_mod::lemma_basic_div(steps as int, unit as int);
    } else {
        lemma_fundamental_div_mod(steps as int, unit as int);
        lemma_mod_bound(steps as int, unit as int);
        assert(steps / unit <= steps) by (nonlinear_arith)
            requires
                steps == unit * (steps / unit) + steps % unit,
                0 <= steps % unit,
                unit >= 1,
                steps / unit >= 0,
        ;
    }
    lemma_pow10_positive(places);
    lemma_fundamental_div_mod(count as int, pow10(places) as int);
    lemma_mod_bound(count as int, pow10(places) as int);
    assert(count / pow10(places) <= count) by (nonlinear_arith)
        requires
            count == pow10(places) * (count / pow10(places)) + count % pow10(places),
            0 <= count % pow10(places),
            pow10(places) >= 1,
            count / pow10(places) >= 0,
    ;
}

/// The value of a sequence of digits, taken from its least significant
/// digit: that digit, and ten times the value of the rest.
pub proof fn lemma_value_from_below(s: Seq<u8>)
    requires
        s.len() > 0,
    ensures
        value(s) == s[0] + 10 * value(s.drop_first()),
    decreases s.len(),
{
    if s.len() == 1 {
        assert(s.drop_last() =~= Seq::<u8>::empty());
        assert(s.drop_first() =~= Seq::<u8>::empty());
        assert(value(s.drop_first()) == 0);
        assert(value(s.drop_last()) == 0);
        assert(pow10(0) == 1);
        lemma_mul_basics(s.last() as int);
    } else {
        let rest = s.drop_last();
        lemma_value_from_below(rest);
        assert(rest.drop_first() =~= s.drop_first().drop_last());
        assert(s.drop_first().last() == s.last());
        let top = pow10((s.len() - 2) as nat) as int;
        assert(pow10((s.len() - 1) as nat) == 10 * top);
        assert(rest[0] == s[0]);
        assert(s.drop_first().len() == s.len() - 1);
        assert(value(s.drop_first()) == value(s.drop_first().drop_last()) + s.drop_first().last()
            * pow10((s.drop_first().len() - 1) as nat));
        assert(value(s.drop_first()) == value(rest.drop_first()) + s.last() * top);
        assert(s.last() * (10 * top) == 10 * (s.last() * top)) by (nonlinear_arith);
    }
}

/// The characters of a sequence of digits are the last digits of its
/// value, as many as the sequence is long.
pub proof fn lemma_text_is_padded(s: Seq<u8>)
    requires
        all_digits(s),
    ensures
        text_of(s) == digits_padded(value(s), s.len()),
    decreases s.len(),
{
    if s.len() == 0 {
        assert(text_of(s) =~= Seq::<char>::empty());
    } else {
        let rest = s.drop_first();
        lemma_value_from_below(s);
        lemma_text_is_padded(rest);
        assert(value(s) / 10 == value(rest) && value(s) % 10 == s[0]);
        assert(text_of(s) =~= text_of(rest).push(digit_char(s[0] as nat)));
    }
}

/// The characters of a sequence of digits without a zero at the top, or of
/// the one digit zero, are the digits of its value.
pub proof fn lemma_text_is_digits(s: Seq<u8>)
    requires
        all_digits(s),
        s.len() > 0,
        s.len() == 1 || s.last() != 0,
    ensures
        text_of(s) == digits(value(s)),
    decreases s.len(),
{
    let rest = s.drop_first();
    lemma_value_from_below(s);
    if s.len() == 1 {
        assert(rest =~= Seq::<u8>::empty());
        assert(value(rest) == 0);
        assert(text_of(s) =~= seq![digit_char(s[0] as nat)]);
    } else {
        assert(rest.last() == s.last());
        lemma_text_is_digits(rest);
        lemma_top_digit(rest);
        assert(value(s) / 10 == value(rest) && value(s) % 10 == s[0]);
        assert(text_of(s) =~= text_of(rest).push(digit_char(s[0] as nat)));
    }
}

/// A sequence of digits with a digit other than zero at the top stands
/// for a number other than zero.
proof fn lemma_top_digit(s: Seq<u8>)
    requires
        s.len() > 0,
        s.last() != 0,
    ensures
        value(s) > 0,
{
    lemma_pow10_positive((s.len() - 1) as nat);
    let top = pow10((s.len() - 1) as nat) as int;
    assert(s.last() * top > 0) by (nonlinear_arith)
        requires
            s.last() > 0,
            top > 0,
    ;
}

/// Powers of ten are positive.
pub proof fn lemma_pow10_positive(p: nat)
    ensures
        pow10(p) > 0,
    decreases p,
{
    if p > 0 {
        lemma_pow10_positive((p - 1) as nat);
    }
}

/// Ten to the power of twenty.
proof fn lemma_pow10_twenty()
    ensures
        pow10(20) == 100_000_000_000_000_000_000,
{
    reveal_with_fuel(pow10, 21);
}

} // verus!
