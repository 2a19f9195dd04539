//! What encodings and decimals stand for.
use vstd::arithmetic::power2::{
    lemma2_to64, lemma2_to64_rest, lemma_pow2_adds, lemma_pow2_pos, lemma_pow2_strictly_increases,
    pow2,
};
use vstd::prelude::*;

use crate::binary64::{Binary64, ONE, ZERO};
use crate::text::{decimal, digit_char, padded_decimal, signed_decimal};

verus! {

// Values in double precision.

/// How many encodings share an exponent.
pub open spec fn fractions() -> int {
    0x10_0000_0000_0000
}

/// The eleven bits of the exponent.
pub open spec fn exponent(value: Binary64) -> int {
    (value.bits as int / fractions()) % 2048
}

/// The fifty-two bits of the fraction.
pub open spec fn fraction(value: Binary64) -> int {
    value.bits as int % fractions()
}

/// Whether the sign bit is set.
pub open spec fn has_sign(value: Binary64) -> bool {
    value.bits as int / fractions() >= 2048
}

/// The absolute value of a finite encoding, in units of the smallest positive one: the fraction
/// alone where the exponent is zero, else the fraction with a leading one, doubled for each
/// further exponent.
pub open spec fn absolute(value: Binary64) -> int {
    if exponent(value) == 0 {
        fraction(value)
    } else {
        (fractions() + fraction(value)) * pow2((exponent(value) - 1) as nat)
    }
}

/// The number that a finite encoding stands for, in units of the smallest positive one.
pub open spec fn number(value: Binary64) -> int {
    if has_sign(value) {
        -absolute(value)
    } else {
        absolute(value)
    }
}

proof fn lemma_parts(value: Binary64)
    ensures
        0 <= exponent(value) < 2048,
        0 <= fraction(value) < fractions(),
        value.magnitude() == exponent(value) * fractions() + fraction(value),
        has_sign(value) == (value.bits >= 0x8000_0000_0000_0000),
{
}

proof fn lemma_absolute_is_positive(value: Binary64)
    ensures
        absolute(value) >= 0,
        absolute(value) == 0 <==> value.magnitude() == 0,
{
    lemma_parts(value);
    if exponent(value) > 0 {
        let scale = pow2((exponent(value) - 1) as nat) as int;
        lemma_pow2_pos((exponent(value) - 1) as nat);
        assert((fractions() + fraction(value)) * scale > 0) by (nonlinear_arith)
            requires
                fractions() + fraction(value) > 0,
                scale > 0,
        ;
    }
}

proof fn lemma_absolute_grows(small: Binary64, large: Binary64)
    requires
        small.magnitude() < large.magnitude(),
    ensures
        absolute(small) < absolute(large),
{
    lemma_parts(small);
    lemma_parts(large);
    let below = exponent(small);
    let above = exponent(large);
    assert(below <= above);
    if above == 0 {
        assert(below == 0);
    } else {
        let scale = pow2((above - 1) as nat) as int;
        lemma_pow2_pos((above - 1) as nat);
        if below == above {
            assert((fractions() + fraction(small)) * scale < (fractions() + fraction(large))
                * scale) by (nonlinear_arith)
                requires
                    fraction(small) < fraction(large),
                    scale > 0,
            ;
        } else {
            assert(fractions() * scale <= (fractions() + fraction(large)) * scale)
                by (nonlinear_arith)
                requires
                    fraction(large) >= 0,
                    scale > 0,
            ;
            if below == 0 {
                assert(fraction(small) < fractions() * scale) by (nonlinear_arith)
                    requires
                        fraction(small) < fractions(),
                        fractions() > 0,
                        scale >= 1,
                ;
            } else {
                let inner = pow2((below - 1) as nat) as int;
                let gap = (above - below) as nat;
                lemma_pow2_pos((below - 1) as nat);
                lemma_pow2_adds((below - 1) as nat, gap);
                assert((below - 1) as nat + gap == (above - 1) as nat);
                lemma2_to64();
                if gap > 1 {
                    lemma_pow2_strictly_increases(1, gap);
                }
                let factor = pow2(gap) as int;
                assert(factor >= 2);
                assert((fractions() + fraction(small)) * inner < fractions() * (inner * factor))
                    by (nonlinear_arith)
                    requires
                        0 <= fraction(small) < fractions(),
                        inner > 0,
                        factor >= 2,
                ;
            }
        }
    }
}

/// An encoding is finite unless all bits of its exponent are set. Then it is infinite, or, where
/// its fraction is not zero, no number at all.
pub proof fn law_exponents_tell_what_is_finite(value: Binary64)
    ensures
        value.is_finite() <==> exponent(value) < 2047,
        value.is_nan() <==> exponent(value) == 2047 && fraction(value) != 0,
{
    lemma_parts(value);
}

/// Finite values are in the order of the numbers that they stand for.
pub proof fn law_finite_values_are_ordered_as_numbers(a: Binary64, b: Binary64)
    requires
        a.is_finite(),
        b.is_finite(),
    ensures
        a.less_than(b) <==> number(a) < number(b),
        a.at_most(b) <==> number(a) <= number(b),
        a.is_positive() <==> number(a) > 0,
        a.is_nonnegative() <==> number(a) >= 0,
{
    lemma_parts(a);
    lemma_parts(b);
    lemma_absolute_is_positive(a);
    lemma_absolute_is_positive(b);
    if a.magnitude() < b.magnitude() {
        lemma_absolute_grows(a, b);
    } else if b.magnitude() < a.magnitude() {
        lemma_absolute_grows(b, a);
    } else {
        assert(exponent(a) == exponent(b) && fraction(a) == fraction(b));
    }
}

/// Infinity is above every finite value, its opposite is below, and each is equal to itself.
pub proof fn law_infinities_are_the_ends(value: Binary64, infinity: Binary64)
    requires
        !infinity.is_finite(),
        !infinity.is_nan(),
        value.is_finite(),
    ensures
        infinity.at_most(infinity),
        !infinity.less_than(infinity),
        value.less_than(infinity) <==> !has_sign(infinity),
        infinity.less_than(value) <==> has_sign(infinity),
        value.at_most(infinity) <==> !has_sign(infinity),
        infinity.at_most(value) <==> has_sign(infinity),
{
    lemma_parts(value);
    lemma_parts(infinity);
}

/// Nothing is ordered with what is no number, not even itself.
pub proof fn law_no_number_has_no_place(a: Binary64, b: Binary64)
    requires
        a.is_nan() || b.is_nan(),
    ensures
        !a.less_than(b),
        !a.at_most(b),
{
}

/// A share is a number from zero to the number one.
pub proof fn law_probabilities_are_shares(value: Binary64)
    ensures
        number(Binary64 { bits: ZERO }) == 0,
        number(Binary64 { bits: ONE }) == pow2(1074),
        value.is_probability() <==> value.is_finite() && 0 <= number(value) <= pow2(1074),
{
    let zero = Binary64 { bits: ZERO };
    let one = Binary64 { bits: ONE };
    assert(exponent(one) == 1023 && fraction(one) == 0);
    lemma_pow2_adds(52, 1022);
    lemma2_to64_rest();
    assert(pow2(52) == fractions());
    if value.is_finite() {
        law_finite_values_are_ordered_as_numbers(zero, value);
        law_finite_values_are_ordered_as_numbers(value, one);
    } else if !value.is_nan() {
        law_infinities_are_the_ends(zero, value);
        law_infinities_are_the_ends(one, value);
    }
}

/// The larger of two finite values stands for the larger of their numbers.
pub proof fn law_max_is_the_larger_number(a: Binary64, b: Binary64)
    requires
        a.is_finite(),
        b.is_finite(),
    ensures
        a.max(b).is_finite(),
        number(a.max(b)) == (if number(a) < number(b) {
            number(b)
        } else {
            number(a)
        }),
{
    law_finite_values_are_ordered_as_numbers(a, b);
}

// Decimals.

/// What a digit counts.
pub open spec fn digit_value(digit: char) -> int {
    digit as int - '0' as int
}

/// What a row of digits counts: ten times all but the last, and the last.
pub open spec fn value_of(digits: Seq<char>) -> int
    decreases digits.len(),
{
    if digits.len() == 0 {
        0
    } else {
        10 * value_of(digits.drop_last()) + digit_value(digits.last())
    }
}

pub open spec fn are_digits(text: Seq<char>) -> bool {
    forall|i: int| 0 <= i < text.len() ==> '0' as int <= #[trigger] text[i] as int <= '9' as int
}

/// The digits of a number count that number, and do not start with a zero unless there is no
/// other digit.
pub proof fn law_digits_count_their_number(number: nat)
    ensures
        are_digits(decimal(number)),
        value_of(decimal(number)) == number,
        decimal(number).len() >= 1,
        decimal(number).len() > 1 ==> decimal(number)[0] != '0',
        number > 0 ==> decimal(number)[0] != '0',
    decreases number,
{
    let digits = decimal(number);
    if number >= 10 {
        law_digits_count_their_number(number / 10);
        assert(digits.drop_last() =~= decimal(number / 10));
        assert(digits.last() == digit_char((number % 10) as int));
        assert(are_digits(digits));
    } else {
        assert(digits.drop_last() =~= Seq::empty());
        assert(value_of(digits.drop_last()) == 0);
    }
}

/// A number with a sign is written with a minus sign in front of its digits exactly where it is
/// below zero.
pub proof fn law_signs_are_written_in_front(number: int)
    ensures
        number < 0 ==> signed_decimal(number)[0] == '-' && value_of(
            signed_decimal(number).skip(1),
        ) == -number && are_digits(signed_decimal(number).skip(1)),
        number >= 0 ==> value_of(signed_decimal(number)) == number && are_digits(
            signed_decimal(number),
        ),
{
    if number < 0 {
        law_digits_count_their_number((-number) as nat);
        assert(signed_decimal(number).skip(1) =~= decimal((-number) as nat));
    } else {
        law_digits_count_their_number(number as nat);
    }
}

proof fn lemma_zeros_count_nothing(zeros: nat, digits: Seq<char>)
    ensures
        value_of(Seq::new(zeros, |i: int| '0') + digits) == value_of(digits),
    decreases zeros + digits.len(),
{
    let front = Seq::new(zeros, |i: int| '0');
    let text = front + digits;
    if digits.len() > 0 {
        lemma_zeros_count_nothing(zeros, digits.drop_last());
        assert(text.drop_last() =~= front + digits.drop_last());
    } else if zeros > 0 {
        lemma_zeros_count_nothing((zeros - 1) as nat, digits);
        assert(text.drop_last() =~= Seq::new((zeros - 1) as nat, |i: int| '0') + digits);
    } else {
        assert(text =~= digits);
    }
}

/// Padding fills up to the width, never cuts, and does not change what the digits count.
pub proof fn law_padding_keeps_the_number(number: nat, width: nat)
    ensures
        are_digits(padded_decimal(number, width)),
        value_of(padded_decimal(number, width)) == number,
        padded_decimal(number, width).len() >= width,
        padded_decimal(number, width).len() > width ==> padded_decimal(number, width) == decimal(
            number,
        ),
{
    law_digits_count_their_number(number);
    let digits = decimal(number);
    if digits.len() < width {
        lemma_zeros_count_nothing((width - digits.len()) as nat, digits);
    }
}

} // verus!
