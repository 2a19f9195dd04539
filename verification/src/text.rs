//! Numbers in decimal.
use vstd::prelude::*;

verus! {

/// The character of a single digit.
pub open spec fn digit_char(digit: int) -> char {
    ('0' as int + digit) as char
}

/// The decimal digits of `number`, without leading zeros.
pub open spec fn decimal(number: nat) -> Seq<char>
    decreases number,
{
    if number < 10 {
        seq![digit_char(number as int)]
    } else {
        decimal(number / 10).push(digit_char((number % 10) as int))
    }
}

/// The decimal digits of `number`, behind a minus sign where it is negative.
pub open spec fn signed_decimal(number: int) -> Seq<char> {
    if number < 0 {
        seq!['-'] + decimal((-number) as nat)
    } else {
        decimal(number as nat)
    }
}

/// The decimal digits of `number`, with zeros in front up to `width` digits.
pub open spec fn padded_decimal(number: nat, width: nat) -> Seq<char> {
    let digits = decimal(number);
    if digits.len() < width {
        Seq::new((width - digits.len()) as nat, |i: int| '0') + digits
    } else {
        digits
    }
}

fn digit_text(digit: u64) -> (text: &'static str)
    requires
        digit < 10,
    ensures
        text@ == seq![digit_char(digit as int)],
{
    proof {
        reveal_strlit("0");
        reveal_strlit("1");
        reveal_strlit("2");
        reveal_strlit("3");
        reveal_strlit("4");
        reveal_strlit("5");
        reveal_strlit("6");
        reveal_strlit("7");
        reveal_strlit("8");
        reveal_strlit("9");
    }
    match digit {
        0 => "0",
        1 => "1",
        2 => "2",
        3 => "3",
        4 => "4",
        5 => "5",
        6 => "6",
        7 => "7",
        8 => "8",
        _ => "9",
    }
}

/// `number` in decimal.
pub fn decimal_text(number: u64) -> (text: String)
    ensures
        text@ == decimal(number as nat),
    decreases number,
{
    if number < 10 {
        digit_text(number).to_owned()
    } else {
        let mut text = decimal_text(number / 10);
        text.append(digit_text(number % 10));
        proof {
            assert(text@ =~= decimal((number / 10) as nat).push(
                digit_char((number % 10) as int),
            ));
        }
        text
    }
}

/// `number` in decimal.
pub fn count_text(number: usize) -> (text: String)
    ensures
        text@ == decimal(number as nat),
{
    decimal_text(number as u64)
}

/// `number` in decimal, with its sign where it is negative.
pub fn signed_text(number: i64) -> (text: String)
    ensures
        text@ == signed_decimal(number as int),
{
    if number < 0 {
        let mut text = "-".to_owned();
        let size: u64 = (-(number as i128)) as u64;
        let digits = decimal_text(size);
        text.append(digits.as_str());
        proof {
            reveal_strlit("-");
            assert("-"@ =~= seq!['-']);
        }
        text
    } else {
        decimal_text(number as u64)
    }
}

/// `number` in decimal, with zeros in front up to `width` digits.
pub fn padded_text(number: u64, width: usize) -> (text: String)
    ensures
        text@ == padded_decimal(number as nat, width as nat),
{
    let digits = decimal_text(number);
    let length = digits.as_str().unicode_len();
    let mut text = String::new();
    let mut zeros: usize = length;
    proof {
        reveal_strlit("0");
    }
    while zeros < width
        invariant
            length == digits@.len(),
            length <= zeros,
            zeros <= width || text@.len() == 0,
            text@ == Seq::new((zeros - length) as nat, |i: int| '0'),
            "0"@ == seq!['0'],
        decreases width - zeros,
    {
        text.append("0");
        zeros = zeros + 1;
        proof {
            assert(text@ =~= Seq::new((zeros - length) as nat, |i: int| '0'));
        }
    }
    text.append(digits.as_str());
    proof {
        if length >= width {
            assert(text@ =~= digits@);
        }
    }
    text
}

pub proof fn lemma_decimal_len(number: nat)
    ensures
        decimal(number).len() >= 1,
        number >= 10 ==> decimal(number).len() >= 2,
    decreases number,
{
    if number >= 10 {
        lemma_decimal_len(number / 10);
    }
}

/// Numbers above zero do not start with a zero.
proof fn lemma_leading_digit(number: nat)
    requires
        number > 0,
    ensures
        decimal(number).len() >= 1,
        decimal(number)[0] != '0',
    decreases number,
{
    if number >= 10 {
        lemma_leading_digit(number / 10);
    }
}

/// Different numbers have different decimal digits.
pub proof fn law_decimal_is_injective(a: nat, b: nat)
    requires
        decimal(a) == decimal(b),
    ensures
        a == b,
    decreases a,
{
    lemma_decimal_len(a);
    lemma_decimal_len(b);
    let last = decimal(a).len() - 1;
    if a >= 10 {
        assert(b >= 10);
        assert(decimal(a)[last] == digit_char((a % 10) as int));
        assert(decimal(b)[last] == digit_char((b % 10) as int));
        assert(decimal(a).drop_last() =~= decimal(a / 10));
        assert(decimal(b).drop_last() =~= decimal(b / 10));
        law_decimal_is_injective(a / 10, b / 10);
    } else {
        assert(b < 10);
        assert(decimal(a)[0] == digit_char(a as int));
        assert(decimal(b)[0] == digit_char(b as int));
    }
}

/// Different numbers stay different when they are padded to the same width.
pub proof fn law_padding_is_injective(a: nat, b: nat, width: nat)
    requires
        padded_decimal(a, width) == padded_decimal(b, width),
    ensures
        a == b,
{
    lemma_decimal_len(a);
    lemma_decimal_len(b);
    if decimal(a).len() == decimal(b).len() {
        lemma_padded_suffix(a, width);
        lemma_padded_suffix(b, width);
        law_decimal_is_injective(a, b);
    } else if decimal(a).len() < decimal(b).len() {
        lemma_padding_differs(a, b, width);
    } else {
        lemma_padding_differs(b, a, width);
    }
}

proof fn lemma_padded_suffix(number: nat, width: nat)
    ensures
        ({
            let text = padded_decimal(number, width);
            let length = decimal(number).len();
            text.len() >= length && decimal(number) == text.subrange(
                text.len() - length,
                text.len() as int,
            )
        }),
{
    let text = padded_decimal(number, width);
    let length = decimal(number).len();
    assert(decimal(number) =~= text.subrange(text.len() - length, text.len() as int));
}

proof fn lemma_padding_differs(short: nat, long: nat, width: nat)
    requires
        decimal(short).len() < decimal(long).len(),
    ensures
        padded_decimal(short, width) != padded_decimal(long, width),
{
    lemma_decimal_len(short);
    if long == 0 {
        assert(decimal(long).len() == 1);
    } else {
        lemma_leading_digit(long);
        let length = decimal(long).len();
        if length <= width {
            let place = width - length;
            assert(padded_decimal(long, width)[place] == decimal(long)[0]);
            assert(padded_decimal(short, width)[place] == '0');
        }
    }
}

} // verus!
