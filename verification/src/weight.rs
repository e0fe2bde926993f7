//! Weights written as decimal numbers, held as whole millionths.
//!
//! A weight is written as an optional sign, digits, and optionally a point
//! and more digits: `50`, `12.5`, `.25`, `-3`. At least one digit is needed.
//! Its value is kept exactly down to the sixth digit after the point; what
//! follows the sixth digit must be digits and is dropped.

use vstd::prelude::*;
use crate::text::{find_first, first_index, slice_of, chars_of};

verus! {

/// How many millionths make one.
pub const SCALE: u64 = 1_000_000;

/// How many digits after the point are kept.
pub const PLACES: usize = 6;

pub open spec fn is_digit(c: char) -> bool {
    '0' <= c && c <= '9'
}

pub open spec fn digit_of(c: char) -> int {
    c as int - 48
}

pub open spec fn all_digits(text: Seq<char>) -> bool {
    forall|i: int| 0 <= i < text.len() ==> is_digit(#[trigger] text[i])
}

/// The number that a run of decimal digits writes.
pub open spec fn digits_value(digits: Seq<char>) -> int
    decreases digits.len(),
{
    if digits.len() == 0 {
        0
    } else {
        10 * digits_value(digits.drop_last()) + digit_of(digits.last())
    }
}

pub open spec fn has_sign(text: Seq<char>) -> bool {
    text.len() > 0 && (text[0] == '-' || text[0] == '+')
}

pub open spec fn is_negative(text: Seq<char>) -> bool {
    text.len() > 0 && text[0] == '-'
}

/// `text` without its sign.
pub open spec fn unsigned(text: Seq<char>) -> Seq<char> {
    if has_sign(text) {
        text.skip(1)
    } else {
        text
    }
}

/// Where the point of an unsigned number stands: at its first `.`, or at its
/// end if it has none.
pub open spec fn point_index(number: Seq<char>) -> int {
    match first_index(number, seq!['.'], 0) {
        Some(at) => at,
        None => number.len() as int,
    }
}

/// What stands before the point.
pub open spec fn whole_digits(text: Seq<char>) -> Seq<char> {
    unsigned(text).take(point_index(unsigned(text)))
}

/// What stands after the point.
pub open spec fn fraction_digits(text: Seq<char>) -> Seq<char> {
    let number = unsigned(text);
    if point_index(number) < number.len() {
        number.skip(point_index(number) + 1)
    } else {
        Seq::empty()
    }
}

/// The first six of `digits`, with zeros where there are fewer.
pub open spec fn six_places(digits: Seq<char>) -> Seq<char> {
    Seq::new(
        6,
        |i: int|
            if i < digits.len() {
                digits[i]
            } else {
                '0'
            },
    )
}

/// Whether `text` writes a number.
pub open spec fn is_number(text: Seq<char>) -> bool {
    &&& all_digits(whole_digits(text))
    &&& all_digits(fraction_digits(text))
    &&& whole_digits(text).len() + fraction_digits(text).len() > 0
}

/// The size of the number that `text` writes, in millionths.
pub open spec fn magnitude(text: Seq<char>) -> int {
    digits_value(whole_digits(text)) * 1_000_000 + digits_value(six_places(fraction_digits(text)))
}

/// The weight that `text` writes, in millionths: none where `text` writes no
/// number, or one beyond what 64 bits with a sign hold.
pub open spec fn weight_of(text: Seq<char>) -> Option<int> {
    if is_number(text) && magnitude(text) <= i64::MAX {
        if is_negative(text) {
            Some(-magnitude(text))
        } else {
            Some(magnitude(text))
        }
    } else {
        None
    }
}

/// A weight fits into 64 bits with a sign.
pub proof fn lemma_weight_fits(text: Seq<char>)
    ensures
        weight_of(text) matches Some(weight) ==> -i64::MAX <= weight <= i64::MAX,
{
    if is_number(text) {
        lemma_digits_value_grows(whole_digits(text), 0);
        lemma_six_digits_bound(six_places(fraction_digits(text)));
    }
}

/// A run of digits is worth at least as much as any of its beginnings.
pub proof fn lemma_digits_value_grows(digits: Seq<char>, n: int)
    requires
        all_digits(digits),
        0 <= n <= digits.len(),
    ensures
        0 <= digits_value(digits.take(n)) <= digits_value(digits),
    decreases digits.len(),
{
    if digits.len() == 0 {
        assert(digits.take(n) =~= digits);
    } else if n == digits.len() {
        assert(digits.take(n) =~= digits);
        lemma_digits_value_grows(digits.drop_last(), n - 1);
    } else {
        lemma_digits_value_grows(digits.drop_last(), n);
        assert(digits.drop_last().take(n) =~= digits.take(n));
        lemma_digits_value_grows(digits.drop_last(), digits.len() - 1);
        assert(digits.drop_last().take(digits.len() - 1) =~= digits.drop_last());
    }
}

/// Six digits write less than a million.
pub proof fn lemma_six_digits_bound(digits: Seq<char>)
    requires
        all_digits(digits),
        digits.len() <= 6,
    ensures
        0 <= digits_value(digits) < pow10(digits.len()),
    decreases digits.len(),
{
    if digits.len() > 0 {
        lemma_six_digits_bound(digits.drop_last());
    }
}

/// Ten to the power `n`.
pub open spec fn pow10(n: nat) -> int
    decreases n,
{
    if n == 0 {
        1
    } else {
        10 * pow10((n - 1) as nat)
    }
}

/// Whether every character of `text` is a decimal digit.
pub fn is_all_digits(text: &Vec<char>) -> (yes: bool)
    ensures
        yes == all_digits(text@),
{
    let mut i: usize = 0;
    while i < text.len()
        invariant
            i <= text@.len(),
            forall|j: int| 0 <= j < i ==> is_digit(#[trigger] text@[j]),
        decreases text@.len() - i,
    {
        let c: char = text[i];
        if c < '0' || c > '9' {
            return false;
        }
        i += 1;
    }
    true
}

/// The number that `digits` writes, where they are digits and it fits into
/// 64 bits.
pub fn read_digits(digits: &Vec<char>) -> (value: Option<u64>)
    ensures
        match value {
            Some(v) => all_digits(digits@) && v == digits_value(digits@),
            None => !all_digits(digits@) || digits_value(digits@) > u64::MAX,
        },
{
    if !is_all_digits(digits) {
        return None;
    }
    let mut acc: u64 = 0;
    let mut i: usize = 0;
    while i < digits.len()
        invariant
            i <= digits@.len(),
            all_digits(digits@),
            acc == digits_value(digits@.take(i as int)),
        decreases digits@.len() - i,
    {
        let c: char = digits[i];
        let d: u64 = (c as u32 - 48) as u64;
        proof {
            assert(is_digit(digits@[i as int]));
            assert(digits@.take(i + 1).drop_last() =~= digits@.take(i as int));
            assert(digits@.take(i + 1).last() == c);
            assert(digits_value(digits@.take(i + 1)) == 10 * acc + d);
            lemma_digits_value_grows(digits@, i + 1);
        }
        if acc > (u64::MAX - d) / 10 {
            return None;
        }
        acc = acc * 10 + d;
        i += 1;
    }
    assert(digits@.take(i as int) =~= digits@);
    Some(acc)
}

/// The weight that `text` writes, in millionths.
pub fn parse_weight_chars(text: &Vec<char>) -> (weight: Option<i64>)
    ensures
        match weight {
            Some(w) => weight_of(text@) == Some(w as int),
            None => weight_of(text@) is None,
        },
{
    let n: usize = text.len();
    let signed: bool = n > 0 && (text[0] == '-' || text[0] == '+');
    let negative: bool = n > 0 && text[0] == '-';
    let number: Vec<char> = if signed {
        slice_of(text, 1, n)
    } else {
        slice_of(text, 0, n)
    };
    assert(number@ =~= unsigned(text@));
    let mut point: Vec<char> = Vec::new();
    point.push('.');
    assert(point@ =~= seq!['.']);
    let m: usize = number.len();
    let at: usize = match find_first(&number, &point) {
        Some(at) => at,
        None => m,
    };
    proof {
        crate::text::lemma_first_index(number@, point@, 0);
    }
    assert(at as int == point_index(number@));
    let whole: Vec<char> = slice_of(&number, 0, at);
    let fraction: Vec<char> = if at < m {
        slice_of(&number, at + 1, m)
    } else {
        Vec::new()
    };
    assert(whole@ =~= whole_digits(text@));
    assert(fraction@ =~= fraction_digits(text@));
    if !is_all_digits(&whole) || !is_all_digits(&fraction) {
        return None;
    }
    if whole.len() == 0 && fraction.len() == 0 {
        return None;
    }
    let kept: usize = if fraction.len() < PLACES {
        fraction.len()
    } else {
        PLACES
    };
    let mut six: Vec<char> = slice_of(&fraction, 0, kept);
    while six.len() < PLACES
        invariant
            kept <= six@.len() <= 6,
            kept <= fraction@.len(),
            forall|j: int| 0 <= j < kept ==> six@[j] == fraction@[j],
            forall|j: int| kept <= j < six@.len() ==> six@[j] == '0',
        decreases 6 - six@.len(),
    {
        six.push('0');
    }
    assert(six@ =~= six_places(fraction@));
    proof {
        lemma_six_digits_bound(six@);
        reveal_with_fuel(pow10, 7);
    }
    let low: u64 = match read_digits(&six) {
        Some(v) => v,
        None => 0,
    };
    let high: u64 = match read_digits(&whole) {
        Some(v) => v,
        None => {
            return None;
        },
    };
    proof {
        lemma_digits_value_grows(whole@, 0);
    }
    let limit: u64 = 9_223_372_036_854_775_807;
    if high > (limit - low) / SCALE {
        assert(high * 1_000_000 + low > limit) by (nonlinear_arith)
            requires
                high > (limit - low) / 1_000_000,
                low < 1_000_000,
                limit == 9_223_372_036_854_775_807,
        ;
        return None;
    }
    assert(high * 1_000_000 + low <= limit) by (nonlinear_arith)
        requires
            high <= (limit - low) / 1_000_000,
            low < 1_000_000,
            limit == 9_223_372_036_854_775_807,
    ;
    let size: u64 = high * SCALE + low;
    if negative {
        Some(-(size as i64))
    } else {
        Some(size as i64)
    }
}

/// The weight that `text` writes, in millionths.
pub fn parse_weight(text: &str) -> (weight: Option<i64>)
    ensures
        match weight {
            Some(w) => weight_of(text@) == Some(w as int),
            None => weight_of(text@) is None,
        },
{
    let chars: Vec<char> = chars_of(text);
    parse_weight_chars(&chars)
}

} // verus!
