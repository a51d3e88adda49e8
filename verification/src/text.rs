//! Numbers written out as text.

use crate::calendar::{decimal_text, digit_char};
use vstd::prelude::*;
use vstd::std_specs::iter::IteratorSpec;
use vstd::string::StringExecFns;

verus! {

/// Decimal digits of a number, with a minus sign in front where it is
/// negative.
pub open spec fn signed_decimal_text(number: int) -> Seq<char> {
    if number < 0 {
        seq!['-'] + decimal_text(-number)
    } else {
        decimal_text(number)
    }
}

/// The text of one decimal digit.
fn digit_text(digit: u128) -> (r: &'static str)
    requires
        digit < 10,
    ensures
        r@ == seq![digit_char(digit as int)],
{
    proof {
        reveal_strlit("0");
        reveal_strlit("1");
        reveal_strlit("2");
        reveal_strlit("3");
        reveal_strlit("4");
        reveal_strlit("5");
        reveal_strlit("6");
        reveal_strlit("7");
        reveal_strlit("8");
        reveal_strlit("9");
    }
    let r = if digit == 0 {
        "0"
    } else if digit == 1 {
        "1"
    } else if digit == 2 {
        "2"
    } else if digit == 3 {
        "3"
    } else if digit == 4 {
        "4"
    } else if digit == 5 {
        "5"
    } else if digit == 6 {
        "6"
    } else if digit == 7 {
        "7"
    } else if digit == 8 {
        "8"
    } else {
        "9"
    };
    assert(r@ =~= seq![digit_char(digit as int)]);
    r
}

/// The decimal digits of a number that is not negative.
pub fn unsigned_decimal_string(number: u128) -> (r: String)
    ensures
        r@ == decimal_text(number as int),
    decreases number,
{
    if number < 10 {
        digit_text(number).to_owned()
    } else {
        let mut text = unsigned_decimal_string(number / 10);
        text.append(digit_text(number % 10));
        assert(text@ =~= decimal_text(number as int / 10).push(digit_char(number as int % 10)));
        text
    }
}

/// The decimal digits of a number, with a minus sign in front where it
/// is negative.
pub fn decimal_string(number: i64) -> (r: String)
    ensures
        r@ == signed_decimal_text(number as int),
{
    if number < 0 {
        proof {
            reveal_strlit("-");
        }
        let magnitude: u128 = if number == i64::MIN {
            0x8000_0000_0000_0000
        } else {
            (-number) as u128
        };
        let mut text = "-".to_owned();
        let digits = unsigned_decimal_string(magnitude);
        text.append(digits.as_str());
        assert(text@ =~= seq!['-'] + decimal_text(-(number as int)));
        text
    } else {
        unsigned_decimal_string(number as u128)
    }
}

/// Whether the first text comes before the second where texts are
/// ordered as in a dictionary, character by character, each character
/// by its number: the order in which the store compares texts. A text
/// comes before every longer text that begins with it.
pub open spec fn text_before(first: Seq<char>, second: Seq<char>) -> bool
    decreases first.len(),
{
    if second.len() == 0 {
        false
    } else if first.len() == 0 {
        true
    } else if first[0] != second[0] {
        (first[0] as u32) < (second[0] as u32)
    } else {
        text_before(first.drop_first(), second.drop_first())
    }
}

/// No text comes before itself.
pub proof fn lemma_text_order_is_strict(text: Seq<char>)
    ensures
        !text_before(text, text),
    decreases text.len(),
{
    if text.len() > 0 {
        lemma_text_order_is_strict(text.drop_first());
    }
}

/// Of two texts that differ, exactly one comes before the other.
pub proof fn lemma_text_order_is_total(first: Seq<char>, second: Seq<char>)
    ensures
        first != second ==> (text_before(first, second) <==> !text_before(second, first)),
        first == second ==> !text_before(first, second),
    decreases first.len(),
{
    lemma_text_order_is_strict(first);
    if first.len() > 0 && second.len() > 0 {
        if first[0] == second[0] {
            lemma_text_order_is_total(first.drop_first(), second.drop_first());
            if first.drop_first() == second.drop_first() {
                assert(first =~= seq![first[0]] + first.drop_first());
                assert(second =~= seq![second[0]] + second.drop_first());
            }
        } else {
            vstd::utf8::char_u32_cast(first[0], first[0] as u32);
            vstd::utf8::char_u32_cast(second[0], second[0] as u32);
        }
    } else if first.len() == 0 && second.len() == 0 {
        assert(first =~= second);
    }
}

/// What comes before a text that comes before a third comes before the
/// third.
pub proof fn lemma_text_order_is_transitive(
    first: Seq<char>,
    second: Seq<char>,
    third: Seq<char>,
)
    requires
        text_before(first, second),
        text_before(second, third),
    ensures
        text_before(first, third),
    decreases first.len(),
{
    if first.len() > 0 {
        if first[0] == second[0] && second[0] == third[0] {
            lemma_text_order_is_transitive(
                first.drop_first(),
                second.drop_first(),
                third.drop_first(),
            );
        }
    }
}

/// Whether the first text comes before the second in the order of
/// `text_before`.
pub fn is_text_before(first: &str, second: &str) -> (r: bool)
    ensures
        r == text_before(first@, second@),
{
    broadcast use vstd::string::group_string_axioms;

    let mut left = first.chars();
    let mut right = second.chars();
    loop
        invariant
            text_before(first@, second@) == text_before(left.remaining(), right.remaining()),
            left.decrease() is Some,
        decreases left.decrease()->0,
    {
        let x = left.next();
        let y = right.next();
        match (x, y) {
            (_, None) => {
                return false;
            },
            (None, Some(_)) => {
                return true;
            },
            (Some(c), Some(d)) => {
                if c != d {
                    return (c as u32) < (d as u32);
                }
            },
        }
    }
}

} // verus!
