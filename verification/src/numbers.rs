//! Reading a count written in decimal digits.

use vstd::prelude::*;
use vstd::string::StringSliceAdditionalSpecFns;

verus! {

/// The byte of the digit `0`.
pub const DIGIT_ZERO: u8 = 48;

/// The byte of the digit `9`.
pub const DIGIT_NINE: u8 = 57;

/// The byte of the sign `+`.
pub const PLUS_SIGN: u8 = 43;

/// The byte is one of the digits `0` to `9`.
pub open spec fn is_digit(byte: u8) -> bool {
    DIGIT_ZERO <= byte <= DIGIT_NINE
}

/// The value of a digit, and 0 for every other byte.
pub open spec fn digit_value(byte: u8) -> nat {
    if is_digit(byte) {
        (byte - DIGIT_ZERO) as nat
    } else {
        0
    }
}

/// Every byte is a digit.
pub open spec fn all_digits(digits: Seq<u8>) -> bool {
    forall|i: int| 0 <= i < digits.len() ==> is_digit(#[trigger] digits[i])
}

/// The number that a row of digits denotes in base ten.
pub open spec fn decimal_value(digits: Seq<u8>) -> nat
    decreases digits.len(),
{
    if digits.len() == 0 {
        0
    } else {
        decimal_value(digits.drop_last()) * 10 + digit_value(digits.last())
    }
}

/// The text without one leading `+`.
pub open spec fn unsigned_part(text: Seq<u8>) -> Seq<u8> {
    if text.len() > 0 && text[0] == PLUS_SIGN {
        text.skip(1)
    } else {
        text
    }
}

/// The count that a text denotes: after at most one leading `+`, one or
/// more digits whose value fits a `usize`. Every other text denotes none.
pub open spec fn count_of(text: Seq<u8>) -> Option<usize> {
    let digits = unsigned_part(text);
    if digits.len() > 0 && all_digits(digits) && decimal_value(digits) <= usize::MAX {
        Some(decimal_value(digits) as usize)
    } else {
        None
    }
}

/// A row of digits denotes at least what each of its beginnings denotes.
pub proof fn lemma_decimal_value_grows(digits: Seq<u8>, upto: int)
    requires
        0 <= upto <= digits.len(),
    ensures
        decimal_value(digits.take(upto)) <= decimal_value(digits),
    decreases digits.len() - upto,
{
    if upto == digits.len() {
        assert(digits.take(upto) =~= digits);
    } else {
        lemma_decimal_value_grows(digits.drop_last(), upto);
        assert(digits.drop_last().take(upto) =~= digits.take(upto));
    }
}

/// Reads a count: an optional `+`, then decimal digits. Gives `None` for
/// the empty text, a sign alone, any other character, and a number that
/// does not fit a `usize`.
pub fn parse_count(text: &str) -> (count: Option<usize>)
    ensures
        count == count_of(text.spec_bytes()),
{
    let bytes = text.as_bytes();
    let total: usize = bytes.len();
    let first: usize = if total > 0 && bytes[0] == PLUS_SIGN {
        1
    } else {
        0
    };
    let ghost digits = unsigned_part(text.spec_bytes());
    if first == total {
        return None;
    }
    let mut value: usize = 0;
    let mut at: usize = first;
    while at < total
        invariant
            first <= at <= total == bytes@.len(),
            bytes@ == text.spec_bytes(),
            digits == bytes@.skip(first as int),
            digits == unsigned_part(text.spec_bytes()),
            all_digits(digits.take(at - first)),
            value == decimal_value(digits.take(at - first)),
        decreases total - at,
    {
        let byte = bytes[at];
        let ghost read = digits.take(at - first);
        let ghost more = digits.take(at - first + 1);
        proof {
            assert(digits[at - first] == byte);
            assert(more.drop_last() =~= read);
            assert(more.last() == byte);
        }
        if byte < DIGIT_ZERO || byte > DIGIT_NINE {
            return None;
        }
        let digit: usize = (byte - DIGIT_ZERO) as usize;
        let grown = match value.checked_mul(10) {
            Some(tens) => tens.checked_add(digit),
            None => None,
        };
        match grown {
            Some(next) => {
                value = next;
            },
            None => {
                proof {
                    lemma_decimal_value_grows(digits, at - first + 1);
                }
                return None;
            },
        }
        proof {
            assert forall|i: int| 0 <= i < more.len() implies is_digit(#[trigger] more[i]) by {
                if i < read.len() {
                    assert(more[i] == read[i]);
                }
            }
        }
        at += 1;
    }
    proof {
        assert(digits.take(total - first) =~= digits);
    }
    Some(value)
}

} // verus!
