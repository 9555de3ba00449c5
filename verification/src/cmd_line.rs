//! What the command line tool makes of its arguments, once they are read.

use vstd::prelude::*;
use vstd::string::StringSliceAdditionalSpecFns;

verus! {

/// How much is added to the number given on the command line.
pub const OFFSET: i32 = 5;

/// The file that is used when none is named.
pub const DEFAULT_FILE: &'static str = "input.txt";

/// An ASCII decimal digit.
pub open spec fn is_digit(byte: u8) -> bool {
    0x30 <= byte <= 0x39
}

/// Every byte is a decimal digit.
pub open spec fn all_digits(text: Seq<u8>) -> bool {
    forall|i: int| 0 <= i < text.len() ==> is_digit(#[trigger] text[i])
}

/// The number that a run of decimal digits writes.
pub open spec fn digits_value(text: Seq<u8>) -> int
    decreases text.len(),
{
    if text.len() == 0 {
        0
    } else {
        digits_value(text.drop_last()) * 10 + (text.last() - 0x30)
    }
}

/// The integer that `text` writes in decimal: an optional `+` or `-`, then
/// one digit or more, and the number within the range of `i32`. `None` for
/// any other text.
pub open spec fn parse_i32(text: Seq<u8>) -> Option<i32> {
    let signed = text.len() > 0 && (text[0] == 0x2b || text[0] == 0x2d);
    let digits = if signed {
        text.skip(1)
    } else {
        text
    };
    let value = if signed && text[0] == 0x2d {
        -digits_value(digits)
    } else {
        digits_value(digits)
    };
    if digits.len() > 0 && all_digits(digits) && i32::MIN <= value <= i32::MAX {
        Some(value as i32)
    } else {
        None
    }
}

/// More digits never write a smaller number.
proof fn lemma_digits_value_grows(text: Seq<u8>, upto: int)
    requires
        all_digits(text),
        0 <= upto <= text.len(),
    ensures
        0 <= digits_value(text.take(upto)) <= digits_value(text),
    decreases text.len() - upto,
{
    if upto == text.len() {
        assert(text.take(upto) == text);
        lemma_digits_value_not_negative(text);
    } else {
        lemma_digits_value_grows(text, upto + 1);
        let longer = text.take(upto + 1);
        assert(longer.drop_last() == text.take(upto));
        assert(is_digit(text[upto]));
        assert(longer.last() == text[upto]);
        assert(all_digits(text.take(upto)));
        lemma_digits_value_not_negative(text.take(upto));
    }
}

/// Digits write no negative number.
proof fn lemma_digits_value_not_negative(text: Seq<u8>)
    requires
        all_digits(text),
    ensures
        0 <= digits_value(text),
    decreases text.len(),
{
    if text.len() > 0 {
        assert(all_digits(text.drop_last()));
        lemma_digits_value_not_negative(text.drop_last());
        assert(is_digit(text.last()));
    }
}

/// Reads a decimal integer.
#[verifier::loop_isolation(false)]
pub fn parse_number(text: &str) -> (number: Option<i32>)
    ensures
        number == parse_i32(text.spec_bytes()),
{
    let bytes = text.as_bytes();
    let len = bytes.len();
    if len == 0 {
        return None;
    }
    let negative = bytes[0] == 0x2d;
    let start: usize = if bytes[0] == 0x2b || bytes[0] == 0x2d {
        1
    } else {
        0
    };
    if start == len {
        return None;
    }
    let ghost digits = bytes@.skip(start as int);
    let limit: i64 = if negative {
        0x8000_0000
    } else {
        0x7fff_ffff
    };
    let mut value: i64 = 0;
    let mut i: usize = start;
    proof {
        assert(bytes@.skip(0) == bytes@);
        assert(digits.take(0).len() == 0);
    }
    while i < len
        invariant
            start <= i <= len == bytes@.len(),
            digits == bytes@.skip(start as int),
            all_digits(digits.take(i - start)),
            value == digits_value(digits.take(i - start)),
            0 <= value <= limit <= 0x8000_0000,
        decreases len - i,
    {
        let byte = bytes[i];
        proof {
            assert(digits[i - start] == byte);
            assert(digits.take(i - start + 1).drop_last() == digits.take(i - start));
            assert(digits.take(i - start + 1).last() == byte);
        }
        if byte < 0x30 || byte > 0x39 {
            return None;
        }
        value = value * 10 + (byte - 0x30) as i64;
        proof {
            assert forall|k: int| 0 <= k < i - start + 1 implies is_digit(
                #[trigger] digits.take(i - start + 1)[k],
            ) by {
                if k < i - start {
                    assert(digits.take(i - start)[k] == digits[k]);
                }
            }
        }
        if value > limit {
            proof {
                if all_digits(digits) {
                    lemma_digits_value_grows(digits, i - start + 1);
                }
            }
            return None;
        }
        i += 1;
    }
    proof {
        assert(digits.take(len - start) == digits);
    }
    if negative {
        Some((-value) as i32)
    } else {
        Some(value as i32)
    }
}

/// What the tool says about the number it was given.
#[derive(Clone, Copy, Debug, PartialEq, Eq, Structural)]
pub enum NumberReply {
    /// The number was read; this is the favourite number, `OFFSET` more.
    Favorite(i32),
    /// The argument is no decimal integer.
    NotANumber,
    /// No number was given.
    Missing,
}

/// What the argument asks of the tool.
pub open spec fn reply_for(argument: Option<Seq<u8>>) -> NumberReply {
    match argument {
        None => NumberReply::Missing,
        Some(text) => match parse_i32(text) {
            None => NumberReply::NotANumber,
            Some(number) => NumberReply::Favorite((number + OFFSET) as i32),
        },
    }
}

/// Whether adding `OFFSET` to the number in the argument stays in range.
pub open spec fn in_reach(argument: Option<Seq<u8>>) -> bool {
    argument matches Some(text) ==> (parse_i32(text) matches Some(number) ==> number + OFFSET
        <= i32::MAX)
}

/// Answers the number argument: the number that is `OFFSET` more, or why
/// there is none.
pub fn favorite_number(argument: Option<&str>) -> (reply: NumberReply)
    requires
        in_reach(
            match argument {
                Some(text) => Some(text.spec_bytes()),
                None => None,
            },
        ),
    ensures
        reply == reply_for(
            match argument {
                Some(text) => Some(text.spec_bytes()),
                None => None,
            },
        ),
{
    match argument {
        None => NumberReply::Missing,
        Some(text) => match parse_number(text) {
            None => NumberReply::NotANumber,
            Some(number) => NumberReply::Favorite(number + OFFSET),
        },
    }
}

} // verus!
