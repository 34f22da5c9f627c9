//! Decimal numbers in text, and sums of numbers.

use vstd::prelude::*;
use core::num::ParseIntError;
use crate::text::is_digit;

verus! {

/// The error with which std refuses a text that is no integer.
#[verifier::external_type_specification]
#[verifier::external_body]
pub struct ExParseIntError(ParseIntError);

/// The number that a sequence of digits denotes in base ten.
pub open spec fn digits_value(s: Seq<char>) -> int
    decreases s.len(),
{
    if s.len() == 0 {
        0
    } else {
        digits_value(s.drop_last()) * 10 + (s.last() as u32 - '0' as u32)
    }
}

/// The `i32` that `s` denotes: an optional sign `+` or `-`, then one digit
/// or more and nothing else, with a value that an `i32` can hold.
pub open spec fn parsed_i32(s: Seq<char>) -> Option<i32> {
    let signed = s.len() > 0 && (s[0] == '-' || s[0] == '+');
    let digits = if signed {
        s.drop_first()
    } else {
        s
    };
    let value = if s.len() > 0 && s[0] == '-' {
        -digits_value(digits)
    } else {
        digits_value(digits)
    };
    if digits.len() > 0 && (forall|i: int| 0 <= i < digits.len() ==> is_digit(digits[i]))
        && i32::MIN <= value <= i32::MAX {
        Some(value as i32)
    } else {
        None
    }
}

/// Calls `str::parse` for an `i32`. As std documents it, the text is taken
/// as an optional sign followed by decimal digits only, and a number out
/// of the range of `i32` is an error.
#[verifier::external_body]
pub(crate) fn parse_decimal(s: &str) -> (r: Result<i32, ParseIntError>)
    ensures
        match r {
            Ok(value) => parsed_i32(s@) == Some(value),
            Err(_) => parsed_i32(s@) is None,
        },
{
    s.parse::<i32>()
}

/// The sum of the numbers.
pub open spec fn sum_of(values: Seq<i32>) -> int
    decreases values.len(),
{
    if values.len() == 0 {
        0
    } else {
        sum_of(values.drop_last()) + values.last()
    }
}

/// Whether the numbers can be added up from the left within `i32`.
pub open spec fn sums_fit(values: Seq<i32>) -> bool {
    forall|k: int| 0 <= k <= values.len() ==> i32::MIN <= #[trigger] sum_of(values.take(k)) <= i32::MAX
}

} // verus!
