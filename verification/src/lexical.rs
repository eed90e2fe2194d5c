//! Numbers as the response spells them: decimal integers and their conversion
//! to the integer types of the machine, and floating-point numbers, which
//! the caller converts.

use core::num::{ParseFloatError, ParseIntError};
use vstd::prelude::*;
use vstd::string::StringSliceAdditionalSpecFns;

verus! {

/// The bytes `0` to `9`.
pub open spec fn is_digit(b: u8) -> bool {
    0x30 <= b <= 0x39
}

/// Whether `s` holds decimal digits only.
pub open spec fn all_digits(s: Seq<u8>) -> bool {
    forall|i: int| 0 <= i < s.len() ==> is_digit(#[trigger] s[i])
}

/// The number that a run of decimal digits spells.
pub open spec fn digits_value(s: Seq<u8>) -> nat
    decreases s.len(),
{
    if s.len() == 0 {
        0
    } else {
        digits_value(s.drop_last()) * 10 + (s.last() - 0x30) as nat
    }
}

/// The number that `s` spells if it is one or more decimal digits.
pub open spec fn unsigned_literal(s: Seq<u8>) -> Option<int> {
    if s.len() > 0 && all_digits(s) {
        Some(digits_value(s) as int)
    } else {
        None
    }
}

/// The number that `s` spells if it is a decimal integer: one or more
/// digits, after an optional `+`, or, where `signed`, an optional `-`.
pub open spec fn decimal_literal(s: Seq<u8>, signed: bool) -> Option<int> {
    if s.len() > 0 && s[0] == 0x2B {
        unsigned_literal(s.skip(1))
    } else if signed && s.len() > 0 && s[0] == 0x2D {
        match unsigned_literal(s.skip(1)) {
            Some(v) => Some(-v),
            None => None,
        }
    } else {
        unsigned_literal(s)
    }
}

/// The number that `s` spells if it is a decimal integer from `min` to `max`.
pub open spec fn decimal_in_range(s: Seq<u8>, signed: bool, min: int, max: int) -> Option<int> {
    match decimal_literal(s, signed) {
        Some(v) => if min <= v <= max {
            Some(v)
        } else {
            None
        },
        None => None,
    }
}

/// Whether `outcome` is what the caller's floating-point conversion may give
/// for a token.
pub open spec fn float_answer<F, P: Fn(&str) -> Result<F, ParseFloatError>>(
    parse_float: P,
    token: Seq<u8>,
    outcome: Result<F, ParseFloatError>,
) -> bool {
    exists|text: &str| #[trigger]
        call_ensures(parse_float, (text,), outcome) && text.spec_bytes() == token
}

/// The failure that `str::parse` reports for a token that is no integer of
/// the type asked for. The type is given by whether it is `signed` and by
/// its width in `bits`.
pub uninterp spec fn integer_failure(token: Seq<u8>, signed: bool, bits: nat) -> ParseIntError;

/// Calls `str::parse::<i8>`.
///
/// Trusted: the call is claimed to succeed exactly on an optional sign and
/// one or more decimal digits whose number fits the type, and to give that
/// number; its failure is a function of the token, named
/// [`integer_failure`].
#[verifier::external_body]
pub(crate) fn parse_i8(text: &str) -> (r: Result<i8, ParseIntError>)
    ensures
        match decimal_in_range(text.spec_bytes(), true, i8::MIN as int, i8::MAX as int) {
            Some(v) => r == Ok::<i8, ParseIntError>(v as i8),
            None => r == Err::<i8, ParseIntError>(
                integer_failure(text.spec_bytes(), true, 8),
            ),
        },
{
    text.parse::<i8>()
}

/// Calls `str::parse::<i16>`.
///
/// Trusted: the call is claimed to succeed exactly on an optional sign and
/// one or more decimal digits whose number fits the type, and to give that
/// number; its failure is a function of the token, named
/// [`integer_failure`].
#[verifier::external_body]
pub(crate) fn parse_i16(text: &str) -> (r: Result<i16, ParseIntError>)
    ensures
        match decimal_in_range(text.spec_bytes(), true, i16::MIN as int, i16::MAX as int) {
            Some(v) => r == Ok::<i16, ParseIntError>(v as i16),
            None => r == Err::<i16, ParseIntError>(
                integer_failure(text.spec_bytes(), true, 16),
            ),
        },
{
    text.parse::<i16>()
}

/// Calls `str::parse::<i32>`.
///
/// Trusted: the call is claimed to succeed exactly on an optional sign and
/// one or more decimal digits whose number fits the type, and to give that
/// number; its failure is a function of the token, named
/// [`integer_failure`].
#[verifier::external_body]
pub(crate) fn parse_i32(text: &str) -> (r: Result<i32, ParseIntError>)
    ensures
        match decimal_in_range(text.spec_bytes(), true, i32::MIN as int, i32::MAX as int) {
            Some(v) => r == Ok::<i32, ParseIntError>(v as i32),
            None => r == Err::<i32, ParseIntError>(
                integer_failure(text.spec_bytes(), true, 32),
            ),
        },
{
    text.parse::<i32>()
}

/// Calls `str::parse::<i64>`.
///
/// Trusted: the call is claimed to succeed exactly on an optional sign and
/// one or more decimal digits whose number fits the type, and to give that
/// number; its failure is a function of the token, named
/// [`integer_failure`].
#[verifier::external_body]
pub(crate) fn parse_i64(text: &str) -> (r: Result<i64, ParseIntError>)
    ensures
        match decimal_in_range(text.spec_bytes(), true, i64::MIN as int, i64::MAX as int) {
            Some(v) => r == Ok::<i64, ParseIntError>(v as i64),
            None => r == Err::<i64, ParseIntError>(
                integer_failure(text.spec_bytes(), true, 64),
            ),
        },
{
    text.parse::<i64>()
}

/// Calls `str::parse::<u8>`.
///
/// Trusted: the call is claimed to succeed exactly on an optional `+` and
/// one or more decimal digits whose number fits the type, and to give that
/// number; its failure is a function of the token, named
/// [`integer_failure`].
#[verifier::external_body]
pub(crate) fn parse_u8(text: &str) -> (r: Result<u8, ParseIntError>)
    ensures
        match decimal_in_range(text.spec_bytes(), false, 0, u8::MAX as int) {
            Some(v) => r == Ok::<u8, ParseIntError>(v as u8),
            None => r == Err::<u8, ParseIntError>(
                integer_failure(text.spec_bytes(), false, 8),
            ),
        },
{
    text.parse::<u8>()
}

/// Calls `str::parse::<u16>`.
///
/// Trusted: the call is claimed to succeed exactly on an optional `+` and
/// one or more decimal digits whose number fits the type, and to give that
/// number; its failure is a function of the token, named
/// [`integer_failure`].
#[verifier::external_body]
pub(crate) fn parse_u16(text: &str) -> (r: Result<u16, ParseIntError>)
    ensures
        match decimal_in_range(text.spec_bytes(), false, 0, u16::MAX as int) {
            Some(v) => r == Ok::<u16, ParseIntError>(v as u16),
            None => r == Err::<u16, ParseIntError>(
                integer_failure(text.spec_bytes(), false, 16),
            ),
        },
{
    text.parse::<u16>()
}

/// Calls `str::parse::<u32>`.
///
/// Trusted: the call is claimed to succeed exactly on an optional `+` and
/// one or more decimal digits whose number fits the type, and to give that
/// number; its failure is a function of the token, named
/// [`integer_failure`].
#[verifier::external_body]
pub(crate) fn parse_u32(text: &str) -> (r: Result<u32, ParseIntError>)
    ensures
        match decimal_in_range(text.spec_bytes(), false, 0, u32::MAX as int) {
            Some(v) => r == Ok::<u32, ParseIntError>(v as u32),
            None => r == Err::<u32, ParseIntError>(
                integer_failure(text.spec_bytes(), false, 32),
            ),
        },
{
    text.parse::<u32>()
}

/// Calls `str::parse::<u64>`.
///
/// Trusted: the call is claimed to succeed exactly on an optional `+` and
/// one or more decimal digits whose number fits the type, and to give that
/// number; its failure is a function of the token, named
/// [`integer_failure`].
#[verifier::external_body]
pub(crate) fn parse_u64(text: &str) -> (r: Result<u64, ParseIntError>)
    ensures
        match decimal_in_range(text.spec_bytes(), false, 0, u64::MAX as int) {
            Some(v) => r == Ok::<u64, ParseIntError>(v as u64),
            None => r == Err::<u64, ParseIntError>(
                integer_failure(text.spec_bytes(), false, 64),
            ),
        },
{
    text.parse::<u64>()
}

} // verus!
