//! The parsers of single digits.
use vstd::prelude::*;
use crate::error::{ParseResult, leaves_suffix, result_view};
use crate::literals::letter_and_digit::{Base, digit, spec_digit};

verus! {

/// Parses one of `0` to `9`. Fails, consuming nothing, on empty input and on
/// any other character.
pub fn parse_decimal_digit<'a>(s: &'a str) -> (r: ParseResult<'a, char>)
    ensures
        result_view(r) == spec_digit(Base::Decimal, s@),
        leaves_suffix(result_view(r), s@),
{
    digit(Base::Decimal, s)
}

/// Parses one of `0` to `7`. Fails, consuming nothing, on empty input and on
/// any other character.
pub fn parse_octal_digit<'a>(s: &'a str) -> (r: ParseResult<'a, char>)
    ensures
        result_view(r) == spec_digit(Base::Octal, s@),
        leaves_suffix(result_view(r), s@),
{
    digit(Base::Octal, s)
}

/// Parses `0` or `1`. Fails, consuming nothing, on empty input and on any
/// other character.
pub fn parse_binary_digit<'a>(s: &'a str) -> (r: ParseResult<'a, char>)
    ensures
        result_view(r) == spec_digit(Base::Binary, s@),
        leaves_suffix(result_view(r), s@),
{
    digit(Base::Binary, s)
}

/// Parses one of `0` to `9`, `a` to `f` or `A` to `F`. Fails, consuming
/// nothing, on empty input and on any other character.
pub fn parse_hex_digit<'a>(s: &'a str) -> (r: ParseResult<'a, char>)
    ensures
        result_view(r) == spec_digit(Base::Hex, s@),
        leaves_suffix(result_view(r), s@),
{
    digit(Base::Hex, s)
}

} // verus!
