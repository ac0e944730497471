//! The digits of the four bases of integer literals.
use vstd::prelude::*;
use crate::error::{ErrorKind, ParseError, ParseResult, SpecResult, fail, leaves_suffix, result_view};
use crate::primitive::one_of;

verus! {

/// The four bases in which an integer literal can be written.
#[derive(Debug, Clone, Copy, PartialEq, Eq, Structural)]
pub enum Base {
    Binary,
    Octal,
    Decimal,
    Hex,
}

/// Whether `c` is one of `0` to `9`.
pub open spec fn is_decimal_digit(c: char) -> bool {
    '0' <= c <= '9'
}

/// Whether `c` is one of `0` to `7`.
pub open spec fn is_octal_digit(c: char) -> bool {
    '0' <= c <= '7'
}

/// Whether `c` is `0` or `1`.
pub open spec fn is_binary_digit(c: char) -> bool {
    c == '0' || c == '1'
}

/// Whether `c` is one of `0` to `9`, `a` to `f` or `A` to `F`.
pub open spec fn is_hex_digit(c: char) -> bool {
    ('0' <= c <= '9') || ('a' <= c <= 'f') || ('A' <= c <= 'F')
}

/// Whether `c` is a digit of the base `base`.
pub open spec fn is_digit(base: Base, c: char) -> bool {
    match base {
        Base::Binary => is_binary_digit(c),
        Base::Octal => is_octal_digit(c),
        Base::Decimal => is_decimal_digit(c),
        Base::Hex => is_hex_digit(c),
    }
}

/// One digit of the base `base`: the first character of `s`, if it is one.
pub open spec fn spec_digit(base: Base, s: Seq<char>) -> SpecResult<char> {
    if s.len() > 0 && is_digit(base, s[0]) {
        Ok((s.skip(1), s[0]))
    } else {
        fail(s, ErrorKind::OneOf)
    }
}

/// The digits of `base`, written out.
pub(crate) fn alphabet(base: Base) -> (list: &'static str)
    ensures
        forall|c: char| list@.contains(c) <==> is_digit(base, c),
{
    match base {
        Base::Binary => {
            let list = "01";
            proof {
                reveal_strlit("01");
                assert forall|c: char| is_digit(base, c) implies list@.contains(c) by {
                    assert(list@[c as int - '0' as int] == c);
                }
            }
            list
        },
        Base::Octal => {
            let list = "01234567";
            proof {
                reveal_strlit("01234567");
                assert forall|c: char| is_digit(base, c) implies list@.contains(c) by {
                    assert(list@[c as int - '0' as int] == c);
                }
            }
            list
        },
        Base::Decimal => {
            let list = "0123456789";
            proof {
                reveal_strlit("0123456789");
                assert forall|c: char| is_digit(base, c) implies list@.contains(c) by {
                    assert(list@[c as int - '0' as int] == c);
                }
            }
            list
        },
        Base::Hex => {
            let list = "0123456789abcdefABCDEF";
            proof {
                reveal_strlit("0123456789abcdefABCDEF");
                assert forall|c: char| is_digit(base, c) implies list@.contains(c) by {
                    if '0' <= c <= '9' {
                        assert(list@[c as int - '0' as int] == c);
                    } else if 'a' <= c <= 'f' {
                        assert(list@[10 + c as int - 'a' as int] == c);
                    } else {
                        assert(list@[16 + c as int - 'A' as int] == c);
                    }
                }
            }
            list
        },
    }
}

/// Parses one digit of the base `base`. Fails, consuming nothing, on empty
/// input and on any other character.
pub fn digit<'a>(base: Base, s: &'a str) -> (r: ParseResult<'a, char>)
    ensures
        result_view(r) == spec_digit(base, s@),
        leaves_suffix(result_view(r), s@),
{
    match one_of(alphabet(base), s) {
        Ok((rest, c)) => Ok((rest, c)),
        Err(_) => Err(ParseError { input: s, kind: ErrorKind::OneOf }),
    }
}

/// Parses one of `0` to `9`.
pub fn decimal_digit<'a>(s: &'a str) -> (r: ParseResult<'a, char>)
    ensures
        result_view(r) == spec_digit(Base::Decimal, s@),
        leaves_suffix(result_view(r), s@),
{
    digit(Base::Decimal, s)
}

/// Parses one of `0` to `7`.
pub fn octal_digit<'a>(s: &'a str) -> (r: ParseResult<'a, char>)
    ensures
        result_view(r) == spec_digit(Base::Octal, s@),
        leaves_suffix(result_view(r), s@),
{
    digit(Base::Octal, s)
}

/// Parses `0` or `1`.
pub fn binary_digit<'a>(s: &'a str) -> (r: ParseResult<'a, char>)
    ensures
        result_view(r) == spec_digit(Base::Binary, s@),
        leaves_suffix(result_view(r), s@),
{
    digit(Base::Binary, s)
}

/// Parses one of `0` to `9`, `a` to `f` or `A` to `F`.
pub fn hex_digit<'a>(s: &'a str) -> (r: ParseResult<'a, char>)
    ensures
        result_view(r) == spec_digit(Base::Hex, s@),
        leaves_suffix(result_view(r), s@),
{
    digit(Base::Hex, s)
}

} // verus!
