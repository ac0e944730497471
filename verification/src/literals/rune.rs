//! Rune literals.
use vstd::prelude::*;
use crate::astable::ASTable;
use crate::error::{ErrorKind, ParseError, ParseResult, SpecResult, fail};
use crate::primitive::{anychar, one_char};

verus! {

/// A rune literal: the one character that stands between the two single
/// quotes. Escape sequences are not supported.
#[derive(Debug, Clone, Copy, PartialEq, Eq)]
pub struct Rune(pub char);

impl DeepView for Rune {
    type V = char;

    open spec fn deep_view(&self) -> char {
        self.0
    }
}

/// A rune literal: a single quote, any one character, a single quote.
pub open spec fn spec_rune(s: Seq<char>) -> SpecResult<char> {
    if !(s.len() > 0 && s[0] == '\'') {
        fail(s, ErrorKind::Char)
    } else if s.len() < 2 {
        fail(s.skip(1), ErrorKind::Eof)
    } else if !(s.len() > 2 && s[2] == '\'') {
        fail(s.skip(2), ErrorKind::Char)
    } else {
        Ok((s.skip(3), s[1]))
    }
}

impl<'a> ASTable<'a> for Rune {
    open spec fn spec_parse(s: Seq<char>) -> SpecResult<char> {
        spec_rune(s)
    }

    /// Parses a rune literal: a single quote, exactly one character of any
    /// kind, and a single quote.
    fn parse(s: &'a str) -> (r: ParseResult<'a, Self>) {
        let (inner, _) = match one_char('\'', s) {
            Ok(opened) => opened,
            Err(_) => { return Err(ParseError { input: s, kind: ErrorKind::Char }); },
        };
        let (closing, c) = match anychar(inner) {
            Ok(read) => read,
            Err(_) => { return Err(ParseError { input: inner, kind: ErrorKind::Eof }); },
        };
        match one_char('\'', closing) {
            Ok((rest, _)) => {
                assert(rest@ =~= s@.skip(3));
                Ok((rest, Rune(c)))
            },
            Err(_) => {
                assert(closing@ =~= s@.skip(2));
                Err(ParseError { input: closing, kind: ErrorKind::Char })
            },
        }
    }
}

} // verus!
