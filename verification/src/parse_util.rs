//! Reserved words, symbols and identifiers: the tokens that consume the
//! spaces behind them.
use vstd::prelude::*;
use crate::error::{
    ErrorKind, ParseError, ParseResult, SpecResult, fail, leaves_suffix, makes_progress, result_view,
};
use crate::primitive::{
    CharClass, alphanumeric1, is_alphanumeric, lemma_run_len, run_len, space0, tag,
};

verus! {

/// `s` without its leading spaces and tabs.
pub open spec fn skip_spaces(s: Seq<char>) -> Seq<char> {
    s.skip(run_len(CharClass::Space, s) as int)
}

/// A reserved word: the text `keyword`, not directly followed by a letter or
/// a digit, and the spaces behind it.
pub open spec fn spec_reserved(keyword: Seq<char>, s: Seq<char>) -> SpecResult<Seq<char>> {
    if !keyword.is_prefix_of(s) {
        fail(s, ErrorKind::Tag)
    } else {
        let rest = s.skip(keyword.len() as int);
        if run_len(CharClass::AlphaNumeric, rest) > 0 {
            fail(rest, ErrorKind::Not)
        } else {
            Ok((skip_spaces(rest), keyword))
        }
    }
}

/// A symbol: the text `sym` and the spaces behind it.
pub open spec fn spec_symbol(sym: Seq<char>, s: Seq<char>) -> SpecResult<Seq<char>> {
    if !sym.is_prefix_of(s) {
        fail(s, ErrorKind::Tag)
    } else {
        Ok((skip_spaces(s.skip(sym.len() as int)), sym))
    }
}

/// An identifier: the longest non-empty run of ASCII letters and digits, and
/// the spaces behind it.
pub open spec fn spec_identifier(s: Seq<char>) -> SpecResult<Seq<char>> {
    let n = run_len(CharClass::AlphaNumeric, s);
    if n == 0 {
        fail(s, ErrorKind::AlphaNumeric)
    } else {
        Ok((skip_spaces(s.skip(n as int)), s.take(n as int)))
    }
}

/// Whether `name` is not empty and holds ASCII letters and digits only.
pub open spec fn is_name(name: Seq<char>) -> bool {
    name.len() > 0 && forall|i: int| 0 <= i < name.len() ==> is_alphanumeric(#[trigger] name[i])
}

/// Skipping spaces leaves a suffix, and nothing more to skip.
pub proof fn lemma_skip_spaces(s: Seq<char>)
    ensures
        skip_spaces(s).is_suffix_of(s),
        skip_spaces(skip_spaces(s)) == skip_spaces(s),
{
    lemma_run_len(CharClass::Space, s);
    lemma_run_len(CharClass::Space, skip_spaces(s));
    assert(skip_spaces(skip_spaces(s)) =~= skip_spaces(s));
}

/// A suffix of a suffix is a suffix.
pub proof fn lemma_suffix_trans(a: Seq<char>, b: Seq<char>, c: Seq<char>)
    requires
        a.is_suffix_of(b),
        b.is_suffix_of(c),
    ensures
        a.is_suffix_of(c),
{
}

/// A successful identifier is a name that the input starts with, and
/// leaves a strictly shorter suffix of the input.
pub proof fn lemma_identifier(s: Seq<char>)
    ensures
        makes_progress(spec_identifier(s), s),
        spec_identifier(s) matches Ok((_, name)) ==> is_name(name) && name.is_prefix_of(s),
{
    let n = run_len(CharClass::AlphaNumeric, s);
    lemma_run_len(CharClass::AlphaNumeric, s);
    if n > 0 {
        lemma_skip_spaces(s.skip(n as int));
    }
}

/// A successful symbol leaves a suffix of the input, strictly shorter where
/// the symbol is not empty.
pub proof fn lemma_symbol(sym: Seq<char>, s: Seq<char>)
    ensures
        leaves_suffix(spec_symbol(sym, s), s),
        spec_symbol(sym, s) matches Ok((rest, found)) ==> found == sym && rest.len() + sym.len()
            <= s.len(),
{
    if sym.is_prefix_of(s) {
        lemma_skip_spaces(s.skip(sym.len() as int));
    }
}

/// A successful reserved word leaves a suffix of the input.
pub proof fn lemma_reserved(keyword: Seq<char>, s: Seq<char>)
    ensures
        leaves_suffix(spec_reserved(keyword, s), s),
        spec_reserved(keyword, s) matches Ok((rest, found)) ==> found == keyword && rest.len()
            + keyword.len() <= s.len(),
{
    if keyword.is_prefix_of(s) {
        lemma_skip_spaces(s.skip(keyword.len() as int));
    }
}

/// Skips the spaces and tabs that start `s`.
pub(crate) fn spaces<'a>(s: &'a str) -> (rest: &'a str)
    ensures
        rest@ == skip_spaces(s@),
        rest@.is_suffix_of(s@),
{
    proof {
        lemma_skip_spaces(s@);
    }
    match space0(s) {
        Ok((rest, _)) => rest,
        Err(_) => s,
    }
}

/// Parses the reserved word `keyword`: its text must start `s` and must not
/// run on into a letter or a digit. The spaces behind it are consumed.
pub fn reserved<'a>(keyword: &str, s: &'a str) -> (r: ParseResult<'a, &'a str>)
    ensures
        result_view(r) == spec_reserved(keyword@, s@),
        leaves_suffix(result_view(r), s@),
{
    proof {
        lemma_reserved(keyword@, s@);
    }
    match tag(keyword, s) {
        Err(_) => Err(ParseError { input: s, kind: ErrorKind::Tag }),
        Ok((rest, found)) => match alphanumeric1(rest) {
            Ok(_) => Err(ParseError { input: rest, kind: ErrorKind::Not }),
            Err(_) => Ok((spaces(rest), found)),
        },
    }
}

/// Parses the symbol `sym`: its text must start `s`. The spaces behind it are
/// consumed.
pub fn symbol<'a>(sym: &str, s: &'a str) -> (r: ParseResult<'a, &'a str>)
    ensures
        result_view(r) == spec_symbol(sym@, s@),
        leaves_suffix(result_view(r), s@),
{
    proof {
        lemma_symbol(sym@, s@);
    }
    match tag(sym, s) {
        Err(_) => Err(ParseError { input: s, kind: ErrorKind::Tag }),
        Ok((rest, found)) => Ok((spaces(rest), found)),
    }
}

/// Parses an identifier: the longest run of ASCII letters and digits that
/// starts `s`, which must not be empty. The spaces behind it are consumed.
pub fn identifier<'a>(s: &'a str) -> (r: ParseResult<'a, &'a str>)
    ensures
        result_view(r) == spec_identifier(s@),
        leaves_suffix(result_view(r), s@),
{
    proof {
        lemma_identifier(s@);
    }
    match alphanumeric1(s) {
        Err(_) => Err(ParseError { input: s, kind: ErrorKind::AlphaNumeric }),
        Ok((rest, name)) => Ok((spaces(rest), name)),
    }
}

} // verus!
