//! The failures of the parsers, and the shape of their results.
use vstd::prelude::*;

verus! {

/// The reason a parser gave up at some position of the input.
#[derive(Debug, Clone, Copy, PartialEq, Eq, Structural)]
pub enum ErrorKind {
    /// The expected literal text does not start the input.
    Tag,
    /// The next character is missing or outside the permitted set.
    OneOf,
    /// The next character is missing or is not the expected one.
    Char,
    /// The input ended where one more character was required.
    Eof,
    /// No ASCII letter or digit starts the input.
    AlphaNumeric,
    /// Something follows that the grammar forbids at this position.
    Not,
    /// The input ended before the terminator of a construct was seen.
    Incomplete,
    /// An identifier stands where a predeclared type name is required.
    UnknownType,
}

/// A failed parse: the input that was left when the parser gave up, and the
/// reason. Nothing is consumed by a failed parse; `input` only locates it.
#[derive(Debug, Clone, Copy, PartialEq, Eq)]
pub struct ParseError<'a> {
    pub input: &'a str,
    pub kind: ErrorKind,
}

/// The mathematical value of a [`ParseError`].
pub ghost struct ParseErrorView {
    pub input: Seq<char>,
    pub kind: ErrorKind,
}

impl<'a> DeepView for ParseError<'a> {
    type V = ParseErrorView;

    open spec fn deep_view(&self) -> ParseErrorView {
        ParseErrorView { input: self.input@, kind: self.kind }
    }
}

/// What every parser of this crate returns: the unconsumed rest of the input
/// together with the recognized value, or the failure.
pub type ParseResult<'a, T> = Result<(&'a str, T), ParseError<'a>>;

/// The mathematical counterpart of [`ParseResult`].
pub type SpecResult<T> = Result<(Seq<char>, T), ParseErrorView>;

/// The failure of kind `kind` located at `input`.
pub open spec fn fail<T>(input: Seq<char>, kind: ErrorKind) -> SpecResult<T> {
    Err(ParseErrorView { input, kind })
}

/// The mathematical value of a parser's result.
pub open spec fn result_view<'a, T: DeepView>(r: ParseResult<'a, T>) -> SpecResult<T::V> {
    match r {
        Ok((rest, value)) => Ok((rest@, value.deep_view())),
        Err(e) => Err(e.deep_view()),
    }
}

/// A successful result leaves a suffix of the input `s`: the parser consumed
/// a prefix of `s` and nothing else.
pub open spec fn leaves_suffix<T>(r: SpecResult<T>, s: Seq<char>) -> bool {
    r matches Ok((rest, _)) ==> rest.is_suffix_of(s)
}

/// What a parser leaves holds nothing of what it consumed: the input is
/// what was consumed, followed by what was left. So a parser that is run
/// again on what was left never reads a consumed character again.
pub proof fn lemma_rest_excludes_consumed<T>(r: SpecResult<T>, s: Seq<char>)
    requires
        leaves_suffix(r, s),
    ensures
        r matches Ok((rest, _)) ==> s == s.take(s.len() - rest.len()) + rest && rest == s.skip(
            s.len() - rest.len(),
        ),
{
    if let Ok((rest, _)) = r {
        assert(s =~= s.take(s.len() - rest.len()) + rest);
    }
}

/// A successful result leaves a suffix of the input `s` that is strictly
/// shorter than `s`: the parser consumed a prefix of `s` that is not empty.
pub open spec fn makes_progress<T>(r: SpecResult<T>, s: Seq<char>) -> bool {
    r matches Ok((rest, _)) ==> rest.is_suffix_of(s) && rest.len() < s.len()
}

} // verus!
