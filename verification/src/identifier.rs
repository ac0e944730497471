//! Qualified identifiers.
use vstd::prelude::*;
use crate::error::{
    ErrorKind, ParseError, ParseResult, SpecResult, fail, leaves_suffix, makes_progress, result_view,
};
use crate::parse_util::{
    identifier, is_name, lemma_identifier, lemma_suffix_trans, lemma_symbol, spec_identifier,
    spec_symbol, symbol,
};
use crate::primitive::{CharClass, alphanumeric1, lemma_run_len, run_len};

verus! {

/// An identifier that is qualified with the name of its package, as in
/// `math.Sin`.
#[derive(Debug, Clone, Copy, PartialEq, Eq)]
pub struct QualifiedIdent<'a> {
    pub package_name: &'a str,
    pub identifier: &'a str,
}

/// The mathematical value of a [`QualifiedIdent`].
pub ghost struct QualifiedIdentView {
    pub package_name: Seq<char>,
    pub identifier: Seq<char>,
}

impl<'a> DeepView for QualifiedIdent<'a> {
    type V = QualifiedIdentView;

    open spec fn deep_view(&self) -> QualifiedIdentView {
        QualifiedIdentView { package_name: self.package_name@, identifier: self.identifier@ }
    }
}

/// A qualified identifier: the name of a package, which is a non-empty run
/// of ASCII letters and digits, directly behind it a dot, and an identifier.
/// Spaces may follow the dot, and none may stand in front of it.
pub open spec fn spec_qualified_ident(s: Seq<char>) -> SpecResult<QualifiedIdentView> {
    let n = run_len(CharClass::AlphaNumeric, s);
    if n == 0 {
        fail(s, ErrorKind::AlphaNumeric)
    } else {
        match spec_symbol(seq!['.'], s.skip(n as int)) {
            Err(e) => Err(e),
            Ok((after_dot, _)) => match spec_identifier(after_dot) {
                Err(e) => Err(e),
                Ok((rest, identifier)) => Ok(
                    (rest, QualifiedIdentView { package_name: s.take(n as int), identifier }),
                ),
            },
        }
    }
}

/// A qualified identifier is read only where the input starts with a name
/// and, directly behind it, a dot: both parts of the result are names, and
/// the input starts with the name of the package and the dot. The parse
/// consumed a prefix of the input that is not empty.
pub proof fn lemma_qualified_ident(s: Seq<char>)
    ensures
        makes_progress(spec_qualified_ident(s), s),
        spec_qualified_ident(s) matches Ok((_, q)) ==> {
            &&& is_name(q.package_name)
            &&& is_name(q.identifier)
            &&& (q.package_name + seq!['.']).is_prefix_of(s)
        },
{
    let n = run_len(CharClass::AlphaNumeric, s);
    lemma_run_len(CharClass::AlphaNumeric, s);
    if n > 0 {
        let after_name = s.skip(n as int);
        lemma_symbol(seq!['.'], after_name);
        if let Ok((after_dot, _)) = spec_symbol(seq!['.'], after_name) {
            lemma_identifier(after_dot);
            if spec_identifier(after_dot) is Ok {
                assert(seq!['.'] =~= after_name.subrange(0, 1));
                assert(s.take(n as int) + seq!['.'] =~= s.subrange(0, n as int + 1));
            }
        }
    }
}

impl<'a> QualifiedIdent<'a> {
    /// Parses a qualified identifier: the name of a package, a dot, and an
    /// identifier. It fails where one of the three is missing, and where
    /// anything stands between the name of the package and the dot. Spaces
    /// behind the dot and behind the identifier are consumed.
    pub fn parse(s: &'a str) -> (r: ParseResult<'a, QualifiedIdent<'a>>)
        ensures
            result_view(r) == spec_qualified_ident(s@),
            leaves_suffix(result_view(r), s@),
    {
        proof {
            reveal_strlit(".");
            assert("."@ =~= seq!['.']);
        }
        let (after_package, package_name) = match alphanumeric1(s) {
            Ok(parsed) => parsed,
            Err(_) => { return Err(ParseError { input: s, kind: ErrorKind::AlphaNumeric }); },
        };
        proof {
            lemma_run_len(CharClass::AlphaNumeric, s@);
        }
        let (after_dot, _) = match symbol(".", after_package) {
            Ok(parsed) => parsed,
            Err(e) => { return Err(e); },
        };
        let (rest, identifier) = match identifier(after_dot) {
            Ok(parsed) => parsed,
            Err(e) => { return Err(e); },
        };
        proof {
            lemma_suffix_trans(after_dot@, after_package@, s@);
            lemma_suffix_trans(rest@, after_dot@, s@);
        }
        Ok((rest, QualifiedIdent { package_name, identifier }))
    }
}

} // verus!
