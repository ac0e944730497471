//! Literals.
use vstd::prelude::*;
use crate::astable::ASTable;
use crate::error::{ParseResult, SpecResult, leaves_suffix, makes_progress, result_view};
use crate::literals::integer::{
    IntLit, IntLitView, int_lit, lemma_based_lit, lemma_decimal_lit, spec_int_lit,
};
use crate::literals::letter_and_digit::Base;
use crate::literals::rune::{Rune, spec_rune};
use crate::parse_util::{lemma_skip_spaces, lemma_suffix_trans, skip_spaces, spaces};

pub mod integer;
pub mod integer_proofs;
pub mod letter_and_digit;
pub mod rune;

verus! {

/// A literal. Of the basic literals, integers and runes are parsed;
/// floating-point, imaginary and string literals are named here and not yet
/// produced by [`Literal::parse`].
#[derive(Debug, Clone, Copy, PartialEq, Eq)]
pub enum Literal<'a> {
    IntLit(IntLit<'a>),
    FloatLit,
    ImaginaryLit,
    RuneLit(Rune),
    StringLit(&'a str),
}

/// The mathematical value of a [`Literal`].
pub ghost enum LiteralView {
    IntLit(IntLitView),
    FloatLit,
    ImaginaryLit,
    RuneLit(char),
    StringLit(Seq<char>),
}

impl<'a> DeepView for Literal<'a> {
    type V = LiteralView;

    open spec fn deep_view(&self) -> LiteralView {
        match *self {
            Literal::IntLit(i) => LiteralView::IntLit(i.deep_view()),
            Literal::FloatLit => LiteralView::FloatLit,
            Literal::ImaginaryLit => LiteralView::ImaginaryLit,
            Literal::RuneLit(r) => LiteralView::RuneLit(r.deep_view()),
            Literal::StringLit(text) => LiteralView::StringLit(text@),
        }
    }
}

/// An integer literal as a token: the literal and the spaces behind it.
pub open spec fn spec_int_literal(s: Seq<char>) -> SpecResult<LiteralView> {
    match spec_int_lit(s) {
        Ok((rest, i)) => Ok((skip_spaces(rest), LiteralView::IntLit(i))),
        Err(e) => Err(e),
    }
}

/// A rune literal as a token: the literal and the spaces behind it.
pub open spec fn spec_rune_literal(s: Seq<char>) -> SpecResult<LiteralView> {
    match spec_rune(s) {
        Ok((rest, c)) => Ok((skip_spaces(rest), LiteralView::RuneLit(c))),
        Err(e) => Err(e),
    }
}

/// A literal: an integer literal, or else a rune literal, and the spaces
/// behind it.
pub open spec fn spec_literal(s: Seq<char>) -> SpecResult<LiteralView> {
    if spec_int_literal(s) is Ok {
        spec_int_literal(s)
    } else {
        spec_rune_literal(s)
    }
}

/// A successful literal consumed a prefix of the input that is not empty,
/// and is an integer literal or a rune literal.
pub proof fn lemma_literal(s: Seq<char>)
    ensures
        makes_progress(spec_literal(s), s),
        spec_literal(s) matches Ok((_, l)) ==> l is IntLit || l is RuneLit,
{
    lemma_based_lit(Base::Hex, s);
    lemma_based_lit(Base::Binary, s);
    lemma_based_lit(Base::Octal, s);
    lemma_decimal_lit(s);
    if let Ok((rest, _)) = spec_int_lit(s) {
        lemma_skip_spaces(rest);
        lemma_suffix_trans(skip_spaces(rest), rest, s);
    } else if let Ok((rest, _)) = spec_rune(s) {
        lemma_skip_spaces(rest);
        lemma_suffix_trans(skip_spaces(rest), rest, s);
    }
}

impl<'a> Literal<'a> {
    /// Parses an integer literal of any base. The spaces behind it are
    /// consumed.
    pub fn parse_int_lit(s: &'a str) -> (r: ParseResult<'a, Self>)
        ensures
            result_view(r) == spec_int_literal(s@),
            leaves_suffix(result_view(r), s@),
    {
        match int_lit(s) {
            Ok((rest, i)) => {
                let after = spaces(rest);
                proof {
                    lemma_suffix_trans(after@, rest@, s@);
                }
                Ok((after, Literal::IntLit(i)))
            },
            Err(e) => Err(e),
        }
    }

    /// Parses a rune literal. The spaces behind it are consumed.
    pub fn parse_rune_lit(s: &'a str) -> (r: ParseResult<'a, Self>)
        ensures
            result_view(r) == spec_rune_literal(s@),
            leaves_suffix(result_view(r), s@),
    {
        match Rune::parse(s) {
            Ok((rest, c)) => {
                let after = spaces(rest);
                proof {
                    lemma_suffix_trans(after@, rest@, s@);
                }
                Ok((after, Literal::RuneLit(c)))
            },
            Err(e) => Err(e),
        }
    }
}

impl<'a> ASTable<'a> for Literal<'a> {
    open spec fn spec_parse(s: Seq<char>) -> SpecResult<LiteralView> {
        spec_literal(s)
    }

    /// Parses a literal: an integer literal, or else a rune literal. The
    /// spaces behind the literal are consumed. Where neither matches, the
    /// failure is that of the rune literal.
    fn parse(s: &'a str) -> (r: ParseResult<'a, Self>) {
        match Literal::parse_int_lit(s) {
            Ok(parsed) => Ok(parsed),
            Err(_) => Literal::parse_rune_lit(s),
        }
    }
}

} // verus!
