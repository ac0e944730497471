//! Operands and their names.
use vstd::prelude::*;
use crate::astable::ASTable;
use crate::error::{ParseResult, SpecResult, makes_progress};
use crate::expression::{Expression, ExpressionView, operand_view};
use crate::identifier::{
    QualifiedIdent, QualifiedIdentView, lemma_qualified_ident, spec_qualified_ident,
};
use crate::literals::{Literal, LiteralView, lemma_literal, spec_literal};
use crate::parse_util::{identifier, lemma_identifier, spec_identifier};

verus! {

/// An operand: a literal, a name, or an expression in parentheses. The
/// parenthesized form is named here and not yet produced by
/// [`Operand::parse`].
#[derive(Debug, PartialEq)]
pub enum Operand<'a> {
    Literal(Literal<'a>),
    OperandName(OperandName<'a>),
    Parenthesized(Box<Expression<'a>>),
}

/// The mathematical value of an [`Operand`].
pub ghost enum OperandView {
    Literal(LiteralView),
    OperandName(OperandNameView),
    Parenthesized(Box<ExpressionView>),
}

impl<'a> DeepView for Operand<'a> {
    type V = OperandView;

    open spec fn deep_view(&self) -> OperandView {
        operand_view(*self)
    }
}

/// The name of an operand: an identifier, plain or qualified.
#[derive(Debug, Clone, Copy, PartialEq, Eq)]
pub enum OperandName<'a> {
    Identifier(&'a str),
    QualifiedIdent(QualifiedIdent<'a>),
}

/// The mathematical value of an [`OperandName`].
pub ghost enum OperandNameView {
    Identifier(Seq<char>),
    QualifiedIdent(QualifiedIdentView),
}

impl<'a> DeepView for OperandName<'a> {
    type V = OperandNameView;

    open spec fn deep_view(&self) -> OperandNameView {
        match *self {
            OperandName::Identifier(name) => OperandNameView::Identifier(name@),
            OperandName::QualifiedIdent(q) => OperandNameView::QualifiedIdent(q.deep_view()),
        }
    }
}

/// The name of an operand: a qualified identifier, or else an identifier.
pub open spec fn spec_operand_name(s: Seq<char>) -> SpecResult<OperandNameView> {
    match spec_qualified_ident(s) {
        Ok((rest, q)) => Ok((rest, OperandNameView::QualifiedIdent(q))),
        Err(_) => match spec_identifier(s) {
            Ok((rest, name)) => Ok((rest, OperandNameView::Identifier(name))),
            Err(e) => Err(e),
        },
    }
}

/// An operand: a literal, or else the name of an operand.
pub open spec fn spec_operand(s: Seq<char>) -> SpecResult<OperandView> {
    match spec_literal(s) {
        Ok((rest, l)) => Ok((rest, OperandView::Literal(l))),
        Err(_) => match spec_operand_name(s) {
            Ok((rest, name)) => Ok((rest, OperandView::OperandName(name))),
            Err(e) => Err(e),
        },
    }
}

/// Wherever a qualified identifier can be read, the name of an operand is
/// that qualified identifier: the plain form never takes the name of the
/// package and leaves the dot behind.
pub proof fn lemma_operand_name_prefers_qualified(s: Seq<char>)
    requires
        spec_qualified_ident(s) is Ok,
    ensures
        spec_operand_name(s) matches Ok((rest, name)) && rest == spec_qualified_ident(s)->Ok_0.0
            && name == OperandNameView::QualifiedIdent(spec_qualified_ident(s)->Ok_0.1),
{
}

/// A successful operand consumed a prefix of the input that is not empty,
/// and so did a successful name of an operand. No operand that is parsed is
/// an expression in parentheses.
pub proof fn lemma_operand(s: Seq<char>)
    ensures
        makes_progress(spec_operand_name(s), s),
        makes_progress(spec_operand(s), s),
        spec_operand(s) matches Ok((_, o)) ==> !(o is Parenthesized),
{
    lemma_qualified_ident(s);
    lemma_identifier(s);
    lemma_literal(s);
}

impl<'a> ASTable<'a> for OperandName<'a> {
    open spec fn spec_parse(s: Seq<char>) -> SpecResult<OperandNameView> {
        spec_operand_name(s)
    }

    /// Parses the name of an operand. The qualified form is tried first;
    /// where it does not match, the name is a plain identifier, and where
    /// that does not match either, the failure is that of the identifier.
    fn parse(s: &'a str) -> (r: ParseResult<'a, Self>) {
        match QualifiedIdent::parse(s) {
            Ok((rest, q)) => Ok((rest, OperandName::QualifiedIdent(q))),
            Err(_) => match identifier(s) {
                Ok((rest, name)) => Ok((rest, OperandName::Identifier(name))),
                Err(e) => Err(e),
            },
        }
    }
}

impl<'a> ASTable<'a> for Operand<'a> {
    open spec fn spec_parse(s: Seq<char>) -> SpecResult<OperandView> {
        spec_operand(s)
    }

    /// Parses an operand. A literal is tried first, then the name of an
    /// operand; where neither matches, the failure is that of the name. An
    /// expression in parentheses is not read yet.
    fn parse(s: &'a str) -> (r: ParseResult<'a, Self>) {
        match Literal::parse(s) {
            Ok((rest, l)) => Ok((rest, Operand::Literal(l))),
            Err(_) => match OperandName::parse(s) {
                Ok((rest, name)) => Ok((rest, Operand::OperandName(name))),
                Err(e) => Err(e),
            },
        }
    }
}

} // verus!
