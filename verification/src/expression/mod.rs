//! Operators and expressions.
use vstd::prelude::*;
use crate::astable::ASTable;
use crate::error::{
    ErrorKind, ParseResult, SpecResult, fail, leaves_suffix, makes_progress, result_view,
};
use crate::expression::operand::{Operand, OperandView, lemma_operand, spec_operand};
use crate::parse_util::{lemma_suffix_trans, lemma_symbol, spec_symbol, symbol};

pub mod operand;
pub mod precedence;

verus! {

/// An expression: a unary expression, or two expressions joined by a binary
/// operator.
#[derive(Debug, PartialEq)]
pub enum Expression<'a> {
    UnaryExpr(UnaryExpr<'a>),
    BinExpr { left: Box<Expression<'a>>, op: &'a str, right: Box<Expression<'a>> },
}

/// A unary operator and the unary expression it applies to.
#[derive(Debug, PartialEq)]
pub struct Unary<'a> {
    pub op: &'a str,
    pub expr: Box<UnaryExpr<'a>>,
}

/// A unary expression: a primary expression, or a unary operator applied to
/// a unary expression.
#[derive(Debug, PartialEq)]
pub enum UnaryExpr<'a> {
    PrimaryExpr(PrimaryExpr<'a>),
    Unary(Unary<'a>),
}

/// A primary expression. Only the operand is read yet.
#[derive(Debug, PartialEq)]
pub enum PrimaryExpr<'a> {
    Operand(Operand<'a>),
}

/// The mathematical value of an [`Expression`].
pub ghost enum ExpressionView {
    UnaryExpr(UnaryExprView),
    BinExpr { left: Box<ExpressionView>, op: Seq<char>, right: Box<ExpressionView> },
}

/// The mathematical value of a [`Unary`].
pub ghost struct UnaryView {
    pub op: Seq<char>,
    pub expr: Box<UnaryExprView>,
}

/// The mathematical value of a [`UnaryExpr`].
pub ghost enum UnaryExprView {
    PrimaryExpr(PrimaryExprView),
    Unary(UnaryView),
}

/// The mathematical value of a [`PrimaryExpr`].
pub ghost enum PrimaryExprView {
    Operand(OperandView),
}

/// The value of an expression.
pub open spec fn expression_view(e: Expression) -> ExpressionView
    decreases e,
{
    match e {
        Expression::UnaryExpr(u) => ExpressionView::UnaryExpr(unary_expr_view(u)),
        Expression::BinExpr { left, op, right } => ExpressionView::BinExpr {
            left: Box::new(expression_view(*left)),
            op: op@,
            right: Box::new(expression_view(*right)),
        },
    }
}

/// The value of a unary expression.
pub open spec fn unary_expr_view(e: UnaryExpr) -> UnaryExprView
    decreases e,
{
    match e {
        UnaryExpr::PrimaryExpr(p) => UnaryExprView::PrimaryExpr(primary_expr_view(p)),
        UnaryExpr::Unary(u) => UnaryExprView::Unary(unary_view(u)),
    }
}

/// The value of an operator with its operand.
pub open spec fn unary_view(u: Unary) -> UnaryView
    decreases u,
{
    UnaryView { op: u.op@, expr: Box::new(unary_expr_view(*u.expr)) }
}

/// The value of a primary expression.
pub open spec fn primary_expr_view(p: PrimaryExpr) -> PrimaryExprView
    decreases p,
{
    match p {
        PrimaryExpr::Operand(o) => PrimaryExprView::Operand(operand_view(o)),
    }
}

/// The value of an operand.
pub open spec fn operand_view(o: Operand) -> OperandView
    decreases o,
{
    match o {
        Operand::Literal(l) => OperandView::Literal(l.deep_view()),
        Operand::OperandName(name) => OperandView::OperandName(name.deep_view()),
        Operand::Parenthesized(e) => OperandView::Parenthesized(Box::new(expression_view(*e))),
    }
}

impl<'a> DeepView for Expression<'a> {
    type V = ExpressionView;

    open spec fn deep_view(&self) -> ExpressionView {
        expression_view(*self)
    }
}

impl<'a> DeepView for Unary<'a> {
    type V = UnaryView;

    open spec fn deep_view(&self) -> UnaryView {
        unary_view(*self)
    }
}

impl<'a> DeepView for UnaryExpr<'a> {
    type V = UnaryExprView;

    open spec fn deep_view(&self) -> UnaryExprView {
        unary_expr_view(*self)
    }
}

impl<'a> DeepView for PrimaryExpr<'a> {
    type V = PrimaryExprView;

    open spec fn deep_view(&self) -> PrimaryExprView {
        primary_expr_view(*self)
    }
}

/// The index of the first entry of `table`, from the index `from` on, that
/// starts `s`, and the length of `table` where no such entry starts `s`.
pub open spec fn first_match(table: Seq<Seq<char>>, from: int, s: Seq<char>) -> int
    decreases table.len() - from,
{
    if from < 0 || from >= table.len() {
        table.len() as int
    } else if table[from].is_prefix_of(s) {
        from
    } else {
        first_match(table, from + 1, s)
    }
}

/// The first entry of `table` that starts `s`, read as a symbol: the entry,
/// and behind it `s` without the entry and without the spaces that follow
/// it. Where no entry starts `s`, the failure is located at `s`.
pub open spec fn first_symbol(table: Seq<Seq<char>>, s: Seq<char>) -> SpecResult<Seq<char>> {
    let at = first_match(table, 0, s);
    if at < table.len() {
        spec_symbol(table[at], s)
    } else {
        fail(s, ErrorKind::Tag)
    }
}

/// The operator of the lowest precedence, in the order of trial.
pub open spec fn or_ops() -> Seq<Seq<char>> {
    seq![seq!['|', '|']]
}

/// The operator of the second precedence, in the order of trial.
pub open spec fn and_ops() -> Seq<Seq<char>> {
    seq![seq!['&', '&']]
}

/// The relational operators, in the order of trial.
pub open spec fn rel_ops() -> Seq<Seq<char>> {
    seq![seq!['=', '='], seq!['!', '='], seq!['<', '='], seq!['>', '='], seq!['<'], seq!['>']]
}

/// The additive operators, in the order of trial.
pub open spec fn add_ops() -> Seq<Seq<char>> {
    seq![seq!['+'], seq!['-'], seq!['|'], seq!['^']]
}

/// The multiplicative operators, in the order of trial.
pub open spec fn mul_ops() -> Seq<Seq<char>> {
    seq![
        seq!['*'],
        seq!['/'],
        seq!['%'],
        seq!['<', '<'],
        seq!['>', '>'],
        seq!['&', '^'],
        seq!['&'],
    ]
}

/// The unary operators, in the order of trial.
pub open spec fn unary_ops() -> Seq<Seq<char>> {
    seq![seq!['+'], seq!['-'], seq!['!'], seq!['^'], seq!['*'], seq!['&'], seq!['<', '-']]
}

/// The operator `||` and the spaces behind it.
pub open spec fn spec_or_op(s: Seq<char>) -> SpecResult<Seq<char>> {
    first_symbol(or_ops(), s)
}

/// The operator `&&` and the spaces behind it.
pub open spec fn spec_and_op(s: Seq<char>) -> SpecResult<Seq<char>> {
    first_symbol(and_ops(), s)
}

/// A relational operator and the spaces behind it.
pub open spec fn spec_rel_op(s: Seq<char>) -> SpecResult<Seq<char>> {
    first_symbol(rel_ops(), s)
}

/// An additive operator and the spaces behind it.
pub open spec fn spec_add_op(s: Seq<char>) -> SpecResult<Seq<char>> {
    first_symbol(add_ops(), s)
}

/// A multiplicative operator and the spaces behind it.
pub open spec fn spec_mul_op(s: Seq<char>) -> SpecResult<Seq<char>> {
    first_symbol(mul_ops(), s)
}

/// A unary operator and the spaces behind it.
pub open spec fn spec_unary_op(s: Seq<char>) -> SpecResult<Seq<char>> {
    first_symbol(unary_ops(), s)
}

/// Parses the operator `||`. The spaces behind it are consumed.
pub fn or_op<'a>(s: &'a str) -> (r: ParseResult<'a, &'a str>)
    ensures
        result_view(r) == spec_or_op(s@),
        leaves_suffix(result_view(r), s@),
{
    proof {
        reveal_with_fuel(first_match, 2);
        reveal_strlit("||");
        assert("||"@ =~= seq!['|', '|']);
    }
    symbol("||", s)
}

/// Parses the operator `&&`. The spaces behind it are consumed.
pub fn and_op<'a>(s: &'a str) -> (r: ParseResult<'a, &'a str>)
    ensures
        result_view(r) == spec_and_op(s@),
        leaves_suffix(result_view(r), s@),
{
    proof {
        reveal_with_fuel(first_match, 2);
        reveal_strlit("&&");
        assert("&&"@ =~= seq!['&', '&']);
    }
    symbol("&&", s)
}

/// Parses a relational operator: one of `==`, `!=`, `<=`, `>=`, `<` and
/// `>`, tried in this order, so that `<=` is never read as `<`. The spaces
/// behind it are consumed.
pub fn rel_op<'a>(s: &'a str) -> (r: ParseResult<'a, &'a str>)
    ensures
        result_view(r) == spec_rel_op(s@),
        leaves_suffix(result_view(r), s@),
{
    proof {
        reveal_with_fuel(first_match, 7);
        reveal_strlit("==");
        reveal_strlit("!=");
        reveal_strlit("<=");
        reveal_strlit(">=");
        reveal_strlit("<");
        reveal_strlit(">");
        assert("=="@ =~= seq!['=', '=']);
        assert("!="@ =~= seq!['!', '=']);
        assert("<="@ =~= seq!['<', '=']);
        assert(">="@ =~= seq!['>', '=']);
        assert("<"@ =~= seq!['<']);
        assert(">"@ =~= seq!['>']);
    }
    if let Ok(found) = symbol("==", s) {
        return Ok(found);
    }
    if let Ok(found) = symbol("!=", s) {
        return Ok(found);
    }
    if let Ok(found) = symbol("<=", s) {
        return Ok(found);
    }
    if let Ok(found) = symbol(">=", s) {
        return Ok(found);
    }
    if let Ok(found) = symbol("<", s) {
        return Ok(found);
    }
    symbol(">", s)
}

/// Parses an additive operator: one of `+`, `-`, `|` and `^`. The spaces
/// behind it are consumed.
pub fn add_op<'a>(s: &'a str) -> (r: ParseResult<'a, &'a str>)
    ensures
        result_view(r) == spec_add_op(s@),
        leaves_suffix(result_view(r), s@),
{
    proof {
        reveal_with_fuel(first_match, 5);
        reveal_strlit("+");
        reveal_strlit("-");
        reveal_strlit("|");
        reveal_strlit("^");
        assert("+"@ =~= seq!['+']);
        assert("-"@ =~= seq!['-']);
        assert("|"@ =~= seq!['|']);
        assert("^"@ =~= seq!['^']);
    }
    if let Ok(found) = symbol("+", s) {
        return Ok(found);
    }
    if let Ok(found) = symbol("-", s) {
        return Ok(found);
    }
    if let Ok(found) = symbol("|", s) {
        return Ok(found);
    }
    symbol("^", s)
}

/// Parses a multiplicative operator: one of `*`, `/`, `%`, `<<`, `>>`, `&^`
/// and `&`, tried in this order, so that `&^` is never read as `&`. The
/// spaces behind it are consumed.
pub fn mul_op<'a>(s: &'a str) -> (r: ParseResult<'a, &'a str>)
    ensures
        result_view(r) == spec_mul_op(s@),
        leaves_suffix(result_view(r), s@),
{
    proof {
        reveal_with_fuel(first_match, 8);
        reveal_strlit("*");
        reveal_strlit("/");
        reveal_strlit("%");
        reveal_strlit("<<");
        reveal_strlit(">>");
        reveal_strlit("&^");
        reveal_strlit("&");
        assert("*"@ =~= seq!['*']);
        assert("/"@ =~= seq!['/']);
        assert("%"@ =~= seq!['%']);
        assert("<<"@ =~= seq!['<', '<']);
        assert(">>"@ =~= seq!['>', '>']);
        assert("&^"@ =~= seq!['&', '^']);
        assert("&"@ =~= seq!['&']);
    }
    if let Ok(found) = symbol("*", s) {
        return Ok(found);
    }
    if let Ok(found) = symbol("/", s) {
        return Ok(found);
    }
    if let Ok(found) = symbol("%", s) {
        return Ok(found);
    }
    if let Ok(found) = symbol("<<", s) {
        return Ok(found);
    }
    if let Ok(found) = symbol(">>", s) {
        return Ok(found);
    }
    if let Ok(found) = symbol("&^", s) {
        return Ok(found);
    }
    symbol("&", s)
}

/// Parses a unary operator: one of `+`, `-`, `!`, `^`, `*`, `&` and `<-`.
/// The spaces behind it are consumed.
pub fn unary_op<'a>(s: &'a str) -> (r: ParseResult<'a, &'a str>)
    ensures
        result_view(r) == spec_unary_op(s@),
        leaves_suffix(result_view(r), s@),
{
    proof {
        reveal_with_fuel(first_match, 8);
        reveal_strlit("+");
        reveal_strlit("-");
        reveal_strlit("!");
        reveal_strlit("^");
        reveal_strlit("*");
        reveal_strlit("&");
        reveal_strlit("<-");
        assert("+"@ =~= seq!['+']);
        assert("-"@ =~= seq!['-']);
        assert("!"@ =~= seq!['!']);
        assert("^"@ =~= seq!['^']);
        assert("*"@ =~= seq!['*']);
        assert("&"@ =~= seq!['&']);
        assert("<-"@ =~= seq!['<', '-']);
    }
    if let Ok(found) = symbol("+", s) {
        return Ok(found);
    }
    if let Ok(found) = symbol("-", s) {
        return Ok(found);
    }
    if let Ok(found) = symbol("!", s) {
        return Ok(found);
    }
    if let Ok(found) = symbol("^", s) {
        return Ok(found);
    }
    if let Ok(found) = symbol("*", s) {
        return Ok(found);
    }
    if let Ok(found) = symbol("&", s) {
        return Ok(found);
    }
    symbol("<-", s)
}

/// Whether `table` tries the longer of two operators first wherever one is
/// the start of the other: no entry is the start of a later entry.
pub open spec fn longest_first(table: Seq<Seq<char>>) -> bool {
    forall|i: int, j: int|
        0 <= i < j < table.len() ==> !(#[trigger] table[i]).is_prefix_of(#[trigger] table[j])
}

/// Whether `op` is the longest entry of `table` that starts `s`.
pub open spec fn is_longest_match(table: Seq<Seq<char>>, s: Seq<char>, op: Seq<char>) -> bool {
    &&& table.contains(op)
    &&& op.is_prefix_of(s)
    &&& forall|k: int|
        0 <= k < table.len() && (#[trigger] table[k]).is_prefix_of(s) ==> table[k].len()
            <= op.len()
}

/// The first entry that starts `s` is an entry that starts `s`, and none in
/// front of it does.
pub proof fn lemma_first_match(table: Seq<Seq<char>>, from: int, s: Seq<char>)
    requires
        0 <= from <= table.len(),
    ensures
        from <= first_match(table, from, s) <= table.len(),
        first_match(table, from, s) < table.len() ==> table[first_match(
            table,
            from,
            s,
        )].is_prefix_of(s),
        forall|i: int|
            from <= i < first_match(table, from, s) ==> !(#[trigger] table[i]).is_prefix_of(s),
    decreases table.len() - from,
{
    if from < table.len() && !table[from].is_prefix_of(s) {
        lemma_first_match(table, from + 1, s);
    }
}

/// A successful alternation over a table leaves a suffix of the input, which
/// is strictly shorter where no entry of the table is empty.
pub proof fn lemma_first_symbol(table: Seq<Seq<char>>, s: Seq<char>)
    ensures
        leaves_suffix(first_symbol(table, s), s),
        (forall|i: int| 0 <= i < table.len() ==> (#[trigger] table[i]).len() > 0)
            ==> makes_progress(first_symbol(table, s), s),
{
    lemma_first_match(table, 0, s);
    let at = first_match(table, 0, s);
    if at < table.len() {
        lemma_symbol(table[at], s);
    }
}

/// Over a table that tries longer operators first, the alternation yields
/// the longest operator of the table that starts the input, and fails only
/// where none does: an operator is never cut short to one that starts it.
pub proof fn lemma_first_symbol_is_longest_match(table: Seq<Seq<char>>, s: Seq<char>)
    requires
        longest_first(table),
    ensures
        match first_symbol(table, s) {
            Ok((rest, op)) => is_longest_match(table, s, op),
            Err(_) => forall|k: int| 0 <= k < table.len() ==> !(#[trigger] table[k]).is_prefix_of(s),
        },
{
    lemma_first_match(table, 0, s);
    let at = first_match(table, 0, s);
    if at < table.len() {
        let op = table[at];
        assert(table.contains(op));
        assert forall|k: int|
            0 <= k < table.len() && (#[trigger] table[k]).is_prefix_of(s) implies table[k].len()
            <= op.len() by {
            if k > at && table[k].len() > op.len() {
                assert(op =~= table[k].subrange(0, op.len() as int));
                assert(table[at].is_prefix_of(table[k]));
            }
        }
    }
}

/// Each table of operators tries longer operators first.
pub proof fn lemma_operator_tables_are_longest_first()
    ensures
        longest_first(or_ops()),
        longest_first(and_ops()),
        longest_first(rel_ops()),
        longest_first(add_ops()),
        longest_first(mul_ops()),
        longest_first(unary_ops()),
{
    assert(longest_first(rel_ops())) by {
        let t = rel_ops();
        assert forall|i: int, j: int| 0 <= i < j < t.len() implies !(#[trigger] t[i]).is_prefix_of(
            #[trigger] t[j],
        ) by {
            if t[i].is_prefix_of(t[j]) {
                assert(t[i][0] == t[j].subrange(0, t[i].len() as int)[0]);
                if t[i].len() > 1 {
                    assert(t[i][1] == t[j].subrange(0, t[i].len() as int)[1]);
                }
            }
        }
    }
    assert(longest_first(add_ops())) by {
        let t = add_ops();
        assert forall|i: int, j: int| 0 <= i < j < t.len() implies !(#[trigger] t[i]).is_prefix_of(
            #[trigger] t[j],
        ) by {
            if t[i].is_prefix_of(t[j]) {
                assert(t[i][0] == t[j].subrange(0, t[i].len() as int)[0]);
            }
        }
    }
    assert(longest_first(mul_ops())) by {
        let t = mul_ops();
        assert forall|i: int, j: int| 0 <= i < j < t.len() implies !(#[trigger] t[i]).is_prefix_of(
            #[trigger] t[j],
        ) by {
            if t[i].is_prefix_of(t[j]) {
                assert(t[i][0] == t[j].subrange(0, t[i].len() as int)[0]);
                if t[i].len() > 1 {
                    assert(t[i][1] == t[j].subrange(0, t[i].len() as int)[1]);
                }
            }
        }
    }
    assert(longest_first(unary_ops())) by {
        let t = unary_ops();
        assert forall|i: int, j: int| 0 <= i < j < t.len() implies !(#[trigger] t[i]).is_prefix_of(
            #[trigger] t[j],
        ) by {
            if t[i].is_prefix_of(t[j]) {
                assert(t[i][0] == t[j].subrange(0, t[i].len() as int)[0]);
            }
        }
    }
}

/// Each parser of operators yields the longest operator of its table that
/// starts the input: `<=` is never read as `<`, nor `&^` as `&`.
pub proof fn lemma_operators_are_longest_match(s: Seq<char>)
    ensures
        spec_or_op(s) matches Ok((_, op)) ==> is_longest_match(or_ops(), s, op),
        spec_and_op(s) matches Ok((_, op)) ==> is_longest_match(and_ops(), s, op),
        spec_rel_op(s) matches Ok((_, op)) ==> is_longest_match(rel_ops(), s, op),
        spec_add_op(s) matches Ok((_, op)) ==> is_longest_match(add_ops(), s, op),
        spec_mul_op(s) matches Ok((_, op)) ==> is_longest_match(mul_ops(), s, op),
        spec_unary_op(s) matches Ok((_, op)) ==> is_longest_match(unary_ops(), s, op),
{
    lemma_operator_tables_are_longest_first();
    lemma_first_symbol_is_longest_match(or_ops(), s);
    lemma_first_symbol_is_longest_match(and_ops(), s);
    lemma_first_symbol_is_longest_match(rel_ops(), s);
    lemma_first_symbol_is_longest_match(add_ops(), s);
    lemma_first_symbol_is_longest_match(mul_ops(), s);
    lemma_first_symbol_is_longest_match(unary_ops(), s);
}

/// A successful unary operator leaves a strictly shorter suffix of the
/// input.
pub proof fn lemma_unary_op(s: Seq<char>)
    ensures
        leaves_suffix(spec_unary_op(s), s),
        spec_unary_op(s) matches Ok((rest, _)) ==> rest.len() < s.len(),
{
    lemma_first_symbol(unary_ops(), s);
}

/// A primary expression: an operand.
pub open spec fn spec_primary_expr(s: Seq<char>) -> SpecResult<PrimaryExprView> {
    match spec_operand(s) {
        Ok((rest, o)) => Ok((rest, PrimaryExprView::Operand(o))),
        Err(e) => Err(e),
    }
}

/// A unary operator and the unary expression that it applies to.
pub open spec fn spec_unary(s: Seq<char>) -> SpecResult<UnaryView>
    decreases s.len(), 0int,
{
    match spec_unary_op(s) {
        Err(e) => Err(e),
        Ok((after_op, op)) => {
            proof {
                lemma_unary_op(s);
            }
            match spec_unary_expr(after_op) {
                Err(e) => Err(e),
                Ok((rest, expr)) => Ok((rest, UnaryView { op, expr: Box::new(expr) })),
            }
        },
    }
}

/// A unary expression: an operator with its operand, or else a primary
/// expression.
pub open spec fn spec_unary_expr(s: Seq<char>) -> SpecResult<UnaryExprView>
    decreases s.len(), 1int,
{
    match spec_unary(s) {
        Ok((rest, u)) => Ok((rest, UnaryExprView::Unary(u))),
        Err(_) => match spec_primary_expr(s) {
            Ok((rest, p)) => Ok((rest, UnaryExprView::PrimaryExpr(p))),
            Err(e) => Err(e),
        },
    }
}

/// Parses a unary operator and the unary expression behind it.
fn unary<'a>(s: &'a str) -> (r: ParseResult<'a, Unary<'a>>)
    ensures
        result_view(r) == spec_unary(s@),
        leaves_suffix(result_view(r), s@),
    decreases s@.len(), 0int,
{
    proof {
        lemma_unary_op(s@);
    }
    let (after_op, op) = match unary_op(s) {
        Ok(parsed) => parsed,
        Err(e) => { return Err(e); },
    };
    match unary_expr(after_op) {
        Ok((rest, expr)) => {
            proof {
                lemma_suffix_trans(rest@, after_op@, s@);
            }
            Ok((rest, Unary { op, expr: Box::new(expr) }))
        },
        Err(e) => Err(e),
    }
}

/// Parses a unary expression.
fn unary_expr<'a>(s: &'a str) -> (r: ParseResult<'a, UnaryExpr<'a>>)
    ensures
        result_view(r) == spec_unary_expr(s@),
        leaves_suffix(result_view(r), s@),
    decreases s@.len(), 1int,
{
    match unary(s) {
        Ok((rest, u)) => Ok((rest, UnaryExpr::Unary(u))),
        Err(_) => match PrimaryExpr::parse(s) {
            Ok((rest, p)) => Ok((rest, UnaryExpr::PrimaryExpr(p))),
            Err(e) => Err(e),
        },
    }
}

impl<'a> ASTable<'a> for PrimaryExpr<'a> {
    open spec fn spec_parse(s: Seq<char>) -> SpecResult<PrimaryExprView> {
        spec_primary_expr(s)
    }

    /// Parses a primary expression: an operand.
    fn parse(s: &'a str) -> (r: ParseResult<'a, Self>) {
        match Operand::parse(s) {
            Ok((rest, o)) => Ok((rest, PrimaryExpr::Operand(o))),
            Err(e) => Err(e),
        }
    }
}

impl<'a> ASTable<'a> for Unary<'a> {
    open spec fn spec_parse(s: Seq<char>) -> SpecResult<UnaryView> {
        spec_unary(s)
    }

    /// Parses a unary operator and the unary expression that it applies to.
    /// Operators nest to the right: `-!x` is `-` applied to `!x`.
    fn parse(s: &'a str) -> (r: ParseResult<'a, Self>) {
        unary(s)
    }
}

impl<'a> ASTable<'a> for UnaryExpr<'a> {
    open spec fn spec_parse(s: Seq<char>) -> SpecResult<UnaryExprView> {
        spec_unary_expr(s)
    }

    /// Parses a unary expression. An operator with its operand is tried
    /// first, then a primary expression; where neither matches, the failure
    /// is that of the primary expression.
    fn parse(s: &'a str) -> (r: ParseResult<'a, Self>) {
        unary_expr(s)
    }
}

/// A successful unary expression consumed a prefix of the input that is
/// not empty, and so did a successful operator with its operand.
pub proof fn lemma_unary_expr(s: Seq<char>)
    ensures
        makes_progress(spec_unary(s), s),
        makes_progress(spec_unary_expr(s), s),
    decreases s.len(),
{
    lemma_unary_op(s);
    lemma_operand(s);
    if let Ok((after_op, _)) = spec_unary_op(s) {
        lemma_unary_expr(after_op);
    }
}

/// A binary operator with its precedence: `||` has the precedence 1, `&&`
/// the precedence 2, the relational operators 3, the additive operators 4,
/// and the multiplicative operators 5. The families are tried so that an
/// operator is never cut short to one of another family that starts it:
/// `||` and `&&` first, then the multiplicative, the relational and the
/// additive operators.
pub open spec fn spec_binary_op(s: Seq<char>) -> SpecResult<(Seq<char>, u8)> {
    if let Ok((rest, op)) = spec_or_op(s) {
        Ok((rest, (op, 1u8)))
    } else if let Ok((rest, op)) = spec_and_op(s) {
        Ok((rest, (op, 2u8)))
    } else if let Ok((rest, op)) = spec_mul_op(s) {
        Ok((rest, (op, 5u8)))
    } else if let Ok((rest, op)) = spec_rel_op(s) {
        Ok((rest, (op, 3u8)))
    } else {
        match spec_add_op(s) {
            Ok((rest, op)) => Ok((rest, (op, 4u8))),
            Err(e) => Err(e),
        }
    }
}

/// A successful binary operator consumed a prefix of the input that is not
/// empty, and its precedence is one of 1 to 5.
pub proof fn lemma_binary_op(s: Seq<char>)
    ensures
        makes_progress(spec_binary_op(s), s),
        spec_binary_op(s) matches Ok((_, (_, precedence))) ==> 1 <= precedence <= 5,
{
    lemma_first_symbol(or_ops(), s);
    lemma_first_symbol(and_ops(), s);
    lemma_first_symbol(mul_ops(), s);
    lemma_first_symbol(rel_ops(), s);
    lemma_first_symbol(add_ops(), s);
}

/// Parses a binary operator and hands it back with its precedence, from 1
/// for `||` to 5 for the multiplicative operators. The spaces behind the
/// operator are consumed.
pub fn binary_op<'a>(s: &'a str) -> (r: ParseResult<'a, (&'a str, u8)>)
    ensures
        result_view(r) == spec_binary_op(s@),
        leaves_suffix(result_view(r), s@),
{
    if let Ok((rest, op)) = or_op(s) {
        return Ok((rest, (op, 1)));
    }
    if let Ok((rest, op)) = and_op(s) {
        return Ok((rest, (op, 2)));
    }
    if let Ok((rest, op)) = mul_op(s) {
        return Ok((rest, (op, 5)));
    }
    if let Ok((rest, op)) = rel_op(s) {
        return Ok((rest, (op, 3)));
    }
    match add_op(s) {
        Ok((rest, op)) => Ok((rest, (op, 4))),
        Err(e) => Err(e),
    }
}

/// An expression in which every binary operator outside an operand of a
/// tighter operator has at least the precedence `min`: a unary expression,
/// and the operations that follow it.
pub open spec fn spec_expression_from(s: Seq<char>, min: nat) -> SpecResult<ExpressionView>
    decreases s.len(), 1int,
{
    match spec_unary_expr(s) {
        Err(e) => Err(e),
        Ok((rest, first)) => {
            proof {
                lemma_unary_expr(s);
            }
            Ok(spec_operations(ExpressionView::UnaryExpr(first), rest, min))
        },
    }
}

/// The operations that follow the expression `left`: as long as a binary
/// operator of at least the precedence `min` follows, and behind it an
/// expression whose own operators bind tighter than that operator, the two
/// expressions are joined, and the result stands for `left`. So operators of
/// one precedence associate to the left. An operator that no such
/// expression follows is not consumed.
///
/// The comparison of lengths always holds, see
/// [`lemma_expression_from`]; it is there to show that the definition
/// terminates.
pub open spec fn spec_operations(left: ExpressionView, s: Seq<char>, min: nat) -> (
    Seq<char>,
    ExpressionView,
)
    decreases s.len(), 0int,
{
    match spec_binary_op(s) {
        Err(_) => (s, left),
        Ok((after_op, (op, precedence))) => {
            if precedence < min {
                (s, left)
            } else {
                proof {
                    lemma_binary_op(s);
                }
                match spec_expression_from(after_op, precedence as nat + 1) {
                    Err(_) => (s, left),
                    Ok((rest, right)) => {
                        if rest.len() <= after_op.len() {
                            spec_operations(
                                ExpressionView::BinExpr {
                                    left: Box::new(left),
                                    op,
                                    right: Box::new(right),
                                },
                                rest,
                                min,
                            )
                        } else {
                            (s, left)
                        }
                    },
                }
            }
        },
    }
}

/// A successful expression consumed a prefix of the input that is not
/// empty.
pub proof fn lemma_expression_from(s: Seq<char>, min: nat)
    ensures
        makes_progress(spec_expression_from(s, min), s),
    decreases s.len(), 1int,
{
    lemma_unary_expr(s);
    if let Ok((rest, first)) = spec_unary_expr(s) {
        let start = ExpressionView::UnaryExpr(first);
        lemma_operations(start, rest, min);
        lemma_suffix_trans(spec_operations(start, rest, min).0, rest, s);
    }
}

/// The operations behind an expression leave a suffix of the input.
pub proof fn lemma_operations(left: ExpressionView, s: Seq<char>, min: nat)
    ensures
        spec_operations(left, s, min).0.is_suffix_of(s),
    decreases s.len(), 0int,
{
    lemma_binary_op(s);
    if let Ok((after_op, (op, precedence))) = spec_binary_op(s) {
        if precedence >= min {
            lemma_expression_from(after_op, precedence as nat + 1);
            if let Ok((rest, right)) = spec_expression_from(after_op, precedence as nat + 1) {
                let joined = ExpressionView::BinExpr {
                    left: Box::new(left),
                    op,
                    right: Box::new(right),
                };
                lemma_operations(joined, rest, min);
                assert(spec_operations(left, s, min) == spec_operations(joined, rest, min));
                lemma_suffix_trans(rest, after_op, s);
                lemma_suffix_trans(spec_operations(joined, rest, min).0, rest, s);
            }
        }
    }
}

/// Parses an expression whose operators outside the operands of tighter
/// operators have at least the precedence `min`.
fn expression_from<'a>(s: &'a str, min: u8) -> (r: ParseResult<'a, Expression<'a>>)
    ensures
        result_view(r) == spec_expression_from(s@, min as nat),
        leaves_suffix(result_view(r), s@),
    decreases s@.len(),
{
    proof {
        lemma_unary_expr(s@);
    }
    let (after_first, first) = match unary_expr(s) {
        Ok(parsed) => parsed,
        Err(e) => { return Err(e); },
    };
    let ghost first_view = ExpressionView::UnaryExpr(first.deep_view());
    let mut left = Expression::UnaryExpr(first);
    let mut rest = after_first;
    loop
        invariant
            rest@.is_suffix_of(s@),
            rest@.len() < s@.len(),
            spec_operations(left.deep_view(), rest@, min as nat) == spec_operations(
                first_view,
                after_first@,
                min as nat,
            ),
        ensures
            spec_operations(left.deep_view(), rest@, min as nat) == (rest@, left.deep_view()),
        decreases rest@.len(),
    {
        proof {
            lemma_binary_op(rest@);
        }
        let (after_op, op, precedence) = match binary_op(rest) {
            Ok((after_op, (op, precedence))) => (after_op, op, precedence),
            Err(_) => { break ; },
        };
        if precedence < min {
            break ;
        }
        let (next, right) = match expression_from(after_op, precedence + 1) {
            Ok(parsed) => parsed,
            Err(_) => { break ; },
        };
        proof {
            lemma_suffix_trans(after_op@, rest@, s@);
            lemma_suffix_trans(next@, after_op@, s@);
        }
        left = Expression::BinExpr { left: Box::new(left), op, right: Box::new(right) };
        rest = next;
    }
    Ok((rest, left))
}

impl<'a> ASTable<'a> for Expression<'a> {
    open spec fn spec_parse(s: Seq<char>) -> SpecResult<ExpressionView> {
        spec_expression_from(s, 1)
    }

    /// Parses an expression: unary expressions joined by binary operators.
    ///
    /// An operator of a higher precedence binds tighter, and operators of
    /// one precedence associate to the left: `a + b * c - d` is read as
    /// `(a + (b * c)) - d`. An operator at the end that no operand follows
    /// is not consumed.
    fn parse(s: &'a str) -> (r: ParseResult<'a, Self>) {
        expression_from(s, 1)
    }
}

} // verus!
