//! The shape of parsed expressions: precedence and associativity.
use vstd::prelude::*;
use crate::expression::{
    ExpressionView, add_ops, and_ops, lemma_binary_op, lemma_expression_from,
    lemma_first_match, lemma_unary_expr, mul_ops, or_ops, rel_ops, spec_binary_op,
    spec_expression_from, spec_operations, spec_unary_expr,
};

verus! {

/// The precedence of the binary operator `op`, from 1 for `||` to 5 for the
/// multiplicative operators, and 0 for a text that is no binary operator.
pub open spec fn precedence(op: Seq<char>) -> nat {
    if or_ops().contains(op) {
        1
    } else if and_ops().contains(op) {
        2
    } else if rel_ops().contains(op) {
        3
    } else if add_ops().contains(op) {
        4
    } else if mul_ops().contains(op) {
        5
    } else {
        0
    }
}

/// Whether `e` can stand as an operand of an operator of the precedence
/// `min` without parentheses: it is a unary expression, or its operator has
/// at least that precedence.
pub open spec fn binds_at_least(e: ExpressionView, min: nat) -> bool {
    match e {
        ExpressionView::UnaryExpr(_) => true,
        ExpressionView::BinExpr { op, .. } => precedence(op) >= min,
    }
}

/// Whether the shape of `e` is the one that precedence and associativity to
/// the left give: in every binary expression the operator is one of the
/// binary operators, the operator of its left operand binds at least as
/// tight, and the operator of its right operand binds tighter.
pub open spec fn respects_precedence(e: ExpressionView) -> bool
    decreases e,
{
    match e {
        ExpressionView::UnaryExpr(_) => true,
        ExpressionView::BinExpr { left, op, right } => {
            &&& 1 <= precedence(op) <= 5
            &&& respects_precedence(*left)
            &&& respects_precedence(*right)
            &&& binds_at_least(*left, precedence(op))
            &&& binds_at_least(*right, precedence(op) + 1)
        },
    }
}

/// The precedence of the operation that can be read at the start of `s`: a
/// binary operator with an operand behind it. It is 0 where there is none.
pub open spec fn next_precedence(s: Seq<char>) -> nat {
    match spec_binary_op(s) {
        Ok((after_op, (_, p))) => if spec_expression_from(after_op, p as nat + 1) is Ok {
            p as nat
        } else {
            0
        },
        Err(_) => 0,
    }
}

/// The entries of the five tables of binary operators differ from table to
/// table.
proof fn lemma_tables_are_disjoint(op: Seq<char>)
    ensures
        or_ops().contains(op) ==> precedence(op) == 1,
        and_ops().contains(op) ==> precedence(op) == 2,
        rel_ops().contains(op) ==> precedence(op) == 3,
        add_ops().contains(op) ==> precedence(op) == 4,
        mul_ops().contains(op) ==> precedence(op) == 5,
{
    assert forall|i: int| 0 <= i < or_ops().len() && or_ops()[i] == op implies op.len() == 2
        && op[0] == '|' && op[1] == '|' by {}
    assert forall|i: int| 0 <= i < and_ops().len() && and_ops()[i] == op implies op.len() == 2
        && op[0] == '&' && op[1] == '&' by {}
    assert forall|i: int| 0 <= i < rel_ops().len() && rel_ops()[i] == op implies (op[0] == '='
        || op[0] == '!' || op[0] == '<' || op[0] == '>') && (op.len() == 1 || (op.len() == 2
        && op[1] == '=')) by {}
    assert forall|i: int| 0 <= i < add_ops().len() && add_ops()[i] == op implies op.len() == 1
        && (op[0] == '+' || op[0] == '-' || op[0] == '|' || op[0] == '^') by {}
    assert forall|i: int| 0 <= i < mul_ops().len() && mul_ops()[i] == op implies (op.len() == 1
        && (op[0] == '*' || op[0] == '/' || op[0] == '%' || op[0] == '&')) || (op.len() == 2 && (
        (op[0] == '<' && op[1] == '<') || (op[0] == '>' && op[1] == '>') || (op[0] == '&' && op[1]
            == '^'))) by {}
}

/// The precedence that the parser of binary operators hands back is the
/// precedence of the operator.
pub proof fn lemma_binary_op_precedence(s: Seq<char>)
    ensures
        spec_binary_op(s) matches Ok((_, (op, p))) ==> precedence(op) == p,
{
    lemma_first_match(or_ops(), 0, s);
    lemma_first_match(and_ops(), 0, s);
    lemma_first_match(mul_ops(), 0, s);
    lemma_first_match(rel_ops(), 0, s);
    lemma_first_match(add_ops(), 0, s);
    if let Ok((_, (op, p))) = spec_binary_op(s) {
        lemma_tables_are_disjoint(op);
    }
}

/// The shape of a parsed expression, and where it ends: the expression
/// respects precedence, its own operator has at least the precedence `min`,
/// and no operation of at least that precedence can be read behind it.
proof fn lemma_expression_shape(s: Seq<char>, min: nat)
    requires
        min >= 1,
    ensures
        spec_expression_from(s, min) matches Ok((end, e)) ==> {
            &&& respects_precedence(e)
            &&& binds_at_least(e, min)
            &&& next_precedence(end) < min
        },
    decreases s.len(), 1int,
{
    lemma_unary_expr(s);
    if let Ok((rest, first)) = spec_unary_expr(s) {
        lemma_operations_shape(ExpressionView::UnaryExpr(first), rest, min);
    }
}

/// The shape of what the operations behind `left` build, and where they
/// end.
proof fn lemma_operations_shape(left: ExpressionView, s: Seq<char>, min: nat)
    requires
        min >= 1,
        respects_precedence(left),
        binds_at_least(left, min),
        binds_at_least(left, next_precedence(s)),
    ensures
        respects_precedence(spec_operations(left, s, min).1),
        binds_at_least(spec_operations(left, s, min).1, min),
        next_precedence(spec_operations(left, s, min).0) < min,
    decreases s.len(), 0int,
{
    lemma_binary_op(s);
    lemma_binary_op_precedence(s);
    if let Ok((after_op, (op, p))) = spec_binary_op(s) {
        if p >= min {
            lemma_expression_from(after_op, p as nat + 1);
            lemma_expression_shape(after_op, p as nat + 1);
            if let Ok((rest, right)) = spec_expression_from(after_op, p as nat + 1) {
                let joined = ExpressionView::BinExpr {
                    left: Box::new(left),
                    op,
                    right: Box::new(right),
                };
                assert(next_precedence(s) == p);
                assert(respects_precedence(joined));
                lemma_operations_shape(joined, rest, min);
            }
        }
    }
}

/// Every expression that is parsed has the shape that precedence and
/// associativity to the left give: `||` binds loosest, then `&&`, the
/// relational, the additive and the multiplicative operators, and of two
/// operators of one precedence the left one is applied first.
pub proof fn lemma_expression_respects_precedence(s: Seq<char>)
    ensures
        spec_expression_from(s, 1) matches Ok((_, e)) ==> respects_precedence(e),
{
    lemma_expression_shape(s, 1);
}

} // verus!
