//! What folding keeps: a folded or simplified logical expression has the
//! truth value of the expression it replaces, whatever its operands are.
use vstd::prelude::*;

use crate::hir::expression::{HirExpression, HirExpressionKind};
use crate::hir::ids::HirSymbolId;
use crate::hir::optimizer::{binary_out, rebuilt, unary_out, HirOptimizationStats};
use crate::hir::types::{HirBinaryOperator, HirType, HirUnaryOperator};
use crate::source::SourceSpan;

verus! {

/// The truth of an expression taken as a boolean: a literal is itself,
/// `and`, `or` and `not` combine the truths of their operands, and `atom`
/// gives the truth of every other expression.
pub open spec fn truth(e: HirExpression, atom: spec_fn(HirExpression) -> bool) -> bool
    decreases e,
{
    match e.kind {
        HirExpressionKind::Boolean(v) => v,
        HirExpressionKind::Binary { left, operator, right } => if operator == HirBinaryOperator::And {
            truth(*left, atom) && truth(*right, atom)
        } else if operator == HirBinaryOperator::Or {
            truth(*left, atom) || truth(*right, atom)
        } else {
            atom(e)
        },
        HirExpressionKind::Unary { operator, operand } => if operator == HirUnaryOperator::Not {
            !truth(*operand, atom)
        } else {
            atom(e)
        },
        _ => atom(e),
    }
}

/// Optimizing `a and b` or `a or b` gives an expression with the same truth
/// as the conjunction or disjunction of `a` and `b`, for every truth of the
/// expressions they are made of.
pub proof fn lemma_logic_folding_keeps_truth(
    a: HirExpression,
    op: HirBinaryOperator,
    b: HirExpression,
    ty: Option<HirType>,
    sym: Option<HirSymbolId>,
    span: SourceSpan,
    sm: HirOptimizationStats,
    out: HirExpression,
    s1: HirOptimizationStats,
    atom: spec_fn(HirExpression) -> bool,
)
    requires
        binary_out(a, op, b, ty, sym, span, sm, out, s1),
        op == HirBinaryOperator::And || op == HirBinaryOperator::Or,
    ensures
        truth(out, atom) == if op == HirBinaryOperator::And {
            truth(a, atom) && truth(b, atom)
        } else {
            truth(a, atom) || truth(b, atom)
        },
        truth(out, atom) == truth(
            rebuilt(ty, sym, span, HirExpressionKind::Binary { left: Box::new(a), operator: op, right: Box::new(b) }),
            atom,
        ),
{
    let whole = rebuilt(ty, sym, span, HirExpressionKind::Binary { left: Box::new(a), operator: op, right: Box::new(b) });
    assert(whole.kind == HirExpressionKind::Binary { left: Box::new(a), operator: op, right: Box::new(b) });
    assert(truth(whole, atom) == if op == HirBinaryOperator::And {
        truth(a, atom) && truth(b, atom)
    } else {
        truth(a, atom) || truth(b, atom)
    });
}

/// Optimizing `not o` gives an expression whose truth is the opposite of
/// the truth of `o`.
pub proof fn lemma_not_folding_keeps_truth(
    o: HirExpression,
    ty: Option<HirType>,
    sym: Option<HirSymbolId>,
    span: SourceSpan,
    sm: HirOptimizationStats,
    out: HirExpression,
    s1: HirOptimizationStats,
    atom: spec_fn(HirExpression) -> bool,
)
    requires
        unary_out(HirUnaryOperator::Not, o, ty, sym, span, sm, out, s1),
    ensures
        truth(out, atom) == !truth(o, atom),
{
    if o.kind matches HirExpressionKind::Unary { operator: HirUnaryOperator::Not, .. } {
        assert(truth(o, atom) == !truth(*o.kind->operand, atom));
    }
}

} // verus!
