//! How binary operators group: in `a op1 b op2 c`, the operator that binds
//! tighter in the language's operator table takes the middle operand, and
//! operators of one level group to the left, except `^` and `..`, which
//! group to the right.
use vstd::prelude::*;

use crate::diagnostics::DiagnosticView;
use crate::lexer::{Token, TokenKind};
use crate::parser::grammar::{
    expr_spec, next_level, op_text, postfix_spec, prec_loop, prec_spec, prefix_spec, ExprKindView, ExprView,
};
use crate::parser::precedence::{precedence_of, rank, Precedence};
use crate::source::SourceSpan;

verus! {

/// The level of a binary operator in the language's operator table, from
/// loosest to tightest: `or`; `and`; `==`, `~=`, `<`, `<=`, `>`, `>=`; `..`;
/// `+`, `-`; `*`, `/`, `%`; `^`. Other tokens are no binary operators.
pub open spec fn table_level(k: TokenKind) -> Option<int> {
    match k {
        TokenKind::Or => Some(1),
        TokenKind::And => Some(2),
        TokenKind::EqualEqual | TokenKind::NotEqual | TokenKind::Less | TokenKind::LessEqual | TokenKind::Greater
        | TokenKind::GreaterEqual => Some(3),
        TokenKind::DotDot => Some(4),
        TokenKind::Plus | TokenKind::Minus => Some(5),
        TokenKind::Star | TokenKind::Slash | TokenKind::Percent => Some(6),
        TokenKind::Caret => Some(7),
        _ => None,
    }
}

/// The operators that group to the right: `^` and `..`.
pub open spec fn groups_right(k: TokenKind) -> bool {
    k is Caret || k is DotDot
}

/// A name or a number, read as an operand on its own.
pub open spec fn is_operand(k: TokenKind) -> bool {
    k is Identifier || k is NumberLiteral
}

/// The tokens from `p` are `a op1 b op2 c` with plain operands and binary
/// operators, and nothing follows but `EOF` or the end.
pub open spec fn two_operator_shape(ts: Seq<Token>, p: int) -> bool {
    &&& 0 <= p
    &&& p + 5 <= ts.len()
    &&& is_operand(ts[p].kind)
    &&& table_level(ts[p + 1].kind) is Some
    &&& is_operand(ts[p + 2].kind)
    &&& table_level(ts[p + 3].kind) is Some
    &&& is_operand(ts[p + 4].kind)
    &&& (p + 5 == ts.len() || ts[p + 5].kind is EOF)
}

/// `e` is a binary `o1` whose left operand is `a` and whose right operand
/// is a binary `o2` of `b` and `c`.
pub open spec fn nested_right(e: ExprView, a: ExprView, o1: Seq<char>, b: ExprView, o2: Seq<char>, c: ExprView) -> bool {
    match e.kind {
        ExprKindView::Binary { left, operator, right } => *left == a && operator == o1 && match right.kind {
            ExprKindView::Binary { left: l2, operator: p2, right: r2 } => *l2 == b && p2 == o2 && *r2 == c,
            _ => false,
        },
        _ => false,
    }
}

/// `e` is a binary `o2` whose right operand is `c` and whose left operand
/// is a binary `o1` of `a` and `b`.
pub open spec fn nested_left(e: ExprView, a: ExprView, o1: Seq<char>, b: ExprView, o2: Seq<char>, c: ExprView) -> bool {
    match e.kind {
        ExprKindView::Binary { left, operator, right } => *right == c && operator == o2 && match left.kind {
            ExprKindView::Binary { left: l2, operator: p2, right: r2 } => *l2 == a && p2 == o1 && *r2 == b,
            _ => false,
        },
        _ => false,
    }
}

/// The level the right operand of an operator is parsed at.
spec fn rhs_level(k: TokenKind, q: Precedence) -> Precedence {
    if k is Caret || k is DotDot {
        q
    } else {
        next_level(q)
    }
}

proof fn lemma_table_matches(k: TokenKind)
    requires
        table_level(k) is Some,
    ensures
        precedence_of(k) matches Some(q) && rank(q) == table_level(k)->0 && 1 <= rank(q) <= 7,
        precedence_of(k) matches Some(q) && rank(rhs_level(k, q)) == if groups_right(k) {
            rank(q) as int
        } else {
            (rank(q) + 1) as int
        },
{
}

/// An operand token alone: read at `p`, nothing after it is taken.
proof fn lemma_operand(ts: Seq<Token>, p: int, d: Seq<DiagnosticView>)
    requires
        0 <= p,
        p + 1 < ts.len(),
        is_operand(ts[p].kind),
        table_level(ts[p + 1].kind) is Some || ts[p + 1].kind is EOF,
    ensures
        prefix_spec(ts, p, d).1 == p + 1,
        prefix_spec(ts, p, d).2 == d,
        postfix_spec(ts, p + 1, d, prefix_spec(ts, p, d).0) == (prefix_spec(ts, p, d).0, p + 1, d),
{
}

/// At `EOF` or the end, no operator continues an expression.
proof fn lemma_stop(ts: Seq<Token>, p: int, d: Seq<DiagnosticView>, pr: Precedence, e: ExprView)
    requires
        0 <= p <= ts.len(),
        p == ts.len() || ts[p].kind is EOF,
    ensures
        prec_loop(ts, p, d, pr, e) == (e, p, d),
{
}

/// The last operand, read at `p + 4` at any level, ends the expression.
proof fn lemma_last_operand(ts: Seq<Token>, p: int, d: Seq<DiagnosticView>, pr: Precedence)
    requires
        two_operator_shape(ts, p),
    ensures
        prec_spec(ts, p + 4, d, pr) == (prefix_spec(ts, p + 4, d).0, p + 5, d),
{
    let c = prefix_spec(ts, p + 4, d);
    if p + 5 == ts.len() {
        assert(c.1 == p + 5 && c.2 == d);
        assert(postfix_spec(ts, p + 5, d, c.0) == (c.0, p + 5, d));
    } else {
        lemma_operand(ts, p + 4, d);
    }
    lemma_stop(ts, p + 5, d, pr, c.0);
}

proof fn lemma_right_nested(ts: Seq<Token>, p: int, d: Seq<DiagnosticView>)
    requires
        two_operator_shape(ts, p),
        ({
            let q1 = precedence_of(ts[p + 1].kind)->0;
            let q2 = precedence_of(ts[p + 3].kind)->0;
            precedence_of(ts[p + 1].kind) is Some && precedence_of(ts[p + 3].kind) is Some && rank(rhs_level(ts[p + 1].kind, q1))
                <= rank(q2)
        }),
    ensures
        nested_right(
            expr_spec(ts, p, d).0,
            prefix_spec(ts, p, d).0,
            op_text(ts[p + 1].kind),
            prefix_spec(ts, p + 2, d).0,
            op_text(ts[p + 3].kind),
            prefix_spec(ts, p + 4, d).0,
        ),
{
    let k1 = ts[p + 1].kind;
    let k2 = ts[p + 3].kind;
    let q1 = precedence_of(k1)->0;
    let q2 = precedence_of(k2)->0;
    let r1 = rhs_level(k1, q1);
    let r2 = rhs_level(k2, q2);
    let a = prefix_spec(ts, p, d).0;
    let b = prefix_spec(ts, p + 2, d).0;
    let c = prefix_spec(ts, p + 4, d).0;
    lemma_operand(ts, p, d);
    lemma_operand(ts, p + 2, d);
    lemma_last_operand(ts, p, d, r2);
    let inner = ExprView {
        kind: ExprKindView::Binary { left: Box::new(b), operator: op_text(k2), right: Box::new(c) },
        span: SourceSpan { file_id: b.span.file_id, start: b.span.start, end: c.span.end },
    };
    lemma_stop(ts, p + 5, d, r1, inner);
    assert(prec_loop(ts, p + 3, d, r1, b) == (inner, p + 5, d));
    assert(prec_spec(ts, p + 2, d, r1) == (inner, p + 5, d));
    let outer = ExprView {
        kind: ExprKindView::Binary { left: Box::new(a), operator: op_text(k1), right: Box::new(inner) },
        span: SourceSpan { file_id: a.span.file_id, start: a.span.start, end: inner.span.end },
    };
    lemma_stop(ts, p + 5, d, Precedence::Lowest, outer);
    assert(prec_loop(ts, p + 1, d, Precedence::Lowest, a) == (outer, p + 5, d));
    assert(prec_spec(ts, p, d, Precedence::Lowest) == (outer, p + 5, d));
}

proof fn lemma_left_nested(ts: Seq<Token>, p: int, d: Seq<DiagnosticView>)
    requires
        two_operator_shape(ts, p),
        ({
            let q1 = precedence_of(ts[p + 1].kind)->0;
            let q2 = precedence_of(ts[p + 3].kind)->0;
            precedence_of(ts[p + 1].kind) is Some && precedence_of(ts[p + 3].kind) is Some && rank(rhs_level(ts[p + 1].kind, q1))
                > rank(q2)
        }),
    ensures
        nested_left(
            expr_spec(ts, p, d).0,
            prefix_spec(ts, p, d).0,
            op_text(ts[p + 1].kind),
            prefix_spec(ts, p + 2, d).0,
            op_text(ts[p + 3].kind),
            prefix_spec(ts, p + 4, d).0,
        ),
{
    let k1 = ts[p + 1].kind;
    let k2 = ts[p + 3].kind;
    let q1 = precedence_of(k1)->0;
    let q2 = precedence_of(k2)->0;
    let r1 = rhs_level(k1, q1);
    let r2 = rhs_level(k2, q2);
    let a = prefix_spec(ts, p, d).0;
    let b = prefix_spec(ts, p + 2, d).0;
    let c = prefix_spec(ts, p + 4, d).0;
    lemma_operand(ts, p, d);
    lemma_operand(ts, p + 2, d);
    lemma_last_operand(ts, p, d, r2);
    assert(prec_loop(ts, p + 3, d, r1, b) == (b, p + 3, d));
    assert(prec_spec(ts, p + 2, d, r1) == (b, p + 3, d));
    let left = ExprView {
        kind: ExprKindView::Binary { left: Box::new(a), operator: op_text(k1), right: Box::new(b) },
        span: SourceSpan { file_id: a.span.file_id, start: a.span.start, end: b.span.end },
    };
    let outer = ExprView {
        kind: ExprKindView::Binary { left: Box::new(left), operator: op_text(k2), right: Box::new(c) },
        span: SourceSpan { file_id: left.span.file_id, start: left.span.start, end: c.span.end },
    };
    lemma_stop(ts, p + 5, d, Precedence::Lowest, outer);
    assert(prec_loop(ts, p + 3, d, Precedence::Lowest, left) == (outer, p + 5, d));
    assert(prec_loop(ts, p + 1, d, Precedence::Lowest, a) == (outer, p + 5, d));
    assert(prec_spec(ts, p, d, Precedence::Lowest) == (outer, p + 5, d));
}

/// In `a op1 b op2 c`, the operator of the higher level in the language's
/// table takes `b`; at one level, `b` goes with the first operator, except
/// for `^` and `..`, which group to the right. So `1 + 2 % 3` reads as
/// `1 + (2 % 3)`, `1 % 2 + 3` as `(1 % 2) + 3`, `1 - 2 - 3` as
/// `(1 - 2) - 3`, and `2 ^ 3 ^ 2` as `2 ^ (3 ^ 2)`.
pub proof fn lemma_binding_follows_the_table(ts: Seq<Token>, p: int, d: Seq<DiagnosticView>)
    requires
        two_operator_shape(ts, p),
    ensures
        ({
            let l1 = table_level(ts[p + 1].kind)->0;
            let l2 = table_level(ts[p + 3].kind)->0;
            (l1 < l2 || (l1 == l2 && groups_right(ts[p + 1].kind))) ==> nested_right(
                expr_spec(ts, p, d).0,
                prefix_spec(ts, p, d).0,
                op_text(ts[p + 1].kind),
                prefix_spec(ts, p + 2, d).0,
                op_text(ts[p + 3].kind),
                prefix_spec(ts, p + 4, d).0,
            )
        }),
        ({
            let l1 = table_level(ts[p + 1].kind)->0;
            let l2 = table_level(ts[p + 3].kind)->0;
            (l1 > l2 || (l1 == l2 && !groups_right(ts[p + 1].kind))) ==> nested_left(
                expr_spec(ts, p, d).0,
                prefix_spec(ts, p, d).0,
                op_text(ts[p + 1].kind),
                prefix_spec(ts, p + 2, d).0,
                op_text(ts[p + 3].kind),
                prefix_spec(ts, p + 4, d).0,
            )
        }),
{
    let k1 = ts[p + 1].kind;
    let k2 = ts[p + 3].kind;
    lemma_table_matches(k1);
    lemma_table_matches(k2);
    let l1 = table_level(k1)->0;
    let l2 = table_level(k2)->0;
    if l1 < l2 || (l1 == l2 && groups_right(k1)) {
        lemma_right_nested(ts, p, d);
    }
    if l1 > l2 || (l1 == l2 && !groups_right(k1)) {
        lemma_left_nested(ts, p, d);
    }
}

} // verus!
