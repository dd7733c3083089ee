//! The expression grammar as spec functions over the token sequence: each
//! rule takes the tokens, a position and the diagnostics so far, and gives
//! the tree it reads (as a view, with texts as character sequences), the
//! position after it and the diagnostics after it.
//!
//! Where a rule continues after a sub-rule, it checks that the sub-rule
//! stayed inside the tokens and did not move back (the parser's functions
//! are proved to behave so); otherwise it stops there. These checks only
//! serve the termination of the definitions.
use vstd::prelude::*;

use crate::diagnostics::{DiagnosticView, LabelView, NoteView, Severity};
use crate::lexer::{Token, TokenKind};
use crate::parser::ast_builder::{Expression, ExpressionKind, InterpolatedStringPart, TableField};
use crate::parser::precedence::{precedence_of, rank, Precedence};
use crate::parser::recovery::spec_is_expression_boundary;
use crate::source::{FileId, SourceSpan};
use crate::text::unicode_white_space;

verus! {

/// An expression with its texts as character sequences.
pub struct ExprView {
    pub kind: ExprKindView,
    pub span: SourceSpan,
}

/// The kinds of `ExprView`, as those of `Expression`.
pub enum ExprKindView {
    Identifier(Seq<char>),
    NumberLiteral(Seq<char>),
    StringLiteral(Seq<char>),
    InterpolatedString(Seq<PartView>),
    BooleanLiteral(bool),
    Nil,
    Unary { operator: Seq<char>, operand: Box<ExprView> },
    Binary { left: Box<ExprView>, operator: Seq<char>, right: Box<ExprView> },
    Call { callee: Box<ExprView>, arguments: Seq<ExprView> },
    MethodCall { receiver: Box<ExprView>, method: Seq<char>, arguments: Seq<ExprView> },
    MemberAccess { object: Box<ExprView>, property: Seq<char> },
    Index { object: Box<ExprView>, index: Box<ExprView> },
    TableConstructor(Seq<FieldView>),
    Error,
}

/// A piece of an interpolated string.
pub enum PartView {
    Text(Seq<char>),
    Expression(ExprView),
}

/// An entry of a table constructor.
pub enum FieldView {
    Named { key: Seq<char>, value: ExprView },
    Indexed { key: ExprView, value: ExprView },
    Expression(ExprView),
}

/// The view of an expression.
pub open spec fn expr_view(e: Expression) -> ExprView
    decreases e,
{
    ExprView {
        kind: match e.kind {
            ExpressionKind::Identifier(s) => ExprKindView::Identifier(s@),
            ExpressionKind::NumberLiteral(s) => ExprKindView::NumberLiteral(s@),
            ExpressionKind::StringLiteral(s) => ExprKindView::StringLiteral(s@),
            ExpressionKind::InterpolatedString(ps) => ExprKindView::InterpolatedString(parts_view(ps@)),
            ExpressionKind::BooleanLiteral(b) => ExprKindView::BooleanLiteral(b),
            ExpressionKind::Nil => ExprKindView::Nil,
            ExpressionKind::Unary { operator, operand } => ExprKindView::Unary {
                operator: operator@,
                operand: Box::new(expr_view(*operand)),
            },
            ExpressionKind::Binary { left, operator, right } => ExprKindView::Binary {
                left: Box::new(expr_view(*left)),
                operator: operator@,
                right: Box::new(expr_view(*right)),
            },
            ExpressionKind::Call { callee, arguments } => ExprKindView::Call {
                callee: Box::new(expr_view(*callee)),
                arguments: exprs_view(arguments@),
            },
            ExpressionKind::MethodCall { receiver, method, arguments } => ExprKindView::MethodCall {
                receiver: Box::new(expr_view(*receiver)),
                method: method@,
                arguments: exprs_view(arguments@),
            },
            ExpressionKind::MemberAccess { object, property } => ExprKindView::MemberAccess {
                object: Box::new(expr_view(*object)),
                property: property@,
            },
            ExpressionKind::Index { object, index } => ExprKindView::Index {
                object: Box::new(expr_view(*object)),
                index: Box::new(expr_view(*index)),
            },
            ExpressionKind::TableConstructor(fs) => ExprKindView::TableConstructor(fields_view(fs@)),
            ExpressionKind::Error => ExprKindView::Error,
        },
        span: e.span,
    }
}

/// The views of a run of expressions.
pub open spec fn exprs_view(es: Seq<Expression>) -> Seq<ExprView>
    decreases es,
{
    if es.len() == 0 {
        seq![]
    } else {
        exprs_view(es.drop_last()).push(expr_view(es[es.len() - 1]))
    }
}

/// The view of a piece of an interpolated string.
pub open spec fn part_view(p: InterpolatedStringPart) -> PartView
    decreases p,
{
    match p {
        InterpolatedStringPart::Text(s) => PartView::Text(s@),
        InterpolatedStringPart::Expression(e) => PartView::Expression(expr_view(e)),
    }
}

/// The views of the pieces of an interpolated string.
pub open spec fn parts_view(ps: Seq<InterpolatedStringPart>) -> Seq<PartView>
    decreases ps,
{
    if ps.len() == 0 {
        seq![]
    } else {
        parts_view(ps.drop_last()).push(part_view(ps[ps.len() - 1]))
    }
}

/// The view of an entry of a table constructor.
pub open spec fn field_view(f: TableField) -> FieldView
    decreases f,
{
    match f {
        TableField::Named { key, value } => FieldView::Named { key: key@, value: expr_view(value) },
        TableField::Indexed { key, value } => FieldView::Indexed { key: expr_view(key), value: expr_view(value) },
        TableField::Expression(e) => FieldView::Expression(expr_view(e)),
    }
}

/// The views of the entries of a table constructor.
pub open spec fn fields_view(fs: Seq<TableField>) -> Seq<FieldView>
    decreases fs,
{
    if fs.len() == 0 {
        seq![]
    } else {
        fields_view(fs.drop_last()).push(field_view(fs[fs.len() - 1]))
    }
}

pub proof fn lemma_exprs_view_push(s: Seq<Expression>, e: Expression)
    ensures
        exprs_view(s.push(e)) == exprs_view(s).push(expr_view(e)),
{
    assert(s.push(e).drop_last() =~= s);
}

pub proof fn lemma_parts_view_push(s: Seq<InterpolatedStringPart>, p: InterpolatedStringPart)
    ensures
        parts_view(s.push(p)) == parts_view(s).push(part_view(p)),
{
    assert(s.push(p).drop_last() =~= s);
}

pub proof fn lemma_fields_view_push(s: Seq<TableField>, f: TableField)
    ensures
        fields_view(s.push(f)) == fields_view(s).push(field_view(f)),
{
    assert(s.push(f).drop_last() =~= s);
}

/// The views of a run of expressions are those of its elements, in order.
pub proof fn lemma_exprs_view_len(s: Seq<Expression>)
    ensures
        exprs_view(s).len() == s.len(),
        forall|i: int| 0 <= i < s.len() ==> #[trigger] exprs_view(s)[i] == expr_view(s[i]),
    decreases s.len(),
{
    if s.len() > 0 {
        lemma_exprs_view_len(s.drop_last());
    }
}

impl View for Expression {
    type V = ExprView;

    open spec fn view(&self) -> ExprView {
        expr_view(*self)
    }
}

// ---------------------------------------------------------------------------
// Tokens and diagnostics
// ---------------------------------------------------------------------------

/// The token at `p`, if there is one.
pub open spec fn tok(ts: Seq<Token>, p: int) -> Option<Token> {
    if 0 <= p < ts.len() {
        Some(ts[p])
    } else {
        None
    }
}

/// The kind of the token at `p`, if there is one.
pub open spec fn kind_at(ts: Seq<Token>, p: int) -> Option<TokenKind> {
    match tok(ts, p) {
        Some(t) => Some(t.kind),
        None => None,
    }
}

/// The position after moving past the token at `p` (none past the end).
pub open spec fn adv(ts: Seq<Token>, p: int) -> int {
    if p < ts.len() {
        p + 1
    } else {
        p
    }
}

/// The span of the token at `p`, or the empty span of file 0 at the end.
pub open spec fn span_at(ts: Seq<Token>, p: int) -> SourceSpan {
    match tok(ts, p) {
        Some(t) => t.span,
        None => SourceSpan { file_id: FileId(0), start: 0, end: 0 },
    }
}

/// The tokens left from `p`.
pub open spec fn rem(ts: Seq<Token>, p: int) -> nat {
    if p <= ts.len() {
        (ts.len() - p) as nat
    } else {
        0
    }
}

/// `q` is at or after `p` and inside the tokens.
pub open spec fn fits(ts: Seq<Token>, p: int, q: int) -> bool {
    p <= q <= ts.len()
}

/// An error diagnostic with `message` over `span`.
pub open spec fn error_view(message: Seq<char>, span: SourceSpan) -> DiagnosticView {
    DiagnosticView {
        severity: Severity::Error,
        message,
        labels: seq![LabelView { span, message: Seq::empty(), primary: true }],
        notes: Seq::<NoteView>::empty(),
        help: None,
        suggestion: None,
    }
}

/// An error diagnostic with `message` over `span` and the hint `help`.
pub open spec fn error_help_view(message: Seq<char>, span: SourceSpan, help: Seq<char>) -> DiagnosticView {
    DiagnosticView { help: Some(help), ..error_view(message, span) }
}

/// The next stronger binding level (`Primary` stays).
pub open spec fn next_level(p: Precedence) -> Precedence {
    match p {
        Precedence::Lowest => Precedence::LogicalOr,
        Precedence::LogicalOr => Precedence::LogicalAnd,
        Precedence::LogicalAnd => Precedence::Comparison,
        Precedence::Comparison => Precedence::Concatenation,
        Precedence::Concatenation => Precedence::Addition,
        Precedence::Addition => Precedence::Multiplication,
        Precedence::Multiplication => Precedence::Exponentiation,
        Precedence::Exponentiation => Precedence::Unary,
        Precedence::Unary => Precedence::Primary,
        Precedence::Primary => Precedence::Primary,
    }
}

/// The spelling of an operator token; other tokens have the empty spelling.
pub open spec fn op_text(kind: TokenKind) -> Seq<char> {
    match kind {
        TokenKind::Plus => "+"@,
        TokenKind::Minus => "-"@,
        TokenKind::Star => "*"@,
        TokenKind::Slash => "/"@,
        TokenKind::Percent => "%"@,
        TokenKind::Caret => "^"@,
        TokenKind::Equal => "="@,
        TokenKind::EqualEqual => "=="@,
        TokenKind::NotEqual => "~="@,
        TokenKind::Less => "<"@,
        TokenKind::LessEqual => "<="@,
        TokenKind::Greater => ">"@,
        TokenKind::GreaterEqual => ">="@,
        TokenKind::PlusEqual => "+="@,
        TokenKind::MinusEqual => "-="@,
        TokenKind::StarEqual => "*="@,
        TokenKind::SlashEqual => "/="@,
        TokenKind::PercentEqual => "%="@,
        TokenKind::AmpersandEqual => "&="@,
        TokenKind::PipeEqual => "|="@,
        TokenKind::And => "and"@,
        TokenKind::Or => "or"@,
        TokenKind::DotDot => ".."@,
        _ => ""@,
    }
}

/// Where a name of `name` starting at `start` ends when no token follows:
/// `start` plus its length in bytes, saturating.
pub open spec fn name_end(start: usize, name: Seq<char>) -> usize {
    if start + vstd::utf8::encode_utf8(name).len() > usize::MAX {
        usize::MAX
    } else {
        (start + vstd::utf8::encode_utf8(name).len()) as usize
    }
}

// ---------------------------------------------------------------------------
// Interpolated strings
// ---------------------------------------------------------------------------

/// The first position from `a` on that holds no white space.
pub open spec fn trim_lo(c: Seq<char>, a: int) -> int
    decreases c.len() - a,
{
    if 0 <= a < c.len() && unicode_white_space(c[a]) {
        trim_lo(c, a + 1)
    } else {
        a
    }
}

/// The end of `c` without its trailing white space, not below `lo`.
pub open spec fn trim_hi(c: Seq<char>, lo: int, b: int) -> int
    decreases b,
{
    if b > lo && b > 0 && b <= c.len() && unicode_white_space(c[b - 1]) {
        trim_hi(c, lo, b - 1)
    } else {
        b
    }
}

/// `c` without leading and trailing white space.
pub open spec fn trim(c: Seq<char>) -> Seq<char> {
    let lo = trim_lo(c, 0);
    c.subrange(lo, trim_hi(c, lo, c.len() as int))
}

/// Reads the inside of braces from `i` at nesting `depth`: the position
/// after the closing brace (or the end) and the text inside.
pub open spec fn brace_scan(raw: Seq<char>, i: int, depth: nat, content: Seq<char>) -> (int, Seq<char>)
    decreases raw.len() - i,
{
    if i < 0 || i >= raw.len() {
        (i, content)
    } else if raw[i] == '{' {
        brace_scan(raw, i + 1, depth + 1, content.push(raw[i]))
    } else if raw[i] == '}' {
        if depth <= 1 {
            (i + 1, content)
        } else {
            brace_scan(raw, i + 1, (depth - 1) as nat, content.push(raw[i]))
        }
    } else {
        brace_scan(raw, i + 1, depth, content.push(raw[i]))
    }
}

/// The pieces after `parts`, with the pending text `text`, from `i` on:
/// text runs, and each braced name (trimmed) as an identifier.
pub open spec fn interp_scan(raw: Seq<char>, i: int, text: Seq<char>, parts: Seq<PartView>) -> Seq<PartView>
    decreases raw.len() - i,
{
    if i < 0 || i >= raw.len() {
        if text.len() > 0 {
            parts.push(PartView::Text(text))
        } else {
            parts
        }
    } else if raw[i] == '{' {
        let parts1 = if text.len() > 0 {
            parts.push(PartView::Text(text))
        } else {
            parts
        };
        let (j, content) = brace_scan(raw, i + 1, 1, seq![]);
        let part = PartView::Expression(
            ExprView { kind: ExprKindView::Identifier(trim(content)), span: SourceSpan { file_id: FileId(0), start: 0, end: 0 } },
        );
        if j <= i || j > raw.len() {
            parts1.push(part)
        } else {
            interp_scan(raw, j, seq![], parts1.push(part))
        }
    } else {
        interp_scan(raw, i + 1, text.push(raw[i]), parts)
    }
}

/// The pieces of the raw text of an interpolated string.
pub open spec fn interp_parts(raw: Seq<char>) -> Seq<PartView> {
    interp_scan(raw, 0, seq![], seq![])
}

// ---------------------------------------------------------------------------
// The expression grammar
// ---------------------------------------------------------------------------

/// The position after skipping to an expression boundary.
pub open spec fn sync_expr(ts: Seq<Token>, p: int) -> int
    decreases rem(ts, p),
{
    if 0 <= p < ts.len() && !spec_is_expression_boundary(ts[p].kind) {
        sync_expr(ts, p + 1)
    } else {
        p
    }
}

/// A token that cannot start an expression: an error, a skip to the next
/// expression boundary and past one more token.
pub open spec fn unexpected_spec(ts: Seq<Token>, p: int, d: Seq<DiagnosticView>) -> (ExprView, int, Seq<DiagnosticView>) {
    (
        ExprView { kind: ExprKindView::Error, span: span_at(ts, p) },
        adv(ts, sync_expr(ts, p)),
        d.push(error_view("Expected expression"@, span_at(ts, p))),
    )
}

/// A whole expression.
pub open spec fn expr_spec(ts: Seq<Token>, p: int, d: Seq<DiagnosticView>) -> (ExprView, int, Seq<DiagnosticView>)
    decreases rem(ts, p), 20nat,
{
    prec_spec(ts, p, d, Precedence::Lowest)
}

/// An expression whose binary operators bind at least as strongly as `pr`.
pub open spec fn prec_spec(ts: Seq<Token>, p: int, d: Seq<DiagnosticView>, pr: Precedence) -> (
    ExprView,
    int,
    Seq<DiagnosticView>,
)
    decreases rem(ts, p), 19nat,
{
    let a = prefix_spec(ts, p, d);
    if !fits(ts, p, a.1) {
        a
    } else {
        let b = postfix_spec(ts, a.1, a.2, a.0);
        if !fits(ts, a.1, b.1) {
            b
        } else {
            prec_loop(ts, b.1, b.2, pr, b.0)
        }
    }
}

/// The binary operators after `left` that bind at least as strongly as
/// `pr`; `^` and `..` group to the right, the others to the left.
pub open spec fn prec_loop(ts: Seq<Token>, p: int, d: Seq<DiagnosticView>, pr: Precedence, left: ExprView) -> (
    ExprView,
    int,
    Seq<DiagnosticView>,
)
    decreases rem(ts, p), 18nat,
{
    match tok(ts, p) {
        None => (left, p, d),
        Some(t) => match precedence_of(t.kind) {
            None => (left, p, d),
            Some(np) => if !(rank(pr) <= rank(np)) {
                (left, p, d)
            } else {
                let rp = if t.kind is Caret || t.kind is DotDot {
                    np
                } else {
                    next_level(np)
                };
                let r = prec_spec(ts, p + 1, d, rp);
                let l2 = ExprView {
                    kind: ExprKindView::Binary { left: Box::new(left), operator: op_text(t.kind), right: Box::new(r.0) },
                    span: SourceSpan { file_id: left.span.file_id, start: left.span.start, end: r.0.span.end },
                };
                if !fits(ts, p + 1, r.1) {
                    (l2, r.1, r.2)
                } else {
                    prec_loop(ts, r.1, r.2, pr, l2)
                }
            },
        },
    }
}

/// A literal, a name, a parenthesised expression, a unary operation, or an
/// error.
pub open spec fn prefix_spec(ts: Seq<Token>, p: int, d: Seq<DiagnosticView>) -> (ExprView, int, Seq<DiagnosticView>)
    decreases rem(ts, p), 10nat,
{
    match tok(ts, p) {
        None => unexpected_spec(ts, p, d),
        Some(t) => match t.kind {
            TokenKind::Minus => {
                let r = prec_spec(ts, p + 1, d, Precedence::Unary);
                (
                    ExprView {
                        kind: ExprKindView::Unary { operator: "-"@, operand: Box::new(r.0) },
                        span: SourceSpan { file_id: r.0.span.file_id, start: t.span.start, end: r.0.span.end },
                    },
                    r.1,
                    r.2,
                )
            },
            TokenKind::Not => {
                let r = prec_spec(ts, p + 1, d, Precedence::Unary);
                (
                    ExprView {
                        kind: ExprKindView::Unary { operator: "not"@, operand: Box::new(r.0) },
                        span: SourceSpan { file_id: r.0.span.file_id, start: t.span.start, end: r.0.span.end },
                    },
                    r.1,
                    r.2,
                )
            },
            TokenKind::LeftParen => {
                let r = expr_spec(ts, p + 1, d);
                if kind_at(ts, r.1) == Some(TokenKind::RightParen) {
                    (r.0, adv(ts, r.1), r.2)
                } else {
                    (r.0, r.1, r.2.push(error_help_view("Expected ')' after expression"@, r.0.span, "Insert ')' here"@)))
                }
            },
            TokenKind::Identifier(n) => (ExprView { kind: ExprKindView::Identifier(n@), span: t.span }, p + 1, d),
            TokenKind::NumberLiteral(n) => (ExprView { kind: ExprKindView::NumberLiteral(n@), span: t.span }, p + 1, d),
            TokenKind::StringLiteral(n) => (ExprView { kind: ExprKindView::StringLiteral(n@), span: t.span }, p + 1, d),
            TokenKind::InterpolatedString(raw) => (
                ExprView { kind: ExprKindView::InterpolatedString(interp_parts(raw@)), span: t.span },
                p + 1,
                d,
            ),
            TokenKind::True => (ExprView { kind: ExprKindView::BooleanLiteral(true), span: t.span }, p + 1, d),
            TokenKind::False => (ExprView { kind: ExprKindView::BooleanLiteral(false), span: t.span }, p + 1, d),
            TokenKind::Nil => (ExprView { kind: ExprKindView::Nil, span: t.span }, p + 1, d),
            _ => unexpected_spec(ts, p, d),
        },
    }
}

/// Whether a token starts a call argument written without parentheses.
pub open spec fn starts_shorthand(k: Option<TokenKind>) -> bool {
    match k {
        Some(TokenKind::StringLiteral(_)) => true,
        Some(TokenKind::InterpolatedString(_)) => true,
        Some(TokenKind::LeftBrace) => true,
        _ => false,
    }
}

/// Whether a token is a string or interpolated string literal.
pub open spec fn is_string_token(k: Option<TokenKind>) -> bool {
    match k {
        Some(TokenKind::StringLiteral(_)) => true,
        Some(TokenKind::InterpolatedString(_)) => true,
        _ => false,
    }
}

/// Calls, method calls, member accesses and indexing after `e`.
pub open spec fn postfix_spec(ts: Seq<Token>, p: int, d: Seq<DiagnosticView>, e: ExprView) -> (
    ExprView,
    int,
    Seq<DiagnosticView>,
)
    decreases rem(ts, p), 17nat,
{
    let k = kind_at(ts, p);
    if k == Some(TokenKind::LeftParen) || starts_shorthand(k) || k == Some(TokenKind::Colon) || k == Some(
        TokenKind::Dot,
    ) || k == Some(TokenKind::LeftBracket) {
        let r = if k == Some(TokenKind::LeftParen) {
            call_spec(ts, p, d, e)
        } else if starts_shorthand(k) {
            shorthand_spec(ts, p, d, e)
        } else if k == Some(TokenKind::Colon) {
            method_spec(ts, p, d, e)
        } else if k == Some(TokenKind::Dot) {
            member_spec(ts, p, d, e)
        } else {
            index_spec(ts, p, d, e)
        };
        if p < r.1 <= ts.len() {
            postfix_spec(ts, r.1, r.2, r.0)
        } else {
            r
        }
    } else {
        (e, p, d)
    }
}

/// Expressions separated by commas up to `)` or the end, after `acc`.
pub open spec fn args_spec(ts: Seq<Token>, p: int, d: Seq<DiagnosticView>, acc: Seq<ExprView>) -> (
    Seq<ExprView>,
    int,
    Seq<DiagnosticView>,
)
    decreases rem(ts, p), 21nat,
{
    if kind_at(ts, p) == Some(TokenKind::RightParen) || kind_at(ts, p) == Some(TokenKind::EOF) {
        (acc, p, d)
    } else {
        let r = expr_spec(ts, p, d);
        let acc2 = acc.push(r.0);
        if fits(ts, p, r.1) && kind_at(ts, r.1) == Some(TokenKind::Comma) {
            args_spec(ts, r.1 + 1, r.2, acc2)
        } else {
            (acc2, r.1, r.2)
        }
    }
}

/// A call with parenthesised arguments; the token at `p` is `(`.
pub open spec fn call_spec(ts: Seq<Token>, p: int, d: Seq<DiagnosticView>, callee: ExprView) -> (
    ExprView,
    int,
    Seq<DiagnosticView>,
)
    decreases rem(ts, p), 15nat,
{
    if p < 0 || p >= ts.len() {
        (callee, p, d)
    } else {
        let start = callee.span.start;
        let file = callee.span.file_id;
        let a = args_spec(ts, p + 1, d, seq![]);
        let end = match tok(ts, a.1) {
            Some(t) => t.span.end,
            None => start,
        };
        let e = ExprView {
            kind: ExprKindView::Call { callee: Box::new(callee), arguments: a.0 },
            span: SourceSpan { file_id: file, start, end },
        };
        if kind_at(ts, a.1) == Some(TokenKind::RightParen) {
            (e, adv(ts, a.1), a.2)
        } else {
            (
                e,
                a.1,
                a.2.push(
                    error_help_view(
                        "Expected ')' after argument list"@,
                        SourceSpan { file_id: file, start, end },
                        "Insert ')' here"@,
                    ),
                ),
            )
        }
    }
}

/// A call whose single argument is a string or a table constructor.
pub open spec fn shorthand_spec(ts: Seq<Token>, p: int, d: Seq<DiagnosticView>, callee: ExprView) -> (
    ExprView,
    int,
    Seq<DiagnosticView>,
)
    decreases rem(ts, p), 16nat,
{
    let a = if is_string_token(kind_at(ts, p)) {
        prefix_spec(ts, p, d)
    } else {
        table_spec(ts, p, d)
    };
    (
        ExprView {
            kind: ExprKindView::Call { callee: Box::new(callee), arguments: seq![a.0] },
            span: SourceSpan { file_id: callee.span.file_id, start: callee.span.start, end: a.0.span.end },
        },
        a.1,
        a.2,
    )
}

/// The name at `p` if it is an identifier, and the position after it.
pub open spec fn name_at(ts: Seq<Token>, p: int) -> (Seq<char>, int) {
    match kind_at(ts, p) {
        Some(TokenKind::Identifier(n)) => (n@, p + 1),
        _ => (Seq::empty(), p),
    }
}

/// `receiver:method(...)`; the token at `p` is `:`.
pub open spec fn method_spec(ts: Seq<Token>, p: int, d: Seq<DiagnosticView>, receiver: ExprView) -> (
    ExprView,
    int,
    Seq<DiagnosticView>,
)
    decreases rem(ts, p), 15nat,
{
    if p < 0 || p >= ts.len() {
        (receiver, p, d)
    } else {
        let start = receiver.span.start;
        let file = receiver.span.file_id;
        let (name, p2) = name_at(ts, p + 1);
        let a: (Seq<ExprView>, int, Seq<DiagnosticView>) = if kind_at(ts, p2) == Some(TokenKind::LeftParen) {
            let r = args_spec(ts, p2 + 1, d, seq![]);
            (r.0, if kind_at(ts, r.1) == Some(TokenKind::RightParen) {
                r.1 + 1
            } else {
                r.1
            }, r.2)
        } else if is_string_token(kind_at(ts, p2)) {
            let r = prefix_spec(ts, p2, d);
            (seq![r.0], r.1, r.2)
        } else if kind_at(ts, p2) == Some(TokenKind::LeftBrace) {
            let r = table_spec(ts, p2, d);
            (seq![r.0], r.1, r.2)
        } else {
            (seq![], p2, d)
        };
        let end = if a.0.len() > 0 {
            a.0[a.0.len() - 1].span.end
        } else {
            name_end(start, name)
        };
        (
            ExprView {
                kind: ExprKindView::MethodCall { receiver: Box::new(receiver), method: name, arguments: a.0 },
                span: SourceSpan { file_id: file, start, end },
            },
            a.1,
            a.2,
        )
    }
}

/// `object.property`; the token at `p` is `.`.
pub open spec fn member_spec(ts: Seq<Token>, p: int, d: Seq<DiagnosticView>, object: ExprView) -> (
    ExprView,
    int,
    Seq<DiagnosticView>,
)
    decreases rem(ts, p), 15nat,
{
    if p < 0 || p >= ts.len() {
        (object, p, d)
    } else {
        let start = object.span.start;
        let (name, p2) = name_at(ts, p + 1);
        let end = match tok(ts, p2) {
            Some(t) => t.span.end,
            None => name_end(start, name),
        };
        (
            ExprView {
                kind: ExprKindView::MemberAccess { object: Box::new(object), property: name },
                span: SourceSpan { file_id: object.span.file_id, start, end },
            },
            p2,
            d,
        )
    }
}

/// `object[index]`; the token at `p` is `[`.
pub open spec fn index_spec(ts: Seq<Token>, p: int, d: Seq<DiagnosticView>, object: ExprView) -> (
    ExprView,
    int,
    Seq<DiagnosticView>,
)
    decreases rem(ts, p), 15nat,
{
    if p < 0 || p >= ts.len() {
        (object, p, d)
    } else {
        let start = object.span.start;
        let r = expr_spec(ts, p + 1, d);
        let end = match tok(ts, r.1) {
            Some(t) => t.span.end,
            None => start,
        };
        (
            ExprView {
                kind: ExprKindView::Index { object: Box::new(object), index: Box::new(r.0) },
                span: SourceSpan { file_id: object.span.file_id, start, end },
            },
            if kind_at(ts, r.1) == Some(TokenKind::RightBracket) {
                r.1 + 1
            } else {
                r.1
            },
            r.2,
        )
    }
}

/// One entry of a table constructor at `p`.
pub open spec fn field_spec(ts: Seq<Token>, p: int, d: Seq<DiagnosticView>) -> (FieldView, int, Seq<DiagnosticView>)
    decreases rem(ts, p), 21nat,
{
    match kind_at(ts, p) {
        Some(TokenKind::Identifier(n)) => if kind_at(ts, p + 1) == Some(TokenKind::Equal) {
            let r = expr_spec(ts, p + 2, d);
            (FieldView::Named { key: n@, value: r.0 }, r.1, r.2)
        } else {
            let r = expr_spec(ts, p, d);
            (FieldView::Expression(r.0), r.1, r.2)
        },
        Some(TokenKind::LeftBracket) => {
            let k = expr_spec(ts, p + 1, d);
            let (p3, d3) = if kind_at(ts, k.1) == Some(TokenKind::RightBracket) {
                (k.1 + 1, k.2)
            } else {
                (k.1, k.2.push(error_help_view("Expected ']' after table index"@, k.0.span, "Insert ']' here"@)))
            };
            if fits(ts, p + 1, k.1) && kind_at(ts, p3) == Some(TokenKind::Equal) {
                let v = expr_spec(ts, p3 + 1, d3);
                (FieldView::Indexed { key: k.0, value: v.0 }, v.1, v.2)
            } else {
                (FieldView::Expression(k.0), p3, d3)
            }
        },
        _ => {
            let r = expr_spec(ts, p, d);
            (FieldView::Expression(r.0), r.1, r.2)
        },
    }
}

/// Table entries separated by `,` or `;` up to `}` or the end, after `acc`.
pub open spec fn fields_spec(ts: Seq<Token>, p: int, d: Seq<DiagnosticView>, acc: Seq<FieldView>) -> (
    Seq<FieldView>,
    int,
    Seq<DiagnosticView>,
)
    decreases rem(ts, p), 22nat,
{
    if kind_at(ts, p) == Some(TokenKind::RightBrace) || kind_at(ts, p) == Some(TokenKind::EOF) {
        (acc, p, d)
    } else {
        let f = field_spec(ts, p, d);
        let acc2 = acc.push(f.0);
        if fits(ts, p, f.1) && (kind_at(ts, f.1) == Some(TokenKind::Comma) || kind_at(ts, f.1) == Some(
            TokenKind::Semicolon,
        )) {
            fields_spec(ts, f.1 + 1, f.2, acc2)
        } else {
            (acc2, f.1, f.2)
        }
    }
}

/// `{ entries }`; the token at `p` is `{`.
pub open spec fn table_spec(ts: Seq<Token>, p: int, d: Seq<DiagnosticView>) -> (ExprView, int, Seq<DiagnosticView>)
    decreases rem(ts, p), 15nat,
{
    if p < 0 || p >= ts.len() {
        (ExprView { kind: ExprKindView::Error, span: span_at(ts, p) }, p, d)
    } else {
        let start = ts[p].span.start;
        let file = ts[p].span.file_id;
        let f = fields_spec(ts, p + 1, d, seq![]);
        let end = match tok(ts, f.1) {
            Some(t) => t.span.end,
            None => start,
        };
        let e = ExprView { kind: ExprKindView::TableConstructor(f.0), span: SourceSpan { file_id: file, start, end } };
        if kind_at(ts, f.1) == Some(TokenKind::RightBrace) {
            (e, f.1 + 1, f.2)
        } else {
            (
                e,
                f.1,
                f.2.push(
                    error_help_view(
                        "Expected '}' to close table constructor"@,
                        SourceSpan { file_id: file, start, end },
                        "Insert '}' here"@,
                    ),
                ),
            )
        }
    }
}

} // verus!
