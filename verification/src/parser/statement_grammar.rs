//! The statement and type grammar as spec functions over the token
//! sequence, in the style of the expression grammar: each rule takes the
//! tokens, a position and the diagnostics so far, and gives what it reads
//! (as a view), the position after it and the diagnostics after it.
use vstd::prelude::*;

use crate::diagnostics::DiagnosticView;
use crate::lexer::{Token, TokenKind};
use crate::parser::ast_builder::{Program, Statement, StatementKind, TypeExpression, TypeExpressionKind};
use crate::parser::grammar::{
    adv, error_help_view, error_view, expr_spec, exprs_view, fits, kind_at, op_text, rem, span_at,
    sync_expr, tok, ExprView,
};
use crate::parser::recovery::{spec_can_start_type, spec_is_statement_boundary, spec_is_synchronization_token};
use crate::source::{FileId, SourceSpan};

verus! {

/// A type annotation with its texts as character sequences.
pub struct TypeView {
    pub kind: TypeKindView,
    pub span: SourceSpan,
}

/// The kinds of `TypeView`, as those of `TypeExpression`.
pub enum TypeKindView {
    Named(Seq<char>),
    Union(Seq<TypeView>),
    Intersection(Seq<TypeView>),
    Optional(Box<TypeView>),
    Parenthesized(Box<TypeView>),
    Tuple(Seq<TypeView>),
    Function { params: Seq<TypeView>, return_type: Box<TypeView> },
    Table(Seq<(Seq<char>, TypeView, SourceSpan)>),
    Array(Box<TypeView>),
    Variadic(Box<TypeView>),
}

/// A statement with its texts as character sequences.
pub struct StmtView {
    pub kind: StmtKindView,
    pub span: SourceSpan,
}

/// The kinds of `StmtView`, as those of `Statement`.
pub enum StmtKindView {
    Empty,
    Expression(ExprView),
    Return(Option<Seq<ExprView>>),
    Local { names: Seq<(Seq<char>, Option<TypeView>)>, initializers: Seq<ExprView> },
    Assignment { targets: Seq<ExprView>, values: Seq<ExprView>, operator: Seq<char> },
    Function {
        name: Seq<char>,
        receiver: Option<Seq<char>>,
        params: Seq<(Seq<char>, Option<TypeView>)>,
        return_type: Option<TypeView>,
        body: Seq<StmtView>,
        is_local: bool,
    },
    TypeAlias { name: Seq<char>, alias: TypeView },
    Break,
    Continue,
    Error,
}

/// A whole program: its statements and its span.
pub struct ProgramView {
    pub statements: Seq<StmtView>,
    pub span: SourceSpan,
}

// ---------------------------------------------------------------------------
// Views
// ---------------------------------------------------------------------------

/// The view of a type annotation.
pub open spec fn type_view(t: TypeExpression) -> TypeView
    decreases t,
{
    TypeView {
        kind: match t.kind {
            TypeExpressionKind::Named(s) => TypeKindView::Named(s@),
            TypeExpressionKind::Union(ts) => TypeKindView::Union(types_view(ts@)),
            TypeExpressionKind::Intersection(ts) => TypeKindView::Intersection(types_view(ts@)),
            TypeExpressionKind::Optional(b) => TypeKindView::Optional(Box::new(type_view(*b))),
            TypeExpressionKind::Parenthesized(b) => TypeKindView::Parenthesized(Box::new(type_view(*b))),
            TypeExpressionKind::Tuple(ts) => TypeKindView::Tuple(types_view(ts@)),
            TypeExpressionKind::Function { params, return_type } => TypeKindView::Function {
                params: types_view(params@),
                return_type: Box::new(type_view(*return_type)),
            },
            TypeExpressionKind::Table(fs) => TypeKindView::Table(type_fields_view(fs@)),
            TypeExpressionKind::Array(b) => TypeKindView::Array(Box::new(type_view(*b))),
            TypeExpressionKind::Variadic(b) => TypeKindView::Variadic(Box::new(type_view(*b))),
        },
        span: t.span,
    }
}

/// The views of a run of type annotations.
pub open spec fn types_view(ts: Seq<TypeExpression>) -> Seq<TypeView>
    decreases ts,
{
    if ts.len() == 0 {
        seq![]
    } else {
        types_view(ts.drop_last()).push(type_view(ts[ts.len() - 1]))
    }
}

/// The view of a field of a table type.
pub open spec fn type_field_view(f: (String, TypeExpression, SourceSpan)) -> (Seq<char>, TypeView, SourceSpan)
    decreases f,
{
    (f.0@, type_view(f.1), f.2)
}

/// The views of the fields of a table type.
pub open spec fn type_fields_view(fs: Seq<(String, TypeExpression, SourceSpan)>) -> Seq<(Seq<char>, TypeView, SourceSpan)>
    decreases fs,
{
    if fs.len() == 0 {
        seq![]
    } else {
        type_fields_view(fs.drop_last()).push(type_field_view(fs[fs.len() - 1]))
    }
}

/// The view of an optional type annotation.
pub open spec fn opt_type_view(t: Option<TypeExpression>) -> Option<TypeView> {
    match t {
        Some(t) => Some(type_view(t)),
        None => None,
    }
}

/// The view of a name with an optional annotation.
pub open spec fn binding_view(b: (String, Option<TypeExpression>)) -> (Seq<char>, Option<TypeView>) {
    (b.0@, opt_type_view(b.1))
}

/// The views of names with optional annotations.
pub open spec fn bindings_view(bs: Seq<(String, Option<TypeExpression>)>) -> Seq<(Seq<char>, Option<TypeView>)>
    decreases bs.len(),
{
    if bs.len() == 0 {
        seq![]
    } else {
        bindings_view(bs.drop_last()).push(binding_view(bs[bs.len() - 1]))
    }
}

/// The view of a statement.
pub open spec fn stmt_view(s: Statement) -> StmtView
    decreases s,
{
    StmtView {
        kind: match s.kind {
            StatementKind::Empty => StmtKindView::Empty,
            StatementKind::Expression(e) => StmtKindView::Expression(e@),
            StatementKind::Return(vs) => StmtKindView::Return(
                match vs {
                    Some(vs) => Some(exprs_view(vs@)),
                    None => None,
                },
            ),
            StatementKind::Local { names, initializers } => StmtKindView::Local {
                names: bindings_view(names@),
                initializers: exprs_view(initializers@),
            },
            StatementKind::Assignment { targets, values, operator } => StmtKindView::Assignment {
                targets: exprs_view(targets@),
                values: exprs_view(values@),
                operator: operator@,
            },
            StatementKind::Function { name, receiver, params, return_type, body, is_local } => StmtKindView::Function {
                name: name@,
                receiver: match receiver {
                    Some(r) => Some(r@),
                    None => None,
                },
                params: bindings_view(params@),
                return_type: opt_type_view(return_type),
                body: stmts_view(body@),
                is_local,
            },
            StatementKind::TypeAlias { name, alias } => StmtKindView::TypeAlias {
                name: name@,
                alias: type_view(alias),
            },
            StatementKind::Break => StmtKindView::Break,
            StatementKind::Continue => StmtKindView::Continue,
            StatementKind::Error => StmtKindView::Error,
        },
        span: s.span,
    }
}

/// The views of a run of statements.
pub open spec fn stmts_view(ss: Seq<Statement>) -> Seq<StmtView>
    decreases ss,
{
    if ss.len() == 0 {
        seq![]
    } else {
        stmts_view(ss.drop_last()).push(stmt_view(ss[ss.len() - 1]))
    }
}

/// The view of a program.
pub open spec fn program_view(p: Program) -> ProgramView {
    ProgramView { statements: stmts_view(p.statements@), span: p.span }
}

impl View for TypeExpression {
    type V = TypeView;

    open spec fn view(&self) -> TypeView {
        type_view(*self)
    }
}

impl View for Statement {
    type V = StmtView;

    open spec fn view(&self) -> StmtView {
        stmt_view(*self)
    }
}

pub proof fn lemma_types_view_push(s: Seq<TypeExpression>, t: TypeExpression)
    ensures
        types_view(s.push(t)) == types_view(s).push(type_view(t)),
{
    assert(s.push(t).drop_last() =~= s);
}

pub proof fn lemma_type_fields_view_push(s: Seq<(String, TypeExpression, SourceSpan)>, f: (String, TypeExpression, SourceSpan))
    ensures
        type_fields_view(s.push(f)) == type_fields_view(s).push(type_field_view(f)),
{
    assert(s.push(f).drop_last() =~= s);
}

pub proof fn lemma_bindings_view_push(s: Seq<(String, Option<TypeExpression>)>, b: (String, Option<TypeExpression>))
    ensures
        bindings_view(s.push(b)) == bindings_view(s).push(binding_view(b)),
{
    assert(s.push(b).drop_last() =~= s);
}

pub proof fn lemma_stmts_view_push(s: Seq<Statement>, t: Statement)
    ensures
        stmts_view(s.push(t)) == stmts_view(s).push(stmt_view(t)),
{
    assert(s.push(t).drop_last() =~= s);
}

/// The views of a run of type annotations are those of its elements.
pub proof fn lemma_types_view_len(s: Seq<TypeExpression>)
    ensures
        types_view(s).len() == s.len(),
        forall|i: int| 0 <= i < s.len() ==> #[trigger] types_view(s)[i] == type_view(s[i]),
    decreases s.len(),
{
    if s.len() > 0 {
        lemma_types_view_len(s.drop_last());
    }
}

/// The views of a run of statements are those of its elements.
pub proof fn lemma_stmts_view_len(s: Seq<Statement>)
    ensures
        stmts_view(s).len() == s.len(),
        forall|i: int| 0 <= i < s.len() ==> #[trigger] stmts_view(s)[i] == stmt_view(s[i]),
    decreases s.len(),
{
    if s.len() > 0 {
        lemma_stmts_view_len(s.drop_last());
    }
}

// ---------------------------------------------------------------------------
// Recovery
// ---------------------------------------------------------------------------

/// The position after skipping to a statement boundary or a
/// synchronization token.
pub open spec fn sync_stmt(ts: Seq<Token>, p: int) -> int
    decreases rem(ts, p),
{
    if 0 <= p < ts.len() && !(spec_is_statement_boundary(ts[p].kind) || spec_is_synchronization_token(ts[p].kind)) {
        sync_stmt(ts, p + 1)
    } else {
        p
    }
}

/// Whether a token is an identifier.
pub open spec fn is_ident(k: Option<TokenKind>) -> bool {
    match k {
        Some(TokenKind::Identifier(_)) => true,
        _ => false,
    }
}

/// The span with no source position.
pub open spec fn no_span() -> SourceSpan {
    SourceSpan { file_id: FileId(0), start: 0, end: 0 }
}

/// The end of the token at `p`, or `dflt` at the end of the tokens.
pub open spec fn end_at(ts: Seq<Token>, p: int, dflt: usize) -> usize {
    match tok(ts, p) {
        Some(t) => t.span.end,
        None => dflt,
    }
}

/// The file of the token at `p`, or file 0 at the end of the tokens.
pub open spec fn file_at(ts: Seq<Token>, p: int) -> FileId {
    match tok(ts, p) {
        Some(t) => t.span.file_id,
        None => FileId(0),
    }
}

// ---------------------------------------------------------------------------
// Types
// ---------------------------------------------------------------------------

/// A type annotation.
pub open spec fn type_spec(ts: Seq<Token>, p: int, d: Seq<DiagnosticView>) -> (TypeView, int, Seq<DiagnosticView>)
    decreases rem(ts, p), 20nat,
{
    union_spec(ts, p, d)
}

/// Types separated by `|`; a single one stands alone.
pub open spec fn union_spec(ts: Seq<Token>, p: int, d: Seq<DiagnosticView>) -> (TypeView, int, Seq<DiagnosticView>)
    decreases rem(ts, p), 19nat,
{
    let f = inter_spec(ts, p, d);
    if !fits(ts, p, f.1) {
        f
    } else {
        let l = union_loop(ts, f.1, f.2, seq![f.0]);
        if l.0.len() == 1 {
            (l.0[0], l.1, l.2)
        } else {
            (TypeView { kind: TypeKindView::Union(l.0), span: span_at(ts, l.1) }, l.1, l.2)
        }
    }
}

/// The `| type` continuations after `acc`.
pub open spec fn union_loop(ts: Seq<Token>, p: int, d: Seq<DiagnosticView>, acc: Seq<TypeView>) -> (
    Seq<TypeView>,
    int,
    Seq<DiagnosticView>,
)
    decreases rem(ts, p), 18nat,
{
    if kind_at(ts, p) == Some(TokenKind::Pipe) {
        let r = inter_spec(ts, p + 1, d);
        if fits(ts, p + 1, r.1) {
            union_loop(ts, r.1, r.2, acc.push(r.0))
        } else {
            (acc.push(r.0), r.1, r.2)
        }
    } else {
        (acc, p, d)
    }
}

/// Types separated by `&`; a single one stands alone.
pub open spec fn inter_spec(ts: Seq<Token>, p: int, d: Seq<DiagnosticView>) -> (TypeView, int, Seq<DiagnosticView>)
    decreases rem(ts, p), 17nat,
{
    let f = optional_spec(ts, p, d);
    if !fits(ts, p, f.1) {
        f
    } else {
        let l = inter_loop(ts, f.1, f.2, seq![f.0]);
        if l.0.len() == 1 {
            (l.0[0], l.1, l.2)
        } else {
            (TypeView { kind: TypeKindView::Intersection(l.0), span: span_at(ts, l.1) }, l.1, l.2)
        }
    }
}

/// The `& type` continuations after `acc`.
pub open spec fn inter_loop(ts: Seq<Token>, p: int, d: Seq<DiagnosticView>, acc: Seq<TypeView>) -> (
    Seq<TypeView>,
    int,
    Seq<DiagnosticView>,
)
    decreases rem(ts, p), 16nat,
{
    if kind_at(ts, p) == Some(TokenKind::Ampersand) {
        let r = optional_spec(ts, p + 1, d);
        if fits(ts, p + 1, r.1) {
            inter_loop(ts, r.1, r.2, acc.push(r.0))
        } else {
            (acc.push(r.0), r.1, r.2)
        }
    } else {
        (acc, p, d)
    }
}

/// A primary type followed by any number of `?`.
pub open spec fn optional_spec(ts: Seq<Token>, p: int, d: Seq<DiagnosticView>) -> (TypeView, int, Seq<DiagnosticView>)
    decreases rem(ts, p), 15nat,
{
    let r = primary_type_spec(ts, p, d);
    (optional_loop(ts, r.1, r.0), optional_end(ts, r.1), r.2)
}

/// The type `t` wrapped once for each `?` from `p` on.
pub open spec fn optional_loop(ts: Seq<Token>, p: int, t: TypeView) -> TypeView
    decreases rem(ts, p),
{
    if kind_at(ts, p) == Some(TokenKind::Question) {
        let wrapped = TypeView {
            kind: TypeKindView::Optional(Box::new(t)),
            span: SourceSpan { file_id: t.span.file_id, start: t.span.start, end: end_at(ts, p + 1, t.span.end) },
        };
        optional_loop(ts, p + 1, wrapped)
    } else {
        t
    }
}

/// The position after the `?` from `p` on.
pub open spec fn optional_end(ts: Seq<Token>, p: int) -> int
    decreases rem(ts, p),
{
    if kind_at(ts, p) == Some(TokenKind::Question) {
        optional_end(ts, p + 1)
    } else {
        p
    }
}

/// A parenthesised, table, array, variadic or named type; any other token
/// is skipped as a type with an empty name.
pub open spec fn primary_type_spec(ts: Seq<Token>, p: int, d: Seq<DiagnosticView>) -> (TypeView, int, Seq<DiagnosticView>)
    decreases rem(ts, p), 14nat,
{
    match kind_at(ts, p) {
        Some(TokenKind::LeftParen) => paren_type_spec(ts, p, d),
        Some(TokenKind::LeftBrace) => table_type_spec(ts, p, d),
        Some(TokenKind::DotDotDot) => {
            let r = type_spec(ts, p + 1, d);
            (
                TypeView {
                    kind: TypeKindView::Variadic(Box::new(r.0)),
                    span: SourceSpan { file_id: r.0.span.file_id, start: ts[p].span.start, end: r.0.span.end },
                },
                r.1,
                r.2,
            )
        },
        Some(TokenKind::Identifier(n)) => (TypeView { kind: TypeKindView::Named(n@), span: ts[p].span }, p + 1, d),
        Some(TokenKind::Any) => (TypeView { kind: TypeKindView::Named("any"@), span: ts[p].span }, p + 1, d),
        Some(TokenKind::Never) => (TypeView { kind: TypeKindView::Named("never"@), span: ts[p].span }, p + 1, d),
        Some(TokenKind::Nil) => (TypeView { kind: TypeKindView::Named("nil"@), span: ts[p].span }, p + 1, d),
        _ => (TypeView { kind: TypeKindView::Named(Seq::empty()), span: span_at(ts, p) }, adv(ts, p), d),
    }
}

/// Types separated by commas up to `)` or the end, after `acc`.
pub open spec fn type_list_spec(ts: Seq<Token>, p: int, d: Seq<DiagnosticView>, acc: Seq<TypeView>) -> (
    Seq<TypeView>,
    int,
    Seq<DiagnosticView>,
)
    decreases rem(ts, p), 21nat,
{
    if kind_at(ts, p) == Some(TokenKind::RightParen) || kind_at(ts, p) == Some(TokenKind::EOF) {
        (acc, p, d)
    } else {
        let r = type_spec(ts, p, d);
        if fits(ts, p, r.1) && kind_at(ts, r.1) == Some(TokenKind::Comma) {
            type_list_spec(ts, r.1 + 1, r.2, acc.push(r.0))
        } else {
            (acc.push(r.0), r.1, r.2)
        }
    }
}

/// `( types )`, optionally followed by `-> type`; the token at `p` is `(`.
pub open spec fn paren_type_spec(ts: Seq<Token>, p: int, d: Seq<DiagnosticView>) -> (TypeView, int, Seq<DiagnosticView>)
    decreases rem(ts, p), 13nat,
{
    if p < 0 || p >= ts.len() {
        (TypeView { kind: TypeKindView::Named(Seq::empty()), span: span_at(ts, p) }, p, d)
    } else {
        let start = ts[p].span.start;
        let l = type_list_spec(ts, p + 1, d, seq![]);
        let q = if kind_at(ts, l.1) == Some(TokenKind::RightParen) {
            l.1 + 1
        } else {
            l.1
        };
        let end = end_at(ts, q, start);
        let inner = if l.0.len() == 1 {
            TypeView {
                kind: TypeKindView::Parenthesized(Box::new(l.0[0])),
                span: SourceSpan { file_id: l.0[0].span.file_id, start, end },
            }
        } else {
            TypeView { kind: TypeKindView::Tuple(l.0), span: SourceSpan { file_id: file_at(ts, q), start, end } }
        };
        if kind_at(ts, q) == Some(TokenKind::Arrow) && p < q {
            let r = type_spec(ts, q + 1, l.2);
            (
                TypeView {
                    kind: TypeKindView::Function { params: l.0, return_type: Box::new(r.0) },
                    span: SourceSpan { file_id: r.0.span.file_id, start, end: r.0.span.end },
                },
                r.1,
                r.2,
            )
        } else {
            (inner, q, l.2)
        }
    }
}

/// The fields `name: type` of a table type, separated by commas, after
/// `acc`.
pub open spec fn type_fields_spec(ts: Seq<Token>, p: int, d: Seq<DiagnosticView>, acc: Seq<(Seq<char>, TypeView, SourceSpan)>) -> (
    Seq<(Seq<char>, TypeView, SourceSpan)>,
    int,
    Seq<DiagnosticView>,
)
    decreases rem(ts, p), 21nat,
{
    if kind_at(ts, p) == Some(TokenKind::RightBrace) || kind_at(ts, p) == Some(TokenKind::EOF) {
        (acc, p, d)
    } else {
        match kind_at(ts, p) {
            Some(TokenKind::Identifier(n)) => {
                let r = type_spec(ts, adv(ts, p + 1), d);
                let field = (n@, r.0, SourceSpan { file_id: r.0.span.file_id, start: ts[p].span.start, end: r.0.span.end });
                if fits(ts, p + 1, r.1) && kind_at(ts, r.1) == Some(TokenKind::Comma) {
                    type_fields_spec(ts, r.1 + 1, r.2, acc.push(field))
                } else {
                    (acc.push(field), r.1, r.2)
                }
            },
            _ => (acc, p, d),
        }
    }
}

/// `{}`, `{ name: type, ... }` or `{ type }`; the token at `p` is `{`.
pub open spec fn table_type_spec(ts: Seq<Token>, p: int, d: Seq<DiagnosticView>) -> (TypeView, int, Seq<DiagnosticView>)
    decreases rem(ts, p), 13nat,
{
    if p < 0 || p >= ts.len() {
        (TypeView { kind: TypeKindView::Named(Seq::empty()), span: span_at(ts, p) }, p, d)
    } else {
        let start = ts[p].span.start;
        let q = p + 1;
        if kind_at(ts, q) == Some(TokenKind::RightBrace) {
            let q2 = q + 1;
            (
                TypeView {
                    kind: TypeKindView::Table(seq![]),
                    span: SourceSpan { file_id: file_at(ts, q2), start, end: end_at(ts, q2, start) },
                },
                q2,
                d,
            )
        } else if is_ident(kind_at(ts, q)) && kind_at(ts, q + 1) == Some(
            TokenKind::Colon,
        ) {
            let l = type_fields_spec(ts, q, d, seq![]);
            let q2 = if kind_at(ts, l.1) == Some(TokenKind::RightBrace) {
                l.1 + 1
            } else {
                l.1
            };
            (
                TypeView {
                    kind: TypeKindView::Table(l.0),
                    span: SourceSpan { file_id: file_at(ts, q2), start, end: end_at(ts, q2, start) },
                },
                q2,
                l.2,
            )
        } else {
            let r = type_spec(ts, q, d);
            let q2 = if kind_at(ts, r.1) == Some(TokenKind::RightBrace) {
                r.1 + 1
            } else {
                r.1
            };
            (
                TypeView {
                    kind: TypeKindView::Array(Box::new(r.0)),
                    span: SourceSpan { file_id: file_at(ts, q2), start, end: end_at(ts, q2, start) },
                },
                q2,
                r.2,
            )
        }
    }
}

/// An optional `: type` annotation at `p`.
pub open spec fn annotation_spec(ts: Seq<Token>, p: int, d: Seq<DiagnosticView>) -> (Option<TypeView>, int, Seq<DiagnosticView>) {
    if kind_at(ts, p) == Some(TokenKind::Colon) {
        let q = p + 1;
        let starts = match kind_at(ts, q) {
            Some(k) => spec_can_start_type(k),
            None => false,
        };
        if !starts {
            (None, q, d.push(error_help_view("Expected type after ':'"@, span_at(ts, q), "Add a type annotation after ':'"@)))
        } else {
            let r = type_spec(ts, q, d);
            (Some(r.0), r.1, r.2)
        }
    } else {
        (None, p, d)
    }
}

// ---------------------------------------------------------------------------
// Statements
// ---------------------------------------------------------------------------

/// The `, expression` continuations after `acc`.
pub open spec fn expr_list_loop(ts: Seq<Token>, p: int, d: Seq<DiagnosticView>, acc: Seq<ExprView>) -> (
    Seq<ExprView>,
    int,
    Seq<DiagnosticView>,
)
    decreases rem(ts, p),
{
    if kind_at(ts, p) == Some(TokenKind::Comma) {
        let r = expr_spec(ts, p + 1, d);
        if fits(ts, p + 1, r.1) {
            expr_list_loop(ts, r.1, r.2, acc.push(r.0))
        } else {
            (acc.push(r.0), r.1, r.2)
        }
    } else {
        (acc, p, d)
    }
}

/// Expressions separated by commas.
pub open spec fn expr_list_spec(ts: Seq<Token>, p: int, d: Seq<DiagnosticView>) -> (Seq<ExprView>, int, Seq<DiagnosticView>) {
    let r = expr_spec(ts, p, d);
    expr_list_loop(ts, r.1, r.2, seq![r.0])
}

/// The span of the last expression of `es`, or `dflt` when there is none.
pub open spec fn last_span(es: Seq<ExprView>, dflt: SourceSpan) -> SourceSpan {
    if es.len() > 0 {
        es[es.len() - 1].span
    } else {
        dflt
    }
}

/// Names with optional annotations separated by commas, after `acc`.
pub open spec fn names_spec(ts: Seq<Token>, p: int, d: Seq<DiagnosticView>, acc: Seq<(Seq<char>, Option<TypeView>)>) -> (
    Seq<(Seq<char>, Option<TypeView>)>,
    int,
    Seq<DiagnosticView>,
)
    decreases rem(ts, p),
{
    match kind_at(ts, p) {
        Some(TokenKind::Identifier(n)) => {
            let a = annotation_spec(ts, p + 1, d);
            let acc2 = acc.push((n@, a.0));
            if fits(ts, p + 1, a.1) && kind_at(ts, a.1) == Some(TokenKind::Comma) {
                names_spec(ts, a.1 + 1, a.2, acc2)
            } else {
                (acc2, a.1, a.2)
            }
        },
        _ => (acc, p, d),
    }
}

/// `local names [= expressions]`; the token at `p` is `local`.
pub open spec fn local_spec(ts: Seq<Token>, p: int, d: Seq<DiagnosticView>) -> (StmtView, int, Seq<DiagnosticView>) {
    let q = adv(ts, p);
    if !(is_ident(kind_at(ts, q))) {
        let span = span_at(ts, q);
        (
            StmtView { kind: StmtKindView::Error, span },
            sync_stmt(ts, q),
            d.push(error_view("Expected identifier after 'local'"@, span)),
        )
    } else {
        let n = names_spec(ts, q, d, seq![]);
        let i: (Seq<ExprView>, int, Seq<DiagnosticView>) = if kind_at(ts, n.1) == Some(TokenKind::Equal) {
            expr_list_spec(ts, n.1 + 1, n.2)
        } else {
            (seq![], n.1, n.2)
        };
        (
            StmtView {
                kind: StmtKindView::Local { names: n.0, initializers: i.0 },
                span: last_span(i.0, span_at(ts, i.1)),
            },
            i.1,
            i.2,
        )
    }
}

/// `return [expressions]`; the token at `p` is `return`.
pub open spec fn return_spec(ts: Seq<Token>, p: int, d: Seq<DiagnosticView>) -> (StmtView, int, Seq<DiagnosticView>) {
    let q = adv(ts, p);
    let v: (Seq<ExprView>, int, Seq<DiagnosticView>) = if kind_at(ts, q) == Some(TokenKind::Semicolon) || kind_at(ts, q)
        == Some(TokenKind::EOF) {
        (seq![], q, d)
    } else {
        expr_list_spec(ts, q, d)
    };
    (StmtView { kind: StmtKindView::Return(Some(v.0)), span: last_span(v.0, span_at(ts, v.1)) }, v.1, v.2)
}

/// Whether a token is `=` or a compound assignment operator.
pub open spec fn is_assign_op(k: Option<TokenKind>) -> bool {
    match k {
        Some(TokenKind::Equal) => true,
        Some(TokenKind::PlusEqual) => true,
        Some(TokenKind::MinusEqual) => true,
        Some(TokenKind::StarEqual) => true,
        Some(TokenKind::SlashEqual) => true,
        Some(TokenKind::PercentEqual) => true,
        Some(TokenKind::AmpersandEqual) => true,
        Some(TokenKind::PipeEqual) => true,
        _ => false,
    }
}

/// An assignment `targets op values`, or an expression statement (of the
/// last expression read).
pub open spec fn assign_spec(ts: Seq<Token>, p: int, d: Seq<DiagnosticView>) -> (StmtView, int, Seq<DiagnosticView>) {
    let t = expr_list_spec(ts, p, d);
    let k = kind_at(ts, t.1);
    if is_assign_op(k) {
        let v = expr_list_spec(ts, t.1 + 1, t.2);
        (
            StmtView {
                kind: StmtKindView::Assignment { targets: t.0, values: v.0, operator: match k {
                    Some(kk) => op_text(kk),
                    None => Seq::empty(),
                } },
                span: last_span(v.0, t.0[t.0.len() - 1].span),
            },
            v.1,
            v.2,
        )
    } else {
        let last = t.0[t.0.len() - 1];
        (StmtView { kind: StmtKindView::Expression(last), span: last.span }, t.1, t.2)
    }
}

/// Parameters separated by commas up to `)` or the end, after `acc`.
pub open spec fn params_spec(ts: Seq<Token>, p: int, d: Seq<DiagnosticView>, acc: Seq<(Seq<char>, Option<TypeView>)>) -> (
    Seq<(Seq<char>, Option<TypeView>)>,
    int,
    Seq<DiagnosticView>,
)
    decreases rem(ts, p),
{
    if kind_at(ts, p) == Some(TokenKind::RightParen) || kind_at(ts, p) == Some(TokenKind::EOF) {
        (acc, p, d)
    } else {
        match kind_at(ts, p) {
            Some(TokenKind::Identifier(n)) => {
                let a = annotation_spec(ts, p + 1, d);
                let acc2 = acc.push((n@, a.0));
                if fits(ts, p + 1, a.1) && kind_at(ts, a.1) == Some(TokenKind::Comma) {
                    params_spec(ts, a.1 + 1, a.2, acc2)
                } else {
                    (acc2, a.1, a.2)
                }
            },
            _ => (acc, sync_expr(ts, p), d.push(error_view("Expected parameter name"@, span_at(ts, p)))),
        }
    }
}

/// An optional parenthesised parameter list.
pub open spec fn param_list_spec(ts: Seq<Token>, p: int, d: Seq<DiagnosticView>) -> (
    Seq<(Seq<char>, Option<TypeView>)>,
    int,
    Seq<DiagnosticView>,
) {
    if kind_at(ts, p) == Some(TokenKind::LeftParen) {
        let l = params_spec(ts, p + 1, d, seq![]);
        if kind_at(ts, l.1) == Some(TokenKind::RightParen) {
            (l.0, l.1 + 1, l.2)
        } else {
            (
                l.0,
                l.1,
                l.2.push(error_help_view("Expected ')' after parameter list"@, span_at(ts, l.1), "Insert ')' here"@)),
            )
        }
    } else {
        (seq![], p, d)
    }
}

/// The name of a function declaration from `p`: `name`, `name:method`
/// (with `name` as the receiver), or none.
pub open spec fn fn_name_spec(ts: Seq<Token>, p: int) -> (Seq<char>, Option<Seq<char>>, int) {
    match kind_at(ts, p) {
        Some(TokenKind::Identifier(n)) => if kind_at(ts, p + 1) == Some(TokenKind::Colon) {
            match kind_at(ts, p + 2) {
                Some(TokenKind::Identifier(m)) => (m@, Some(n@), p + 3),
                _ => (n@, None, p + 2),
            }
        } else {
            (n@, None, p + 1)
        },
        _ => (Seq::empty(), None, p),
    }
}

/// A statement.
pub open spec fn stmt_spec(ts: Seq<Token>, p: int, d: Seq<DiagnosticView>) -> (StmtView, int, Seq<DiagnosticView>)
    decreases rem(ts, p), 30nat,
{
    match kind_at(ts, p) {
        Some(TokenKind::Local) => if kind_at(ts, p + 1) == Some(TokenKind::Function) {
            fn_decl_spec(ts, p + 1, d, true)
        } else {
            local_spec(ts, p, d)
        },
        Some(TokenKind::Function) => fn_decl_spec(ts, p, d, false),
        Some(TokenKind::Type) => alias_spec(ts, p, d),
        Some(TokenKind::Return) => return_spec(ts, p, d),
        Some(TokenKind::Break) => (StmtView { kind: StmtKindView::Break, span: ts[p].span }, p + 1, d),
        Some(TokenKind::Continue) => (StmtView { kind: StmtKindView::Continue, span: ts[p].span }, p + 1, d),
        _ => assign_spec(ts, p, d),
    }
}

/// `[local] function name(params)[: type] body end`; the token at `p` is
/// `function`, or `local` with `is_local`.
pub open spec fn fn_decl_spec(ts: Seq<Token>, p: int, d: Seq<DiagnosticView>, is_local: bool) -> (
    StmtView,
    int,
    Seq<DiagnosticView>,
)
    decreases rem(ts, p), 25nat,
{
    if p < 0 || p >= ts.len() {
        (StmtView { kind: StmtKindView::Error, span: span_at(ts, p) }, p, d)
    } else {
        let q0 = if is_local {
            adv(ts, p)
        } else {
            p
        };
        let q1 = adv(ts, q0);
        let nm = fn_name_spec(ts, q1);
        let ps = param_list_spec(ts, nm.2, d);
        let rt = annotation_spec(ts, ps.1, ps.2);
        let b = if p < rt.1 {
            block_spec(ts, rt.1, rt.2, seq![])
        } else {
            (seq![], rt.1, rt.2)
        };
        (
            StmtView {
                kind: StmtKindView::Function {
                    name: nm.0,
                    receiver: nm.1,
                    params: ps.0,
                    return_type: rt.0,
                    body: b.0,
                    is_local,
                },
                span: if b.0.len() > 0 {
                    b.0[b.0.len() - 1].span
                } else {
                    no_span()
                },
            },
            b.1,
            b.2,
        )
    }
}

/// Statements up to `end` (which is consumed) or the end of the tokens,
/// after `acc`; a `;` after a statement is skipped.
pub open spec fn block_spec(ts: Seq<Token>, p: int, d: Seq<DiagnosticView>, acc: Seq<StmtView>) -> (
    Seq<StmtView>,
    int,
    Seq<DiagnosticView>,
)
    decreases rem(ts, p), 35nat,
{
    match kind_at(ts, p) {
        None => (acc, p, d),
        Some(TokenKind::End) => (acc, p + 1, d),
        Some(_) => {
            let s = stmt_spec(ts, p, d);
            let q = if kind_at(ts, s.1) == Some(TokenKind::Semicolon) {
                s.1 + 1
            } else {
                s.1
            };
            if p < q <= ts.len() {
                block_spec(ts, q, s.2, acc.push(s.0))
            } else {
                (acc.push(s.0), q, s.2)
            }
        },
    }
}

/// `type name = type`; the token at `p` is `type`.
pub open spec fn alias_spec(ts: Seq<Token>, p: int, d: Seq<DiagnosticView>) -> (StmtView, int, Seq<DiagnosticView>) {
    let q = adv(ts, p);
    let (name, q1) = match kind_at(ts, q) {
        Some(TokenKind::Identifier(n)) => (n@, q + 1),
        _ => (Seq::<char>::empty(), q),
    };
    let a: (TypeView, int, Seq<DiagnosticView>) = if kind_at(ts, q1) == Some(TokenKind::Equal) {
        type_spec(ts, q1 + 1, d)
    } else {
        (TypeView { kind: TypeKindView::Named(Seq::empty()), span: no_span() }, q1, d)
    };
    (StmtView { kind: StmtKindView::TypeAlias { name, alias: a.0 }, span: span_at(ts, a.1) }, a.1, a.2)
}

/// The statements of a program from `p` up to an `EOF` token or the end,
/// after `acc`, with `end`, the end of the program so far; gives the
/// statements and the end.
pub open spec fn program_loop(ts: Seq<Token>, p: int, d: Seq<DiagnosticView>, acc: Seq<StmtView>, end: usize) -> (
    (Seq<StmtView>, usize),
    int,
    Seq<DiagnosticView>,
)
    decreases rem(ts, p),
{
    match tok(ts, p) {
        None => ((acc, end), p, d),
        Some(t) => if t.kind is EOF {
            ((acc, t.span.end), p, d)
        } else {
            let s = stmt_spec(ts, p, d);
            let q = if kind_at(ts, s.1) == Some(TokenKind::Semicolon) {
                s.1 + 1
            } else {
                s.1
            };
            if p < q <= ts.len() {
                program_loop(ts, q, s.2, acc.push(s.0), s.0.span.end)
            } else {
                ((acc.push(s.0), s.0.span.end), q, s.2)
            }
        },
    }
}

/// A whole program: its statements, and the span from the first token's
/// start to the end of the last statement (or of the `EOF` token).
pub open spec fn program_spec(ts: Seq<Token>, p: int, d: Seq<DiagnosticView>) -> (ProgramView, int, Seq<DiagnosticView>) {
    let start: usize = match tok(ts, p) {
        Some(t) => t.span.start,
        None => 0,
    };
    let file = file_at(ts, p);
    let l = program_loop(ts, p, d, seq![], start);
    (ProgramView { statements: l.0.0, span: SourceSpan { file_id: file, start, end: l.0.1 } }, l.1, l.2)
}

} // verus!
