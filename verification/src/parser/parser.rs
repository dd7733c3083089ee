//! A recursive-descent parser from tokens to the syntax tree.
//!
//! Each parsing function is proved to compute exactly its rule of the
//! grammar written as spec functions in `grammar` (expressions) and
//! `statement_grammar` (statements, types and programs): the tree it returns
//! (by its view), the position it stops at and the diagnostics it adds. Each
//! also leaves the cursor inside the token list, only moves it forward, only
//! appends diagnostics, and terminates: it either consumes a token before it
//! calls back into the grammar, or calls a function lower in a fixed
//! ranking of the grammar's rules.
use vstd::prelude::*;

use crate::diagnostics::{Diagnostic, DiagnosticView, Severity};
use crate::lexer::{Token, TokenKind};
use crate::parser::ast_builder::{
    make_program, AstNode, Expression, ExpressionKind, InterpolatedStringPart, Program, Statement,
    StatementKind, TableField, TypeExpression, TypeExpressionKind,
};
use crate::parser::cursor::Cursor;
use crate::parser::grammar::{
    args_spec, brace_scan, call_spec, error_help_view, error_view, exprs_view, field_spec,
    field_view, fields_spec, fields_view, index_spec, interp_parts, interp_scan,
    lemma_exprs_view_len, lemma_exprs_view_push, lemma_fields_view_push, lemma_parts_view_push,
    expr_spec, member_spec, method_spec, name_end, op_text, parts_view, postfix_spec, prec_loop, prec_spec,
    prefix_spec, shorthand_spec, sync_expr, table_spec, trim, trim_hi, trim_lo, unexpected_spec,
};
use crate::parser::statement_grammar::{
    alias_spec, annotation_spec, assign_spec, bindings_view, block_spec, expr_list_loop,
    expr_list_spec, fn_decl_spec, fn_name_spec, inter_loop, inter_spec, lemma_bindings_view_push,
    lemma_stmts_view_len, lemma_stmts_view_push, lemma_type_fields_view_push,
    lemma_types_view_len, lemma_types_view_push, local_spec, names_spec, opt_type_view,
    optional_end, optional_loop, optional_spec, param_list_spec, params_spec, paren_type_spec,
    primary_type_spec, program_loop, program_spec, program_view, return_spec, stmt_spec,
    stmts_view, sync_stmt, table_type_spec, type_fields_spec, type_fields_view, type_list_spec,
    type_spec, types_view, union_loop, union_spec,
};
use crate::parser::precedence::Precedence;
use crate::parser::recovery::{
    can_start_type, is_expression_boundary, is_statement_boundary, is_synchronization_token,
    spec_is_expression_boundary, spec_is_statement_boundary, spec_is_synchronization_token,
    RecoveryState,
};
use crate::source::{FileId, SourceSpan};
use crate::text::{char_is_whitespace, push_char, str_byte_len, to_owned_string};

verus! {

/// Parses a slice of tokens.
pub struct Parser<'a> {
    cursor: Cursor<'a>,
    diagnostics: Vec<Diagnostic>,
    recovery: RecoveryState,
}

/// The span every synthesised node without a source position gets.
pub open spec fn default_span() -> SourceSpan {
    SourceSpan { file_id: FileId(0), start: 0, end: 0 }
}

impl<'a> Parser<'a> {
    /// The tokens being parsed.
    pub closed spec fn tokens(&self) -> Seq<Token> {
        self.cursor.tokens()
    }

    /// The position of the current token.
    pub closed spec fn position(&self) -> int {
        self.cursor.index() as int
    }

    /// The diagnostics reported so far.
    pub closed spec fn diags(&self) -> Seq<DiagnosticView> {
        self.diagnostics@.map_values(|d: Diagnostic| d@)
    }

    /// The parser is not resynchronising after an error.
    pub closed spec fn settled(&self) -> bool {
        !self.recovery.recovering()
    }

    /// The cursor stays within the tokens, and no resynchronisation is
    /// under way between two parsing steps.
    pub open spec fn wf(&self) -> bool {
        self.position() <= self.tokens().len() && self.settled()
    }

    /// The number of tokens not consumed yet.
    pub open spec fn remaining(&self) -> nat {
        if self.position() <= self.tokens().len() {
            (self.tokens().len() - self.position()) as nat
        } else {
            0
        }
    }

    /// `self` is a later state of a parse that was at `prev`: same tokens,
    /// the cursor not moved back, the earlier diagnostics kept.
    pub open spec fn advanced_from(&self, prev: &Self) -> bool {
        &&& prev.wf()
        &&& self.wf()
        &&& self.tokens() == prev.tokens()
        &&& prev.position() <= self.position()
        &&& prev.diags().len() <= self.diags().len()
        &&& forall|i: int| 0 <= i < prev.diags().len() ==> #[trigger] self.diags()[i] == prev.diags()[i]
    }

    /// The position and the diagnostics are those that the grammar rule's
    /// outcome `r` (tree, position, diagnostics) ends with.
    pub open spec fn reached<T>(&self, r: (T, int, Seq<DiagnosticView>)) -> bool {
        self.position() == r.1 && self.diags() == r.2
    }

    /// The current token, if there is one.
    pub open spec fn current_token(&self) -> Option<Token> {
        if 0 <= self.position() < self.tokens().len() {
            Some(self.tokens()[self.position()])
        } else {
            None
        }
    }

    pub fn new(tokens: &'a [Token]) -> (result: Self)
        ensures
            result.wf(),
            result.tokens() == tokens@,
            result.position() == 0,
            result.diags() == Seq::<DiagnosticView>::empty(),
    {
        let result = Self { cursor: Cursor::new(tokens), diagnostics: Vec::new(), recovery: RecoveryState::new() };
        assert(result.diags() =~= Seq::<DiagnosticView>::empty());
        result
    }

    pub fn current(&self) -> (result: Option<&'a Token>)
        ensures
            result matches Some(t) ==> self.current_token() == Some(*t),
            result is None ==> self.current_token() is None,
    {
        self.cursor.current()
    }

    pub fn peek(&self) -> (result: Option<&'a Token>)
        ensures
            0 <= self.position() + 1 < self.tokens().len() ==> result == Some(&self.tokens()[self.position() + 1]),
            !(0 <= self.position() + 1 < self.tokens().len()) ==> result is None,
    {
        self.cursor.peek()
    }

    /// Moves to the next token, unless the end was reached.
    pub fn advance(&mut self)
        requires
            old(self).wf(),
        ensures
            final(self).advanced_from(old(self)),
            final(self).diags() == old(self).diags(),
            final(self).position() == if old(self).position() < old(self).tokens().len() {
                old(self).position() + 1
            } else {
                old(self).position()
            },
    {
        self.cursor.advance();
    }

    pub fn diagnostics(&self) -> (result: &[Diagnostic])
        ensures
            result@.map_values(|d: Diagnostic| d@) == self.diags(),
    {
        self.diagnostics.as_slice()
    }

    /// The kind of the current token.
    fn current_kind(&self) -> (result: Option<&'a TokenKind>)
        ensures
            result matches Some(k) ==> self.current_token() matches Some(t) && t.kind == *k,
            result is None ==> self.current_token() is None,
    {
        match self.cursor.current() {
            Some(t) => Some(&t.kind),
            None => None,
        }
    }

    /// The kind of the token after the current one.
    fn peek_kind(&self) -> (result: Option<&'a TokenKind>)
        ensures
            result matches Some(k) ==> 0 <= self.position() + 1 < self.tokens().len()
                && self.tokens()[self.position() + 1].kind == *k,
            result is None ==> !(0 <= self.position() + 1 < self.tokens().len()),
    {
        match self.cursor.peek() {
            Some(t) => Some(&t.kind),
            None => None,
        }
    }

    /// The span of the current token, or the default span at the end.
    fn current_span(&self) -> (result: SourceSpan)
        ensures
            self.current_token() matches Some(t) ==> result == t.span,
            self.current_token() is None ==> result == default_span(),
    {
        match self.cursor.current() {
            Some(t) => t.span,
            None => SourceSpan::new(FileId::new(0), 0, 0),
        }
    }

    /// An error diagnostic over `span`.
    fn emit_error(&mut self, message: &str, span: SourceSpan)
        requires
            old(self).wf(),
        ensures
            final(self).advanced_from(old(self)),
            final(self).position() == old(self).position(),
            final(self).diags() == old(self).diags().push(error_view(message@, span)),
    {
        self.recovery.increment_error_count();
        let diagnostic = Diagnostic::builder(Severity::Error).message(message).span(span).build();
        assert(diagnostic@ =~= error_view(message@, span));
        self.diagnostics.push(diagnostic);
        assert(self.diags() =~= old(self).diags().push(diagnostic@));
    }

    /// An error diagnostic over `span` with a hint on how to fix it.
    fn emit_error_with_help(&mut self, message: &str, span: SourceSpan, help: &str)
        requires
            old(self).wf(),
        ensures
            final(self).advanced_from(old(self)),
            final(self).position() == old(self).position(),
            final(self).diags() == old(self).diags().push(error_help_view(message@, span, help@)),
    {
        self.recovery.increment_error_count();
        let diagnostic = Diagnostic::builder(Severity::Error).message(message).span(span).help(
            help,
        ).build();
        assert(diagnostic@ =~= error_help_view(message@, span, help@));
        self.diagnostics.push(diagnostic);
        assert(self.diags() =~= old(self).diags().push(diagnostic@));
    }

    /// Skips tokens up to the next statement boundary or synchronization
    /// token (or the end).
    fn synchronize_to_statement_boundary(&mut self)
        requires
            old(self).wf(),
        ensures
            final(self).advanced_from(old(self)),
            final(self).diags() == old(self).diags(),
            final(self).current_token() matches Some(t) ==> spec_is_statement_boundary(t.kind)
                || spec_is_synchronization_token(t.kind),
            final(self).position() == sync_stmt(old(self).tokens(), old(self).position()),
    {
        self.recovery.set_in_error_recovery(true);
        let mut done = false;
        while !done
            invariant
                self.tokens() == old(self).tokens(),
                old(self).position() <= self.position() <= self.tokens().len(),
                self.diags() == old(self).diags(),
                self.cursor.wf(),
                done ==> (self.current_token() matches Some(t) ==> spec_is_statement_boundary(
                    t.kind,
                ) || spec_is_synchronization_token(t.kind)),
                !done ==> sync_stmt(self.tokens(), self.position()) == sync_stmt(old(self).tokens(), old(self).position()),
                done ==> self.position() == sync_stmt(old(self).tokens(), old(self).position()),
            decreases self.remaining() + if done { 0int } else { 1int },
        {
            match self.current_kind() {
                Some(kind) => {
                    if is_statement_boundary(kind) || is_synchronization_token(kind) {
                        done = true;
                    } else {
                        self.cursor.advance();
                    }
                },
                None => {
                    done = true;
                },
            }
        }
        self.recovery.set_in_error_recovery(false);
    }

    /// Skips tokens up to the next expression boundary (or the end).
    fn synchronize_to_expression_boundary(&mut self)
        requires
            old(self).wf(),
        ensures
            final(self).advanced_from(old(self)),
            final(self).diags() == old(self).diags(),
            final(self).current_token() matches Some(t) ==> spec_is_expression_boundary(t.kind),
            final(self).position() == sync_expr(old(self).tokens(), old(self).position()),
    {
        self.recovery.set_in_error_recovery(true);
        let mut done = false;
        while !done
            invariant
                self.tokens() == old(self).tokens(),
                old(self).position() <= self.position() <= self.tokens().len(),
                self.diags() == old(self).diags(),
                self.cursor.wf(),
                done ==> (self.current_token() matches Some(t) ==> spec_is_expression_boundary(
                    t.kind,
                )),
                !done ==> sync_expr(self.tokens(), self.position()) == sync_expr(old(self).tokens(), old(self).position()),
                done ==> self.position() == sync_expr(old(self).tokens(), old(self).position()),
            decreases self.remaining() + if done { 0int } else { 1int },
        {
            match self.current_kind() {
                Some(kind) => {
                    if is_expression_boundary(kind) {
                        done = true;
                    } else {
                        self.cursor.advance();
                    }
                },
                None => {
                    done = true;
                },
            }
        }
        self.recovery.set_in_error_recovery(false);
    }

    fn make_error_statement(&self, span: SourceSpan) -> (result: Statement)
        ensures
            result == (Statement { kind: StatementKind::Error, span }),
    {
        Statement { kind: StatementKind::Error, span }
    }

    fn make_error_expression(&self, span: SourceSpan) -> (result: Expression)
        ensures
            result == (Expression { kind: ExpressionKind::Error, span }),
    {
        Expression { kind: ExpressionKind::Error, span }
    }

    /// The spelling of an operator token; other tokens give the empty string.
    fn operator_name(&self, kind: &TokenKind) -> (result: String)
        ensures
            result@ == op_text(*kind),
    {
        let text = match kind {
            TokenKind::Plus => "+",
            TokenKind::Minus => "-",
            TokenKind::Star => "*",
            TokenKind::Slash => "/",
            TokenKind::Percent => "%",
            TokenKind::Caret => "^",
            TokenKind::Equal => "=",
            TokenKind::EqualEqual => "==",
            TokenKind::NotEqual => "~=",
            TokenKind::Less => "<",
            TokenKind::LessEqual => "<=",
            TokenKind::Greater => ">",
            TokenKind::GreaterEqual => ">=",
            TokenKind::PlusEqual => "+=",
            TokenKind::MinusEqual => "-=",
            TokenKind::StarEqual => "*=",
            TokenKind::SlashEqual => "/=",
            TokenKind::PercentEqual => "%=",
            TokenKind::AmpersandEqual => "&=",
            TokenKind::PipeEqual => "|=",
            TokenKind::And => "and",
            TokenKind::Or => "or",
            TokenKind::DotDot => "..",
            _ => "",
        };
        to_owned_string(text)
    }
}

impl<'a> Parser<'a> {
    /// Parses statements up to the end of the tokens (or an `EOF` token).
    pub fn parse_program(&mut self) -> (result: AstNode)
        requires
            old(self).wf(),
        ensures
            final(self).advanced_from(old(self)),
            final(self).reached(program_spec(old(self).tokens(), old(self).position(), old(self).diags())),
            result matches AstNode::Program(p) && program_view(p) == program_spec(
                old(self).tokens(),
                old(self).position(),
                old(self).diags(),
            ).0,
    {
        let ghost ts = self.tokens();
        let first_span = match self.current() {
            Some(tok) => Some(tok.span),
            None => None,
        };
        let start = match first_span {
            Some(span) => span.start(),
            None => 0,
        };
        let file_id = match first_span {
            Some(span) => span.file_id(),
            None => FileId::new(0),
        };
        let ghost whole = program_loop(ts, self.position(), self.diags(), seq![], start);
        let mut statements: Vec<Statement> = Vec::new();
        let mut end = start;
        let mut done = false;
        assert(stmts_view(statements@) =~= seq![]);
        while !done
            invariant
                self.advanced_from(old(self)),
                ts == old(self).tokens(),
                whole == program_loop(ts, old(self).position(), old(self).diags(), seq![], start),
                !done ==> program_loop(ts, self.position(), self.diags(), stmts_view(statements@), end)
                    == whole,
                done ==> self.reached(whole) && stmts_view(statements@) == whole.0.0 && end == whole.0.1,
            decreases self.remaining() + if done { 0int } else { 1int },
        {
            match self.current() {
                None => {
                    done = true;
                },
                Some(tok) => {
                    end = tok.span.end();
                    if let TokenKind::EOF = tok.kind {
                        done = true;
                    } else {
                        let ghost before = statements@;
                        let statement = self.parse_statement();
                        end = statement.span.end();
                        proof {
                            lemma_stmts_view_push(before, statement);
                        }
                        statements.push(statement);
                        if matches!(self.current_kind(), Some(TokenKind::Semicolon)) {
                            self.advance();
                        }
                    }
                },
            }
        }
        make_program(statements, SourceSpan::new(file_id, start, end))
    }

    /// Parses one expression.
    pub fn parse_expression(&mut self) -> (result: Expression)
        requires
            old(self).wf(),
        ensures
            final(self).advanced_from(old(self)),
            old(self).position() < old(self).tokens().len() ==> old(self).position() < final(self).position(),
            final(self).reached(expr_spec(old(self).tokens(), old(self).position(), old(self).diags())),
            result@ == expr_spec(old(self).tokens(), old(self).position(), old(self).diags()).0,
        decreases old(self).remaining(), 15int,
    {
        self.parse_precedence(Precedence::Lowest)
    }

    fn parse_statement(&mut self) -> (result: Statement)
        requires
            old(self).wf(),
        ensures
            final(self).advanced_from(old(self)),
            old(self).position() < old(self).tokens().len() ==> old(self).position() < final(self).position(),
            final(self).reached(stmt_spec(old(self).tokens(), old(self).position(), old(self).diags())),
            result@ == stmt_spec(old(self).tokens(), old(self).position(), old(self).diags()).0,
        decreases old(self).remaining(), 30int,
    {
        if self.recovery.should_suppress_cascading() {
            let span = self.current_span();
            self.advance();
            return self.make_error_statement(span);
        }
        match self.current_kind() {
            Some(TokenKind::Local) => {
                if matches!(self.peek_kind(), Some(TokenKind::Function)) {
                    self.parse_local_function_declaration()
                } else {
                    self.parse_local_statement()
                }
            },
            Some(TokenKind::Function) => self.parse_function_declaration(false),
            Some(TokenKind::Type) => self.parse_type_alias_statement(),
            Some(TokenKind::Return) => self.parse_return_statement(),
            Some(TokenKind::Break) => self.parse_break_statement(),
            Some(TokenKind::Continue) => self.parse_continue_statement(),
            _ => self.parse_assignment_or_expression_statement(),
        }
    }

    fn parse_local_statement(&mut self) -> (result: Statement)
        requires
            old(self).wf(),
            old(self).position() < old(self).tokens().len(),
        ensures
            final(self).advanced_from(old(self)),
            old(self).position() < final(self).position(),
            final(self).reached(local_spec(old(self).tokens(), old(self).position(), old(self).diags())),
            result@ == local_spec(old(self).tokens(), old(self).position(), old(self).diags()).0,
        decreases old(self).remaining(), 20int,
    {
        let ghost ts = self.tokens();
        self.advance();
        let mut names: Vec<(String, Option<TypeExpression>)> = Vec::new();
        if !matches!(self.current_kind(), Some(TokenKind::Identifier(_))) {
            let span = self.current_span();
            self.emit_error("Expected identifier after 'local'", span);
            self.synchronize_to_statement_boundary();
            return self.make_error_statement(span);
        }
        let ghost whole = names_spec(ts, self.position(), self.diags(), seq![]);
        let mut done = false;
        assert(bindings_view(names@) =~= seq![]);
        while !done
            invariant
                self.advanced_from(old(self)),
                ts == old(self).tokens(),
                old(self).position() < self.position(),
                whole == names_spec(ts, old(self).position() + 1, old(self).diags(), seq![]),
                !done ==> names_spec(ts, self.position(), self.diags(), bindings_view(names@)) == whole,
                done ==> self.reached(whole) && bindings_view(names@) == whole.0,
            decreases self.remaining() + if done { 0int } else { 1int },
        {
            match self.current_kind() {
                Some(TokenKind::Identifier(name)) => {
                    let name = name.clone();
                    self.advance();
                    let annotation = self.parse_type_annotation();
                    let ghost before = names@;
                    proof {
                        lemma_bindings_view_push(before, (name, annotation));
                    }
                    names.push((name, annotation));
                    if matches!(self.current_kind(), Some(TokenKind::Comma)) {
                        self.advance();
                    } else {
                        done = true;
                    }
                },
                _ => {
                    done = true;
                },
            }
        }
        let mut initializers: Vec<Expression> = Vec::new();
        if matches!(self.current_kind(), Some(TokenKind::Equal)) {
            self.advance();
            initializers = self.parse_expression_list();
        } else {
            assert(exprs_view(initializers@) =~= seq![]);
        }
        proof {
            lemma_exprs_view_len(initializers@);
        }
        let span = if initializers.len() > 0 {
            initializers[initializers.len() - 1].span
        } else {
            self.current_span()
        };
        Statement { kind: StatementKind::Local { names, initializers }, span }
    }

    fn parse_return_statement(&mut self) -> (result: Statement)
        requires
            old(self).wf(),
            old(self).position() < old(self).tokens().len(),
        ensures
            final(self).advanced_from(old(self)),
            old(self).position() < final(self).position(),
            final(self).reached(return_spec(old(self).tokens(), old(self).position(), old(self).diags())),
            result@ == return_spec(old(self).tokens(), old(self).position(), old(self).diags()).0,
        decreases old(self).remaining(), 20int,
    {
        self.advance();
        let values = if matches!(
            self.current_kind(),
            Some(TokenKind::Semicolon) | Some(TokenKind::EOF)
        ) {
            let v: Vec<Expression> = Vec::new();
            assert(exprs_view(v@) =~= seq![]);
            v
        } else {
            self.parse_expression_list()
        };
        proof {
            lemma_exprs_view_len(values@);
        }
        let span = if values.len() > 0 {
            values[values.len() - 1].span
        } else {
            self.current_span()
        };
        Statement { kind: StatementKind::Return(Some(values)), span }
    }

    fn parse_break_statement(&mut self) -> (result: Statement)
        requires
            old(self).wf(),
            old(self).position() < old(self).tokens().len(),
        ensures
            final(self).advanced_from(old(self)),
            final(self).position() == old(self).position() + 1,
            final(self).diags() == old(self).diags(),
            result == (Statement { kind: StatementKind::Break, span: old(self).tokens()[old(self).position()].span }),
    {
        let span = self.current_span();
        self.advance();
        Statement { kind: StatementKind::Break, span }
    }

    fn parse_continue_statement(&mut self) -> (result: Statement)
        requires
            old(self).wf(),
            old(self).position() < old(self).tokens().len(),
        ensures
            final(self).advanced_from(old(self)),
            final(self).position() == old(self).position() + 1,
            final(self).diags() == old(self).diags(),
            result == (Statement { kind: StatementKind::Continue, span: old(self).tokens()[old(self).position()].span }),
    {
        let span = self.current_span();
        self.advance();
        Statement { kind: StatementKind::Continue, span }
    }

    fn parse_assignment_or_expression_statement(&mut self) -> (result: Statement)
        requires
            old(self).wf(),
        ensures
            final(self).advanced_from(old(self)),
            old(self).position() < old(self).tokens().len() ==> old(self).position() < final(self).position(),
            final(self).reached(assign_spec(old(self).tokens(), old(self).position(), old(self).diags())),
            result@ == assign_spec(old(self).tokens(), old(self).position(), old(self).diags()).0,
        decreases old(self).remaining(), 25int,
    {
        let mut targets = self.parse_expression_list();
        let is_assignment = matches!(
            self.current_kind(),
            Some(TokenKind::Equal) | Some(TokenKind::PlusEqual) | Some(TokenKind::MinusEqual)
                | Some(TokenKind::StarEqual) | Some(TokenKind::SlashEqual) | Some(
                TokenKind::PercentEqual,
            ) | Some(TokenKind::AmpersandEqual) | Some(TokenKind::PipeEqual)
        );
        proof {
            lemma_exprs_view_len(targets@);
        }
        if is_assignment {
            let operator = match self.current_kind() {
                Some(kind) => self.operator_name(kind),
                None => String::new(),
            };
            self.advance();
            let values = self.parse_expression_list();
            proof {
                lemma_exprs_view_len(values@);
            }
            let span = if values.len() > 0 {
                values[values.len() - 1].span
            } else {
                targets[targets.len() - 1].span
            };
            Statement { kind: StatementKind::Assignment { targets, values, operator }, span }
        } else {
            let last = targets.pop().unwrap();
            let span = last.span;
            Statement { kind: StatementKind::Expression(last), span }
        }
    }

    fn parse_local_function_declaration(&mut self) -> (result: Statement)
        requires
            old(self).wf(),
            old(self).position() + 1 < old(self).tokens().len(),
        ensures
            final(self).advanced_from(old(self)),
            old(self).position() < final(self).position(),
            final(self).reached(fn_decl_spec(old(self).tokens(), old(self).position() + 1, old(self).diags(), true)),
            result@ == fn_decl_spec(old(self).tokens(), old(self).position() + 1, old(self).diags(), true).0,
        decreases old(self).remaining(), 20int,
    {
        self.advance();
        self.parse_function_declaration(true)
    }

    fn parse_function_declaration(&mut self, is_local: bool) -> (result: Statement)
        requires
            old(self).wf(),
            old(self).position() < old(self).tokens().len(),
        ensures
            final(self).advanced_from(old(self)),
            old(self).position() < final(self).position(),
            final(self).reached(fn_decl_spec(old(self).tokens(), old(self).position(), old(self).diags(), is_local)),
            result@ == fn_decl_spec(old(self).tokens(), old(self).position(), old(self).diags(), is_local).0,
        decreases old(self).remaining(), 20int,
    {
        if is_local {
            self.advance();
        }
        self.advance();
        let (name, receiver) = self.parse_function_name();
        let params = self.parse_parameter_list();
        let return_type = self.parse_type_annotation();
        let body = self.parse_block();
        proof {
            lemma_stmts_view_len(body@);
        }
        let span = if body.len() > 0 {
            body[body.len() - 1].span
        } else {
            SourceSpan::new(FileId::new(0), 0, 0)
        };
        Statement {
            kind: StatementKind::Function { name, receiver, params, return_type, body, is_local },
            span,
        }
    }

    /// The name of a function declaration: `name`, or `receiver:name`.
    fn parse_function_name(&mut self) -> (result: (String, Option<String>))
        requires
            old(self).wf(),
        ensures
            final(self).advanced_from(old(self)),
            final(self).diags() == old(self).diags(),
            final(self).position() == fn_name_spec(old(self).tokens(), old(self).position()).2,
            result.0@ == fn_name_spec(old(self).tokens(), old(self).position()).0,
            (match result.1 {
                Some(r) => Some(r@),
                None => None,
            }) == fn_name_spec(old(self).tokens(), old(self).position()).1,
    {
        let mut receiver: Option<String> = None;
        let name = match self.current_kind() {
            Some(TokenKind::Identifier(name)) => {
                let name = name.clone();
                self.advance();
                if matches!(self.current_kind(), Some(TokenKind::Colon)) {
                    self.advance();
                    match self.current_kind() {
                        Some(TokenKind::Identifier(method_name)) => {
                            let method_name = method_name.clone();
                            receiver = Some(name);
                            self.advance();
                            method_name
                        },
                        _ => name,
                    }
                } else {
                    name
                }
            },
            _ => String::new(),
        };
        (name, receiver)
    }

    fn parse_parameter_list(&mut self) -> (result: Vec<(String, Option<TypeExpression>)>)
        requires
            old(self).wf(),
        ensures
            final(self).advanced_from(old(self)),
            final(self).reached(param_list_spec(old(self).tokens(), old(self).position(), old(self).diags())),
            bindings_view(result@) == param_list_spec(old(self).tokens(), old(self).position(), old(self).diags()).0,
        decreases old(self).remaining(), 9int,
    {
        let ghost ts = self.tokens();
        let mut params: Vec<(String, Option<TypeExpression>)> = Vec::new();
        assert(bindings_view(params@) =~= seq![]);
        if matches!(self.current_kind(), Some(TokenKind::LeftParen)) {
            self.advance();
            let ghost whole = params_spec(ts, self.position(), self.diags(), seq![]);
            let mut done = false;
            while !done
                invariant
                    self.advanced_from(old(self)),
                    ts == old(self).tokens(),
                    old(self).position() < self.position(),
                    whole == params_spec(ts, old(self).position() + 1, old(self).diags(), seq![]),
                    !done ==> params_spec(ts, self.position(), self.diags(), bindings_view(params@)) == whole,
                    done ==> self.reached(whole) && bindings_view(params@) == whole.0,
                decreases self.remaining() + if done { 0int } else { 1int },
            {
                if matches!(self.current_kind(), Some(TokenKind::RightParen) | Some(TokenKind::EOF)) {
                    done = true;
                } else {
                    match self.current_kind() {
                        Some(TokenKind::Identifier(name)) => {
                            let name = name.clone();
                            self.advance();
                            let annotation = self.parse_type_annotation();
                            let ghost before = params@;
                            proof {
                                lemma_bindings_view_push(before, (name, annotation));
                            }
                            params.push((name, annotation));
                            if matches!(self.current_kind(), Some(TokenKind::Comma)) {
                                self.advance();
                            } else {
                                done = true;
                            }
                        },
                        _ => {
                            let span = self.current_span();
                            self.emit_error("Expected parameter name", span);
                            self.synchronize_to_expression_boundary();
                            done = true;
                        },
                    }
                }
            }
            if matches!(self.current_kind(), Some(TokenKind::RightParen)) {
                self.advance();
            } else {
                let span = self.current_span();
                self.emit_error_with_help(
                    "Expected ')' after parameter list",
                    span,
                    "Insert ')' here",
                );
            }
        }
        params
    }

    fn parse_block(&mut self) -> (result: Vec<Statement>)
        requires
            old(self).wf(),
        ensures
            final(self).advanced_from(old(self)),
            final(self).reached(block_spec(old(self).tokens(), old(self).position(), old(self).diags(), seq![])),
            stmts_view(result@) == block_spec(old(self).tokens(), old(self).position(), old(self).diags(), seq![]).0,
        decreases old(self).remaining(), 35int,
    {
        let ghost ts = self.tokens();
        let ghost whole = block_spec(ts, self.position(), self.diags(), seq![]);
        let mut statements: Vec<Statement> = Vec::new();
        let mut done = false;
        assert(stmts_view(statements@) =~= seq![]);
        while !done
            invariant
                self.advanced_from(old(self)),
                ts == old(self).tokens(),
                whole == block_spec(ts, old(self).position(), old(self).diags(), seq![]),
                !done ==> block_spec(ts, self.position(), self.diags(), stmts_view(statements@)) == whole,
                done ==> self.reached(whole) && stmts_view(statements@) == whole.0,
            decreases self.remaining() + if done { 0int } else { 1int },
        {
            match self.current_kind() {
                None => {
                    done = true;
                },
                Some(TokenKind::End) => {
                    self.advance();
                    done = true;
                },
                Some(_) => {
                    let ghost before = statements@;
                    let statement = self.parse_statement();
                    proof {
                        lemma_stmts_view_push(before, statement);
                    }
                    statements.push(statement);
                    if matches!(self.current_kind(), Some(TokenKind::Semicolon)) {
                        self.advance();
                    }
                },
            }
        }
        statements
    }

    fn parse_type_alias_statement(&mut self) -> (result: Statement)
        requires
            old(self).wf(),
            old(self).position() < old(self).tokens().len(),
        ensures
            final(self).advanced_from(old(self)),
            old(self).position() < final(self).position(),
            final(self).reached(alias_spec(old(self).tokens(), old(self).position(), old(self).diags())),
            result@ == alias_spec(old(self).tokens(), old(self).position(), old(self).diags()).0,
        decreases old(self).remaining(), 20int,
    {
        self.advance();
        let name = match self.current_kind() {
            Some(TokenKind::Identifier(name)) => {
                let name = name.clone();
                self.advance();
                name
            },
            _ => String::new(),
        };
        let alias = if matches!(self.current_kind(), Some(TokenKind::Equal)) {
            self.advance();
            self.parse_type_expression()
        } else {
            TypeExpression {
                kind: TypeExpressionKind::Named(String::new()),
                span: SourceSpan::new(FileId::new(0), 0, 0),
            }
        };
        let span = self.current_span();
        Statement { kind: StatementKind::TypeAlias { name, alias }, span }
    }

    fn parse_type_annotation(&mut self) -> (result: Option<TypeExpression>)
        requires
            old(self).wf(),
        ensures
            final(self).advanced_from(old(self)),
            !(old(self).current_token() matches Some(t) && t.kind is Colon) ==> result is None
                && final(self).position() == old(self).position(),
            final(self).reached(annotation_spec(old(self).tokens(), old(self).position(), old(self).diags())),
            opt_type_view(result) == annotation_spec(old(self).tokens(), old(self).position(), old(self).diags()).0,
        decreases old(self).remaining(), 9int,
    {
        if matches!(self.current_kind(), Some(TokenKind::Colon)) {
            self.advance();
            let starts_type = match self.current_kind() {
                Some(kind) => can_start_type(kind),
                None => can_start_type(&TokenKind::EOF),
            };
            if !starts_type {
                let span = self.current_span();
                self.emit_error_with_help(
                    "Expected type after ':'",
                    span,
                    "Add a type annotation after ':'",
                );
                return None;
            }
            return Some(self.parse_type_expression());
        }
        None
    }

    fn parse_type_expression(&mut self) -> (result: TypeExpression)
        requires
            old(self).wf(),
        ensures
            final(self).advanced_from(old(self)),
            old(self).position() < old(self).tokens().len() ==> old(self).position() < final(self).position(),
            final(self).reached(type_spec(old(self).tokens(), old(self).position(), old(self).diags())),
            result@ == type_spec(old(self).tokens(), old(self).position(), old(self).diags()).0,
        decreases old(self).remaining(), 8int,
    {
        self.parse_union_type()
    }

    fn parse_union_type(&mut self) -> (result: TypeExpression)
        requires
            old(self).wf(),
        ensures
            final(self).advanced_from(old(self)),
            old(self).position() < old(self).tokens().len() ==> old(self).position() < final(self).position(),
            final(self).reached(union_spec(old(self).tokens(), old(self).position(), old(self).diags())),
            result@ == union_spec(old(self).tokens(), old(self).position(), old(self).diags()).0,
        decreases old(self).remaining(), 7int,
    {
        let ghost ts = self.tokens();
        let first = self.parse_intersection_type();
        let ghost whole = union_loop(ts, self.position(), self.diags(), seq![first@]);
        let mut types: Vec<TypeExpression> = Vec::new();
        types.push(first);
        assert(types_view(types@) =~= seq![first@]) by {
            lemma_types_view_push(Seq::empty(), first);
        }
        let mut done = false;
        while !done
            invariant
                self.advanced_from(old(self)),
                ts == old(self).tokens(),
                old(self).position() < old(self).tokens().len() ==> old(self).position()
                    < self.position(),
                types@.len() >= 1,
                !done ==> union_loop(ts, self.position(), self.diags(), types_view(types@)) == whole,
                done ==> self.reached(whole) && types_view(types@) == whole.0,
            decreases self.remaining() + if done { 0int } else { 1int },
        {
            if matches!(self.current_kind(), Some(TokenKind::Pipe)) {
                self.advance();
                let t = self.parse_intersection_type();
                let ghost before = types@;
                proof {
                    lemma_types_view_push(before, t);
                }
                types.push(t);
            } else {
                done = true;
            }
        }
        proof {
            lemma_types_view_len(types@);
        }
        if types.len() == 1 {
            types.pop().unwrap()
        } else {
            let span = self.current_span();
            TypeExpression { kind: TypeExpressionKind::Union(types), span }
        }
    }

    fn parse_intersection_type(&mut self) -> (result: TypeExpression)
        requires
            old(self).wf(),
        ensures
            final(self).advanced_from(old(self)),
            old(self).position() < old(self).tokens().len() ==> old(self).position() < final(self).position(),
            final(self).reached(inter_spec(old(self).tokens(), old(self).position(), old(self).diags())),
            result@ == inter_spec(old(self).tokens(), old(self).position(), old(self).diags()).0,
        decreases old(self).remaining(), 6int,
    {
        let ghost ts = self.tokens();
        let first = self.parse_optional_type();
        let ghost whole = inter_loop(ts, self.position(), self.diags(), seq![first@]);
        let mut types: Vec<TypeExpression> = Vec::new();
        types.push(first);
        assert(types_view(types@) =~= seq![first@]) by {
            lemma_types_view_push(Seq::empty(), first);
        }
        let mut done = false;
        while !done
            invariant
                self.advanced_from(old(self)),
                ts == old(self).tokens(),
                old(self).position() < old(self).tokens().len() ==> old(self).position()
                    < self.position(),
                types@.len() >= 1,
                !done ==> inter_loop(ts, self.position(), self.diags(), types_view(types@)) == whole,
                done ==> self.reached(whole) && types_view(types@) == whole.0,
            decreases self.remaining() + if done { 0int } else { 1int },
        {
            if matches!(self.current_kind(), Some(TokenKind::Ampersand)) {
                self.advance();
                let t = self.parse_optional_type();
                let ghost before = types@;
                proof {
                    lemma_types_view_push(before, t);
                }
                types.push(t);
            } else {
                done = true;
            }
        }
        proof {
            lemma_types_view_len(types@);
        }
        if types.len() == 1 {
            types.pop().unwrap()
        } else {
            let span = self.current_span();
            TypeExpression { kind: TypeExpressionKind::Intersection(types), span }
        }
    }

    fn parse_optional_type(&mut self) -> (result: TypeExpression)
        requires
            old(self).wf(),
        ensures
            final(self).advanced_from(old(self)),
            old(self).position() < old(self).tokens().len() ==> old(self).position() < final(self).position(),
            final(self).reached(optional_spec(old(self).tokens(), old(self).position(), old(self).diags())),
            result@ == optional_spec(old(self).tokens(), old(self).position(), old(self).diags()).0,
        decreases old(self).remaining(), 5int,
    {
        let ghost ts = self.tokens();
        let mut typ = self.parse_primary_type();
        let ghost d1 = self.diags();
        let ghost view_end = optional_loop(ts, self.position(), typ@);
        let ghost pos_end = optional_end(ts, self.position());
        let mut done = false;
        while !done
            invariant
                self.advanced_from(old(self)),
                ts == old(self).tokens(),
                old(self).position() < old(self).tokens().len() ==> old(self).position()
                    < self.position(),
                self.diags() == d1,
                !done ==> optional_loop(ts, self.position(), typ@) == view_end && optional_end(ts, self.position()) == pos_end,
                done ==> typ@ == view_end && self.position() == pos_end,
            decreases self.remaining() + if done { 0int } else { 1int },
        {
            if matches!(self.current_kind(), Some(TokenKind::Question)) {
                let start = typ.span.start();
                let file_id = typ.span.file_id();
                self.advance();
                let span = match self.current() {
                    Some(tok) => tok.span,
                    None => typ.span,
                };
                let end = span.end();
                typ = TypeExpression {
                    kind: TypeExpressionKind::Optional(Box::new(typ)),
                    span: SourceSpan::new(file_id, start, end),
                };
            } else {
                done = true;
            }
        }
        typ
    }

    fn parse_primary_type(&mut self) -> (result: TypeExpression)
        requires
            old(self).wf(),
        ensures
            final(self).advanced_from(old(self)),
            old(self).position() < old(self).tokens().len() ==> old(self).position() < final(self).position(),
            final(self).reached(primary_type_spec(old(self).tokens(), old(self).position(), old(self).diags())),
            result@ == primary_type_spec(old(self).tokens(), old(self).position(), old(self).diags()).0,
        decreases old(self).remaining(), 4int,
    {
        match self.current_kind() {
            Some(TokenKind::LeftParen) => self.parse_parenthesized_type(),
            Some(TokenKind::LeftBrace) => self.parse_table_or_array_type(),
            Some(TokenKind::DotDotDot) => self.parse_variadic_type(),
            Some(TokenKind::Identifier(_)) | Some(TokenKind::Any) | Some(TokenKind::Never) | Some(
                TokenKind::Nil,
            ) => self.parse_named_type(),
            _ => {
                let span = self.current_span();
                self.advance();
                TypeExpression { kind: TypeExpressionKind::Named(String::new()), span }
            },
        }
    }

    /// Types separated by commas up to `)` or the end.
    fn parse_type_list(&mut self) -> (result: Vec<TypeExpression>)
        requires
            old(self).wf(),
        ensures
            final(self).advanced_from(old(self)),
            final(self).reached(type_list_spec(old(self).tokens(), old(self).position(), old(self).diags(), seq![])),
            types_view(result@) == type_list_spec(old(self).tokens(), old(self).position(), old(self).diags(), seq![]).0,
        decreases old(self).remaining(), 9int,
    {
        let ghost ts = self.tokens();
        let ghost whole = type_list_spec(ts, self.position(), self.diags(), seq![]);
        let mut types: Vec<TypeExpression> = Vec::new();
        let mut done = false;
        assert(types_view(types@) =~= seq![]);
        while !done
            invariant
                self.advanced_from(old(self)),
                ts == old(self).tokens(),
                !done ==> type_list_spec(ts, self.position(), self.diags(), types_view(types@)) == whole,
                done ==> self.reached(whole) && types_view(types@) == whole.0,
            decreases self.remaining() + if done { 0int } else { 1int },
        {
            if matches!(self.current_kind(), Some(TokenKind::RightParen) | Some(TokenKind::EOF)) {
                done = true;
            } else {
                let t = self.parse_type_expression();
                let ghost before = types@;
                proof {
                    lemma_types_view_push(before, t);
                }
                types.push(t);
                if matches!(self.current_kind(), Some(TokenKind::Comma)) {
                    self.advance();
                } else {
                    done = true;
                }
            }
        }
        types
    }

    fn parse_parenthesized_type(&mut self) -> (result: TypeExpression)
        requires
            old(self).wf(),
            old(self).position() < old(self).tokens().len(),
        ensures
            final(self).advanced_from(old(self)),
            old(self).position() < final(self).position(),
            final(self).reached(paren_type_spec(old(self).tokens(), old(self).position(), old(self).diags())),
            result@ == paren_type_spec(old(self).tokens(), old(self).position(), old(self).diags()).0,
        decreases old(self).remaining(), 3int,
    {
        let start = match self.current() {
            Some(tok) => tok.span.start(),
            None => 0,
        };
        self.advance();
        let mut types = self.parse_type_list();
        if matches!(self.current_kind(), Some(TokenKind::RightParen)) {
            self.advance();
        }
        let end = match self.current() {
            Some(tok) => tok.span.end(),
            None => start,
        };
        let ghost list = types@;
        proof {
            lemma_types_view_len(types@);
        }
        let type_expr = if types.len() == 1 {
            let inner = types.pop().unwrap();
            let file_id = inner.span.file_id();
            TypeExpression {
                kind: TypeExpressionKind::Parenthesized(Box::new(inner)),
                span: SourceSpan::new(file_id, start, end),
            }
        } else {
            let file_id = match self.current() {
                Some(tok) => tok.span.file_id(),
                None => FileId::new(0),
            };
            TypeExpression { kind: TypeExpressionKind::Tuple(types), span: SourceSpan::new(file_id, start, end) }
        };
        if matches!(self.current_kind(), Some(TokenKind::Arrow)) {
            self.advance();
            let return_type = self.parse_type_expression();
            let params = match type_expr.kind {
                TypeExpressionKind::Tuple(elements) => elements,
                TypeExpressionKind::Parenthesized(inner) => {
                    let mut v: Vec<TypeExpression> = Vec::new();
                    v.push(*inner);
                    proof {
                        lemma_types_view_push(Seq::empty(), *inner);
                        assert(v@ =~= list);
                    }
                    v
                },
                other => {
                    let mut v: Vec<TypeExpression> = Vec::new();
                    v.push(TypeExpression { kind: other, span: type_expr.span });
                    v
                },
            };
            let file_id = return_type.span.file_id();
            let span = SourceSpan::new(file_id, start, return_type.span.end());
            TypeExpression {
                kind: TypeExpressionKind::Function { params, return_type: Box::new(return_type) },
                span,
            }
        } else {
            type_expr
        }
    }

    /// The fields `name: type` of a table type, separated by commas.
    fn parse_type_fields(&mut self) -> (result: Vec<(String, TypeExpression, SourceSpan)>)
        requires
            old(self).wf(),
        ensures
            final(self).advanced_from(old(self)),
            final(self).reached(type_fields_spec(old(self).tokens(), old(self).position(), old(self).diags(), seq![])),
            type_fields_view(result@) == type_fields_spec(old(self).tokens(), old(self).position(), old(self).diags(), seq![]).0,
        decreases old(self).remaining(), 9int,
    {
        let ghost ts = self.tokens();
        let ghost whole = type_fields_spec(ts, self.position(), self.diags(), seq![]);
        let mut fields: Vec<(String, TypeExpression, SourceSpan)> = Vec::new();
        let mut done = false;
        assert(type_fields_view(fields@) =~= seq![]);
        while !done
            invariant
                self.advanced_from(old(self)),
                ts == old(self).tokens(),
                !done ==> type_fields_spec(ts, self.position(), self.diags(), type_fields_view(fields@)) == whole,
                done ==> self.reached(whole) && type_fields_view(fields@) == whole.0,
            decreases self.remaining() + if done { 0int } else { 1int },
        {
            if matches!(self.current_kind(), Some(TokenKind::RightBrace) | Some(TokenKind::EOF)) {
                done = true;
            } else {
                match self.current() {
                    Some(tok) => {
                        match &tok.kind {
                            TokenKind::Identifier(name) => {
                                let name = name.clone();
                                let field_start = tok.span.start();
                                self.advance();
                                self.advance();
                                let field_type = self.parse_type_expression();
                                let field_span = SourceSpan::new(
                                    field_type.span.file_id(),
                                    field_start,
                                    field_type.span.end(),
                                );
                                let ghost before = fields@;
                                proof {
                                    lemma_type_fields_view_push(before, (name, field_type, field_span));
                                }
                                fields.push((name, field_type, field_span));
                                if matches!(self.current_kind(), Some(TokenKind::Comma)) {
                                    self.advance();
                                } else {
                                    done = true;
                                }
                            },
                            _ => {
                                done = true;
                            },
                        }
                    },
                    None => {
                        done = true;
                    },
                }
            }
        }
        fields
    }

    fn parse_table_or_array_type(&mut self) -> (result: TypeExpression)
        requires
            old(self).wf(),
            old(self).position() < old(self).tokens().len(),
        ensures
            final(self).advanced_from(old(self)),
            old(self).position() < final(self).position(),
            final(self).reached(table_type_spec(old(self).tokens(), old(self).position(), old(self).diags())),
            result@ == table_type_spec(old(self).tokens(), old(self).position(), old(self).diags()).0,
        decreases old(self).remaining(), 3int,
    {
        let start = match self.current() {
            Some(tok) => tok.span.start(),
            None => 0,
        };
        self.advance();
        if matches!(self.current_kind(), Some(TokenKind::RightBrace)) {
            self.advance();
            let file_id = match self.current() {
                Some(tok) => tok.span.file_id(),
                None => FileId::new(0),
            };
            let end = match self.current() {
                Some(tok) => tok.span.end(),
                None => start,
            };
            let fields: Vec<(String, TypeExpression, SourceSpan)> = Vec::new();
            assert(type_fields_view(fields@) =~= seq![]);
            return TypeExpression {
                kind: TypeExpressionKind::Table(fields),
                span: SourceSpan::new(file_id, start, end),
            };
        }
        let is_field_list = matches!(self.current_kind(), Some(TokenKind::Identifier(_)))
            && matches!(self.peek_kind(), Some(TokenKind::Colon));
        if is_field_list {
            let fields = self.parse_type_fields();
            if matches!(self.current_kind(), Some(TokenKind::RightBrace)) {
                self.advance();
            }
            let file_id = match self.current() {
                Some(tok) => tok.span.file_id(),
                None => FileId::new(0),
            };
            let end = match self.current() {
                Some(tok) => tok.span.end(),
                None => start,
            };
            TypeExpression { kind: TypeExpressionKind::Table(fields), span: SourceSpan::new(file_id, start, end) }
        } else {
            let element_type = self.parse_type_expression();
            if matches!(self.current_kind(), Some(TokenKind::RightBrace)) {
                self.advance();
            }
            let file_id = match self.current() {
                Some(tok) => tok.span.file_id(),
                None => FileId::new(0),
            };
            let end = match self.current() {
                Some(tok) => tok.span.end(),
                None => start,
            };
            TypeExpression {
                kind: TypeExpressionKind::Array(Box::new(element_type)),
                span: SourceSpan::new(file_id, start, end),
            }
        }
    }

    fn parse_variadic_type(&mut self) -> (result: TypeExpression)
        requires
            old(self).wf(),
            old(self).position() < old(self).tokens().len(),
            old(self).current_token() matches Some(t) && t.kind is DotDotDot,
        ensures
            final(self).advanced_from(old(self)),
            old(self).position() < final(self).position(),
            final(self).reached(primary_type_spec(old(self).tokens(), old(self).position(), old(self).diags())),
            result@ == primary_type_spec(old(self).tokens(), old(self).position(), old(self).diags()).0,
        decreases old(self).remaining(), 3int,
    {
        let start = match self.current() {
            Some(tok) => tok.span.start(),
            None => 0,
        };
        self.advance();
        let element_type = self.parse_type_expression();
        let span = SourceSpan::new(element_type.span.file_id(), start, element_type.span.end());
        TypeExpression { kind: TypeExpressionKind::Variadic(Box::new(element_type)), span }
    }

    fn parse_named_type(&mut self) -> (result: TypeExpression)
        requires
            old(self).wf(),
            old(self).current_token() matches Some(t) && (t.kind is Identifier || t.kind is Any || t.kind is Never || t.kind is Nil),
        ensures
            final(self).advanced_from(old(self)),
            final(self).position() == old(self).position() + 1,
            final(self).reached(primary_type_spec(old(self).tokens(), old(self).position(), old(self).diags())),
            result@ == primary_type_spec(old(self).tokens(), old(self).position(), old(self).diags()).0,
    {
        let span = self.current_span();
        let name = match self.current_kind() {
            Some(TokenKind::Identifier(name)) => name.clone(),
            Some(TokenKind::Any) => to_owned_string("any"),
            Some(TokenKind::Never) => to_owned_string("never"),
            Some(TokenKind::Nil) => to_owned_string("nil"),
            _ => String::new(),
        };
        self.advance();
        TypeExpression { kind: TypeExpressionKind::Named(name), span }
    }

    fn parse_expression_list(&mut self) -> (result: Vec<Expression>)
        requires
            old(self).wf(),
        ensures
            final(self).advanced_from(old(self)),
            result@.len() >= 1,
            old(self).position() < old(self).tokens().len() ==> old(self).position() < final(self).position(),
            final(self).reached(expr_list_spec(old(self).tokens(), old(self).position(), old(self).diags())),
            exprs_view(result@) == expr_list_spec(old(self).tokens(), old(self).position(), old(self).diags()).0,
        decreases old(self).remaining(), 18int,
    {
        let ghost ts = self.tokens();
        let mut expressions: Vec<Expression> = Vec::new();
        let first = self.parse_expression();
        let ghost whole = expr_list_loop(ts, self.position(), self.diags(), seq![first@]);
        expressions.push(first);
        assert(exprs_view(expressions@) =~= seq![first@]) by {
            lemma_exprs_view_push(Seq::empty(), first);
        }
        let mut done = false;
        while !done
            invariant
                self.advanced_from(old(self)),
                ts == old(self).tokens(),
                expressions@.len() >= 1,
                old(self).position() < old(self).tokens().len() ==> old(self).position()
                    < self.position(),
                !done ==> expr_list_loop(ts, self.position(), self.diags(), exprs_view(expressions@)) == whole,
                done ==> self.reached(whole) && exprs_view(expressions@) == whole.0,
            decreases self.remaining() + if done { 0int } else { 1int },
        {
            if matches!(self.current_kind(), Some(TokenKind::Comma)) {
                self.advance();
                let e = self.parse_expression();
                let ghost before = expressions@;
                proof {
                    lemma_exprs_view_push(before, e);
                }
                expressions.push(e);
            } else {
                done = true;
            }
        }
        expressions
    }
}

impl<'a> Parser<'a> {
    /// A literal, a name, a parenthesised expression, a unary operation, or
    /// an error.
    fn parse_prefix_expression(&mut self) -> (result: Expression)
        requires
            old(self).wf(),
        ensures
            final(self).advanced_from(old(self)),
            old(self).position() < old(self).tokens().len() ==> old(self).position() < final(self).position(),
            final(self).reached(prefix_spec(old(self).tokens(), old(self).position(), old(self).diags())),
            result@ == prefix_spec(old(self).tokens(), old(self).position(), old(self).diags()).0,
        decreases old(self).remaining(), 10int,
    {
        let token = self.current();
        match token {
            Some(tok) => {
                match &tok.kind {
                    TokenKind::Minus | TokenKind::Not => {
                        let operator = match tok.kind {
                            TokenKind::Minus => to_owned_string("-"),
                            _ => to_owned_string("not"),
                        };
                        let start = tok.span.start();
                        self.advance();
                        let operand = self.parse_precedence(Precedence::Unary);
                        let span = SourceSpan::new(operand.span.file_id(), start, operand.span.end());
                        Expression { kind: ExpressionKind::Unary { operator, operand: Box::new(operand) }, span }
                    },
                    TokenKind::LeftParen => {
                        self.advance();
                        let expression = self.parse_expression();
                        if matches!(self.current_kind(), Some(TokenKind::RightParen)) {
                            self.advance();
                        } else {
                            let span = expression.span;
                            self.emit_error_with_help(
                                "Expected ')' after expression",
                                span,
                                "Insert ')' here",
                            );
                        }
                        expression
                    },
                    TokenKind::Identifier(name) => {
                        let span = tok.span;
                        let name = name.clone();
                        self.advance();
                        Expression { kind: ExpressionKind::Identifier(name), span }
                    },
                    TokenKind::NumberLiteral(value) => {
                        let span = tok.span;
                        let value = value.clone();
                        self.advance();
                        Expression { kind: ExpressionKind::NumberLiteral(value), span }
                    },
                    TokenKind::StringLiteral(value) => {
                        let span = tok.span;
                        let value = value.clone();
                        self.advance();
                        Expression { kind: ExpressionKind::StringLiteral(value), span }
                    },
                    TokenKind::InterpolatedString(raw) => {
                        let span = tok.span;
                        self.advance();
                        let parts = parse_interpolated_string_parts(raw.as_str());
                        Expression { kind: ExpressionKind::InterpolatedString(parts), span }
                    },
                    TokenKind::True => {
                        let span = tok.span;
                        self.advance();
                        Expression { kind: ExpressionKind::BooleanLiteral(true), span }
                    },
                    TokenKind::False => {
                        let span = tok.span;
                        self.advance();
                        Expression { kind: ExpressionKind::BooleanLiteral(false), span }
                    },
                    TokenKind::Nil => {
                        let span = tok.span;
                        self.advance();
                        Expression { kind: ExpressionKind::Nil, span }
                    },
                    _ => self.parse_unexpected_expression(),
                }
            },
            None => self.parse_unexpected_expression(),
        }
    }

    /// Reports a token that cannot start an expression and skips past it.
    fn parse_unexpected_expression(&mut self) -> (result: Expression)
        requires
            old(self).wf(),
        ensures
            final(self).advanced_from(old(self)),
            old(self).position() < old(self).tokens().len() ==> old(self).position() < final(self).position(),
            final(self).reached(unexpected_spec(old(self).tokens(), old(self).position(), old(self).diags())),
            result@ == unexpected_spec(old(self).tokens(), old(self).position(), old(self).diags()).0,
    {
        let span = self.current_span();
        self.emit_error("Expected expression", span);
        self.synchronize_to_expression_boundary();
        self.advance();
        self.make_error_expression(span)
    }

    /// An expression whose binary operators bind at least as strongly as
    /// `precedence`.
    fn parse_precedence(&mut self, precedence: Precedence) -> (result: Expression)
        requires
            old(self).wf(),
        ensures
            final(self).advanced_from(old(self)),
            old(self).position() < old(self).tokens().len() ==> old(self).position() < final(self).position(),
            final(self).reached(prec_spec(old(self).tokens(), old(self).position(), old(self).diags(), precedence)),
            result@ == prec_spec(old(self).tokens(), old(self).position(), old(self).diags(), precedence).0,
        decreases old(self).remaining(), 14int,
    {
        let ghost ts = self.tokens();
        let ghost whole = prec_spec(ts, self.position(), self.diags(), precedence);
        let prefix = self.parse_prefix_expression();
        let mut left = self.parse_postfix_expression(prefix);
        let mut done = false;
        while !done
            invariant
                self.advanced_from(old(self)),
                ts == old(self).tokens(),
                old(self).position() < old(self).tokens().len() ==> old(self).position()
                    < self.position(),
                whole == prec_spec(ts, old(self).position(), old(self).diags(), precedence),
                !done ==> prec_loop(ts, self.position(), self.diags(), precedence, left@) == whole,
                done ==> self.reached(whole) && left@ == whole.0,
            decreases self.remaining() + if done { 0int } else { 1int },
        {
            match self.current() {
                None => {
                    done = true;
                },
                Some(tok) => {
                    match Precedence::of_token(&tok.kind) {
                        None => {
                            done = true;
                        },
                        Some(next_prec) => {
                            if !precedence.at_most(next_prec) {
                                done = true;
                            } else {
                                let operator = &tok.kind;
                                self.advance();
                                let rhs_precedence = if Precedence::is_right_associative(operator) {
                                    next_prec
                                } else {
                                    next_prec.next()
                                };
                                let right = self.parse_precedence(rhs_precedence);
                                let span = SourceSpan::new(
                                    left.span.file_id(),
                                    left.span.start(),
                                    right.span.end(),
                                );
                                let operator_name = self.operator_name(operator);
                                left = Expression {
                                    kind: ExpressionKind::Binary {
                                        left: Box::new(left),
                                        operator: operator_name,
                                        right: Box::new(right),
                                    },
                                    span,
                                };
                            }
                        },
                    }
                },
            }
        }
        left
    }

    /// Calls, method calls, member accesses and indexing after `expression`.
    fn parse_postfix_expression(&mut self, expression: Expression) -> (result: Expression)
        requires
            old(self).wf(),
        ensures
            final(self).advanced_from(old(self)),
            final(self).reached(postfix_spec(old(self).tokens(), old(self).position(), old(self).diags(), expression@)),
            result@ == postfix_spec(old(self).tokens(), old(self).position(), old(self).diags(), expression@).0,
        decreases old(self).remaining(), 13int,
    {
        let ghost ts = self.tokens();
        let ghost whole = postfix_spec(ts, self.position(), self.diags(), expression@);
        let mut expression = expression;
        let mut done = false;
        while !done
            invariant
                self.advanced_from(old(self)),
                ts == old(self).tokens(),
                !done ==> postfix_spec(ts, self.position(), self.diags(), expression@) == whole,
                done ==> self.reached(whole) && expression@ == whole.0,
            decreases self.remaining() + if done { 0int } else { 1int },
        {
            match self.current_kind() {
                Some(TokenKind::LeftParen) => {
                    expression = self.parse_call_expression(expression);
                },
                Some(TokenKind::StringLiteral(_)) | Some(TokenKind::LeftBrace) | Some(
                    TokenKind::InterpolatedString(_),
                ) => {
                    expression = self.parse_shorthand_call(expression);
                },
                Some(TokenKind::Colon) => {
                    expression = self.parse_method_call(expression);
                },
                Some(TokenKind::Dot) => {
                    expression = self.parse_member_access(expression);
                },
                Some(TokenKind::LeftBracket) => {
                    expression = self.parse_index_expression(expression);
                },
                _ => {
                    done = true;
                },
            }
        }
        expression
    }

    /// Expressions separated by commas up to `)` or the end.
    fn parse_arguments(&mut self) -> (result: Vec<Expression>)
        requires
            old(self).wf(),
        ensures
            final(self).advanced_from(old(self)),
            final(self).reached(args_spec(old(self).tokens(), old(self).position(), old(self).diags(), seq![])),
            exprs_view(result@) == args_spec(old(self).tokens(), old(self).position(), old(self).diags(), seq![]).0,
        decreases old(self).remaining(), 16int,
    {
        let ghost ts = self.tokens();
        let ghost whole = args_spec(ts, self.position(), self.diags(), seq![]);
        let mut arguments: Vec<Expression> = Vec::new();
        let mut done = false;
        assert(exprs_view(arguments@) =~= seq![]);
        while !done
            invariant
                self.advanced_from(old(self)),
                ts == old(self).tokens(),
                !done ==> args_spec(ts, self.position(), self.diags(), exprs_view(arguments@)) == whole,
                done ==> self.reached(whole) && exprs_view(arguments@) == whole.0,
            decreases self.remaining() + if done { 0int } else { 1int },
        {
            if matches!(self.current_kind(), Some(TokenKind::RightParen) | Some(TokenKind::EOF)) {
                done = true;
            } else {
                let ghost before = arguments@;
                let argument = self.parse_expression();
                arguments.push(argument);
                proof {
                    lemma_exprs_view_push(before, argument);
                }
                if matches!(self.current_kind(), Some(TokenKind::Comma)) {
                    self.advance();
                } else {
                    done = true;
                }
            }
        }
        arguments
    }

    /// A call with parenthesised arguments; the current token is `(`.
    fn parse_call_expression(&mut self, callee: Expression) -> (result: Expression)
        requires
            old(self).wf(),
            old(self).position() < old(self).tokens().len(),
        ensures
            final(self).advanced_from(old(self)),
            old(self).position() < final(self).position(),
            final(self).reached(call_spec(old(self).tokens(), old(self).position(), old(self).diags(), callee@)),
            result@ == call_spec(old(self).tokens(), old(self).position(), old(self).diags(), callee@).0,
        decreases old(self).remaining(), 11int,
    {
        let start = callee.span.start();
        let file_id = callee.span.file_id();
        self.advance();
        let arguments = self.parse_arguments();
        let end = match self.current() {
            Some(tok) => tok.span.end(),
            None => start,
        };
        if matches!(self.current_kind(), Some(TokenKind::RightParen)) {
            self.advance();
        } else {
            let span = SourceSpan::new(file_id, start, end);
            self.emit_error_with_help("Expected ')' after argument list", span, "Insert ')' here");
        }
        Expression {
            kind: ExpressionKind::Call { callee: Box::new(callee), arguments },
            span: SourceSpan::new(file_id, start, end),
        }
    }

    /// A call whose single argument is a string literal, an interpolated
    /// string or a table constructor, written without parentheses.
    fn parse_shorthand_call(&mut self, callee: Expression) -> (result: Expression)
        requires
            old(self).wf(),
            old(self).current_token() matches Some(t) && (t.kind is StringLiteral || t.kind is InterpolatedString || t.kind is LeftBrace),
        ensures
            final(self).advanced_from(old(self)),
            old(self).position() < final(self).position(),
            final(self).reached(shorthand_spec(old(self).tokens(), old(self).position(), old(self).diags(), callee@)),
            result@ == shorthand_spec(old(self).tokens(), old(self).position(), old(self).diags(), callee@).0,
        decreases old(self).remaining(), 12int,
    {
        let start = callee.span.start();
        let file_id = callee.span.file_id();
        let mut arguments: Vec<Expression> = Vec::new();
        let arg = match self.current_kind() {
            Some(TokenKind::StringLiteral(_)) | Some(TokenKind::InterpolatedString(_)) => {
                self.parse_prefix_expression()
            },
            _ => {
                self.parse_table_constructor()
            },
        };
        let end = arg.span.end();
        arguments.push(arg);
        proof {
            lemma_exprs_view_push(Seq::empty(), arg);
            assert(arguments@ =~= seq![arg]);
        }
        Expression {
            kind: ExpressionKind::Call { callee: Box::new(callee), arguments },
            span: SourceSpan::new(file_id, start, end),
        }
    }

    /// `receiver:method(...)`; the current token is `:`.
    fn parse_method_call(&mut self, receiver: Expression) -> (result: Expression)
        requires
            old(self).wf(),
            old(self).position() < old(self).tokens().len(),
        ensures
            final(self).advanced_from(old(self)),
            old(self).position() < final(self).position(),
            final(self).reached(method_spec(old(self).tokens(), old(self).position(), old(self).diags(), receiver@)),
            result@ == method_spec(old(self).tokens(), old(self).position(), old(self).diags(), receiver@).0,
        decreases old(self).remaining(), 11int,
    {
        let start = receiver.span.start();
        let file_id = receiver.span.file_id();
        self.advance();
        let method_name = match self.current_kind() {
            Some(TokenKind::Identifier(name)) => {
                let name = name.clone();
                self.advance();
                name
            },
            _ => String::new(),
        };
        let mut arguments: Vec<Expression> = Vec::new();
        if matches!(self.current_kind(), Some(TokenKind::LeftParen)) {
            self.advance();
            arguments = self.parse_arguments();
            if matches!(self.current_kind(), Some(TokenKind::RightParen)) {
                self.advance();
            }
        } else {
            match self.current_kind() {
                Some(TokenKind::StringLiteral(_)) | Some(TokenKind::InterpolatedString(_)) => {
                    let arg = self.parse_prefix_expression();
                    arguments.push(arg);
                    proof {
                        lemma_exprs_view_push(Seq::empty(), arg);
                        assert(arguments@ =~= seq![arg]);
                    }
                },
                Some(TokenKind::LeftBrace) => {
                    let arg = self.parse_table_constructor();
                    arguments.push(arg);
                    proof {
                        lemma_exprs_view_push(Seq::empty(), arg);
                        assert(arguments@ =~= seq![arg]);
                    }
                },
                _ => {
                    assert(exprs_view(arguments@) =~= seq![]);
                },
            }
        }
        proof {
            lemma_exprs_view_len(arguments@);
        }
        let end = if arguments.len() > 0 {
            arguments[arguments.len() - 1].span.end()
        } else {
            method_name_end(start, &method_name)
        };
        Expression {
            kind: ExpressionKind::MethodCall { receiver: Box::new(receiver), method: method_name, arguments },
            span: SourceSpan::new(file_id, start, end),
        }
    }

    /// `object.property`; the current token is `.`.
    fn parse_member_access(&mut self, object: Expression) -> (result: Expression)
        requires
            old(self).wf(),
            old(self).position() < old(self).tokens().len(),
        ensures
            final(self).advanced_from(old(self)),
            old(self).position() < final(self).position(),
            final(self).reached(member_spec(old(self).tokens(), old(self).position(), old(self).diags(), object@)),
            result@ == member_spec(old(self).tokens(), old(self).position(), old(self).diags(), object@).0,
        decreases old(self).remaining(), 11int,
    {
        let start = object.span.start();
        let file_id = object.span.file_id();
        self.advance();
        let property = match self.current_kind() {
            Some(TokenKind::Identifier(name)) => {
                let name = name.clone();
                self.advance();
                name
            },
            _ => String::new(),
        };
        let end = match self.current() {
            Some(tok) => tok.span.end(),
            None => method_name_end(start, &property),
        };
        Expression {
            kind: ExpressionKind::MemberAccess { object: Box::new(object), property },
            span: SourceSpan::new(file_id, start, end),
        }
    }

    /// `object[index]`; the current token is `[`.
    fn parse_index_expression(&mut self, object: Expression) -> (result: Expression)
        requires
            old(self).wf(),
            old(self).position() < old(self).tokens().len(),
        ensures
            final(self).advanced_from(old(self)),
            old(self).position() < final(self).position(),
            final(self).reached(index_spec(old(self).tokens(), old(self).position(), old(self).diags(), object@)),
            result@ == index_spec(old(self).tokens(), old(self).position(), old(self).diags(), object@).0,
        decreases old(self).remaining(), 11int,
    {
        let start = object.span.start();
        let file_id = object.span.file_id();
        self.advance();
        let index = self.parse_expression();
        let end = match self.current() {
            Some(tok) => tok.span.end(),
            None => start,
        };
        if matches!(self.current_kind(), Some(TokenKind::RightBracket)) {
            self.advance();
        }
        Expression {
            kind: ExpressionKind::Index { object: Box::new(object), index: Box::new(index) },
            span: SourceSpan::new(file_id, start, end),
        }
    }

    /// One entry of a table constructor.
    fn parse_table_field(&mut self) -> (result: TableField)
        requires
            old(self).wf(),
        ensures
            final(self).advanced_from(old(self)),
            old(self).position() < old(self).tokens().len() ==> old(self).position() < final(self).position(),
            final(self).reached(field_spec(old(self).tokens(), old(self).position(), old(self).diags())),
            field_view(result) == field_spec(old(self).tokens(), old(self).position(), old(self).diags()).0,
        decreases old(self).remaining(), 16int,
    {
        match self.current_kind() {
            Some(TokenKind::Identifier(name)) => {
                if matches!(self.peek_kind(), Some(TokenKind::Equal)) {
                    let key = name.clone();
                    self.advance();
                    self.advance();
                    let value = self.parse_expression();
                    TableField::Named { key, value }
                } else {
                    let expr = self.parse_expression();
                    TableField::Expression(expr)
                }
            },
            Some(TokenKind::LeftBracket) => {
                self.advance();
                let key = self.parse_expression();
                if matches!(self.current_kind(), Some(TokenKind::RightBracket)) {
                    self.advance();
                } else {
                    let span = key.span;
                    self.emit_error_with_help(
                        "Expected ']' after table index",
                        span,
                        "Insert ']' here",
                    );
                }
                if matches!(self.current_kind(), Some(TokenKind::Equal)) {
                    self.advance();
                    let value = self.parse_expression();
                    TableField::Indexed { key, value }
                } else {
                    TableField::Expression(key)
                }
            },
            _ => {
                let expr = self.parse_expression();
                TableField::Expression(expr)
            },
        }
    }

    /// `{ fields }`; the current token is `{`.
    fn parse_table_constructor(&mut self) -> (result: Expression)
        requires
            old(self).wf(),
            old(self).position() < old(self).tokens().len(),
        ensures
            final(self).advanced_from(old(self)),
            old(self).position() < final(self).position(),
            final(self).reached(table_spec(old(self).tokens(), old(self).position(), old(self).diags())),
            result@ == table_spec(old(self).tokens(), old(self).position(), old(self).diags()).0,
        decreases old(self).remaining(), 11int,
    {
        let ghost ts = self.tokens();
        let start = match self.current() {
            Some(tok) => tok.span.start(),
            None => 0,
        };
        let file_id = match self.current() {
            Some(tok) => tok.span.file_id(),
            None => FileId::new(0),
        };
        self.advance();
        let ghost whole = fields_spec(ts, self.position(), self.diags(), seq![]);
        let mut fields: Vec<TableField> = Vec::new();
        let mut done = false;
        assert(fields_view(fields@) =~= seq![]);
        while !done
            invariant
                self.advanced_from(old(self)),
                ts == old(self).tokens(),
                old(self).position() < self.position(),
                whole == fields_spec(ts, old(self).position() + 1, old(self).diags(), seq![]),
                !done ==> fields_spec(ts, self.position(), self.diags(), fields_view(fields@)) == whole,
                done ==> self.reached(whole) && fields_view(fields@) == whole.0,
            decreases self.remaining() + if done { 0int } else { 1int },
        {
            if matches!(self.current_kind(), Some(TokenKind::RightBrace) | Some(TokenKind::EOF)) {
                done = true;
            } else {
                let ghost before = fields@;
                let field = self.parse_table_field();
                proof {
                    lemma_fields_view_push(before, field);
                }
                fields.push(field);
                if matches!(self.current_kind(), Some(TokenKind::Comma) | Some(TokenKind::Semicolon)) {
                    self.advance();
                } else {
                    done = true;
                }
            }
        }
        let end = match self.current() {
            Some(tok) => tok.span.end(),
            None => start,
        };
        if matches!(self.current_kind(), Some(TokenKind::RightBrace)) {
            self.advance();
        } else {
            let span = SourceSpan::new(file_id, start, end);
            self.emit_error_with_help(
                "Expected '}' to close table constructor",
                span,
                "Insert '}' here",
            );
        }
        Expression { kind: ExpressionKind::TableConstructor(fields), span: SourceSpan::new(file_id, start, end) }
    }
}

/// Where a method name or property that starts at `start` ends, when no
/// token follows it (`start` plus its length, saturating).
fn method_name_end(start: usize, name: &String) -> (result: usize)
    ensures
        result == name_end(start, name@),
{
    let n = str_byte_len(name.as_str());
    start.saturating_add(n)
}

/// `chars` without its leading and trailing white space, as a string.
pub(crate) fn trimmed_string(chars: &Vec<char>) -> (result: String)
    ensures
        result@ == trim(chars@),
{
    let n = chars.len();
    let mut a: usize = 0;
    while a < n && char_is_whitespace(chars[a])
        invariant
            a <= n == chars@.len(),
            trim_lo(chars@, a as int) == trim_lo(chars@, 0),
        decreases n - a,
    {
        a = a + 1;
    }
    let mut b: usize = n;
    while b > a && char_is_whitespace(chars[b - 1])
        invariant
            a <= b <= n == chars@.len(),
            a == trim_lo(chars@, 0),
            trim_hi(chars@, a as int, b as int) == trim_hi(chars@, a as int, n as int),
        decreases b,
    {
        b = b - 1;
    }
    let mut out = String::new();
    let mut i = a;
    while i < b
        invariant
            a <= i <= b <= n == chars@.len(),
            out@ == chars@.subrange(a as int, i as int),
        decreases b - i,
    {
        push_char(&mut out, chars[i]);
        i = i + 1;
        assert(out@ =~= chars@.subrange(a as int, i as int));
    }
    assert(out@ =~= chars@.subrange(a as int, b as int));
    out
}

/// Splits the raw text of an interpolated string into literal text and the
/// names written inside braces (nested braces are kept in the name).
fn parse_interpolated_string_parts(raw: &str) -> (result: Vec<InterpolatedStringPart>)
    ensures
        parts_view(result@) == interp_parts(raw@),
{
    let n = raw.unicode_len();
    let mut parts: Vec<InterpolatedStringPart> = Vec::new();
    let mut current_text = String::new();
    let mut i: usize = 0;
    assert(parts_view(parts@) =~= seq![]);
    assert(current_text@ =~= seq![]);
    while i < n
        invariant
            i <= n == raw@.len(),
            interp_scan(raw@, i as int, current_text@, parts_view(parts@)) == interp_parts(raw@),
        decreases n - i,
    {
        let ch = raw.get_char(i);
        let ghost i0 = i as int;
        let ghost text0 = current_text@;
        let ghost parts0 = parts_view(parts@);
        i = i + 1;
        if ch == '{' {
            if current_text.as_str().unicode_len() > 0 {
                let ghost before = parts@;
                let piece = InterpolatedStringPart::Text(current_text);
                proof {
                    lemma_parts_view_push(before, piece);
                }
                parts.push(piece);
                current_text = String::new();
            }
            let ghost parts1 = parts_view(parts@);
            let mut expr_content: Vec<char> = Vec::new();
            let mut depth: usize = 1;
            let mut closed = false;
            let ghost scan = brace_scan(raw@, i as int, 1, seq![]);
            assert(expr_content@ =~= seq![]);
            while i < n && !closed
                invariant
                    i <= n == raw@.len(),
                    i0 < i,
                    1 <= depth <= i,
                    scan == brace_scan(raw@, i0 + 1, 1, seq![]),
                    !closed ==> brace_scan(raw@, i as int, depth as nat, expr_content@) == scan,
                    closed ==> scan == (i as int, expr_content@),
                decreases n - i,
            {
                let inner = raw.get_char(i);
                i = i + 1;
                if inner == '{' {
                    depth = depth + 1;
                    expr_content.push(inner);
                } else if inner == '}' {
                    if depth <= 1 {
                        closed = true;
                    } else {
                        depth = depth - 1;
                        expr_content.push(inner);
                    }
                } else {
                    expr_content.push(inner);
                }
            }
            let name = trimmed_string(&expr_content);
            let ghost before = parts@;
            let piece = InterpolatedStringPart::Expression(
                Expression {
                    kind: ExpressionKind::Identifier(name),
                    span: SourceSpan::new(FileId::new(0), 0, 0),
                },
            );
            proof {
                lemma_parts_view_push(before, piece);
                assert(current_text@ =~= seq![]);
            }
            parts.push(piece);
        } else {
            push_char(&mut current_text, ch);
        }
    }
    if current_text.as_str().unicode_len() > 0 {
        let ghost before = parts@;
        let piece = InterpolatedStringPart::Text(current_text);
        proof {
            lemma_parts_view_push(before, piece);
        }
        parts.push(piece);
    }
    parts
}

} // verus!
