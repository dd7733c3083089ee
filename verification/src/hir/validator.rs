//! Checks of the high-level representation: every symbol and scope an item
//! names exists, local variable references carry their symbol and type,
//! error expressions are reported, and returned values fit the declared
//! result type.
use vstd::prelude::*;

use crate::hir::expression::{HirExpression, HirExpressionKind, HirTableField};
use crate::hir::function::{HirFunction, HirParameter};
use crate::hir::ids::{HirScopeId, HirSymbolId};
use crate::hir::module::{HirGlobalVariable, HirModule, HirTypeAlias};
use crate::hir::printer::{type_debug, type_debug_str};
use crate::hir::statement::{HirLocalVariable, HirStatement, HirStatementKind};
use crate::hir::symbol::{HirScope, HirSymbol};
use crate::hir::types::HirType;
use crate::source::SourceSpan;
use crate::text::{decimal, push_decimal, push_str, to_owned_string};

verus! {

/// Collects the problems found in modules. Problems accumulate across calls.
pub struct HirValidator {
    errors: Vec<HirValidationError>,
    known_symbols: Vec<HirSymbolId>,
    known_scopes: Vec<HirScopeId>,
    current_return_type: Option<HirType>,
}

/// One problem found by the validator, with where it is.
#[derive(Debug, Clone)]
pub enum HirValidationError {
    InvalidControlFlow { message: String, span: SourceSpan },
    InvalidExpression { message: String, span: SourceSpan },
}

/// An error as plain values: whether it is about control flow, its message,
/// and where it is.
pub type HirIssue = (bool, Seq<char>, SourceSpan);

impl View for HirValidationError {
    type V = HirIssue;

    open spec fn view(&self) -> HirIssue {
        match self {
            HirValidationError::InvalidControlFlow { message, span } => (true, message@, *span),
            HirValidationError::InvalidExpression { message, span } => (false, message@, *span),
        }
    }
}

/// The views of a list of errors.
pub open spec fn hir_issues_of(errors: Seq<HirValidationError>) -> Seq<HirIssue> {
    errors.map_values(|e: HirValidationError| e@)
}

/// An expression problem.
pub open spec fn expression_issue(message: Seq<char>, span: SourceSpan) -> Seq<HirIssue> {
    seq![(false, message, span)]
}

/// The problem of naming `id` where `context` says: none when the symbol
/// is known.
pub open spec fn symbol_issue(known: Seq<HirSymbolId>, id: HirSymbolId, span: SourceSpan, context: Seq<char>) -> Seq<HirIssue> {
    if known.contains(id) {
        seq![]
    } else {
        expression_issue("Invalid "@ + context + ": unknown symbol #"@ + decimal(id.0 as nat), span)
    }
}

/// The problem of naming `id` where `context` says: none when the scope is
/// known.
pub open spec fn scope_issue(known: Seq<HirScopeId>, id: HirScopeId, span: SourceSpan, context: Seq<char>) -> Seq<HirIssue> {
    if known.contains(id) {
        seq![]
    } else {
        expression_issue("Invalid "@ + context + ": unknown scope #"@ + decimal(id.0 as nat), span)
    }
}

/// The problems of an expression and the expressions in it, in order.
pub open spec fn expr_issues(e: HirExpression, ks: Seq<HirSymbolId>) -> Seq<HirIssue>
    decreases e,
{
    (match e.symbol_id {
        Some(s) => symbol_issue(ks, s, e.span, "expression symbol"@),
        None => seq![],
    }) + match e.kind {
        HirExpressionKind::Unary { operand, .. } => expr_issues(*operand, ks),
        HirExpressionKind::Binary { left, right, .. } => expr_issues(*left, ks) + expr_issues(*right, ks),
        HirExpressionKind::TableConstructor(fields) => fields_issues(fields@, ks),
        HirExpressionKind::Index { object, index } => expr_issues(*object, ks) + expr_issues(*index, ks),
        HirExpressionKind::FieldAccess { object, .. } => expr_issues(*object, ks),
        HirExpressionKind::FunctionCall { callee, arguments } => expr_issues(*callee, ks) + exprs_issues(arguments@, ks),
        HirExpressionKind::MethodCall { receiver, arguments, .. } => expr_issues(*receiver, ks) + exprs_issues(arguments@, ks),
        HirExpressionKind::BuiltinCall { arguments, .. } => exprs_issues(arguments@, ks),
        HirExpressionKind::LocalVariable(_) => (if e.symbol_id.is_none() {
            expression_issue("Local variable reference is missing a symbol"@, e.span)
        } else {
            seq![]
        }) + (if e.expr_type.is_none() {
            expression_issue("Local variable reference is missing a type"@, e.span)
        } else {
            seq![]
        }),
        HirExpressionKind::Error => expression_issue("Expression contains error"@, e.span),
        _ => seq![],
    }
}

/// The problems of a run of expressions, in order.
pub open spec fn exprs_issues(es: Seq<HirExpression>, ks: Seq<HirSymbolId>) -> Seq<HirIssue>
    decreases es,
{
    if es.len() == 0 {
        seq![]
    } else {
        exprs_issues(es.drop_last(), ks) + expr_issues(es.last(), ks)
    }
}

/// The problems of a run of table fields, in order.
pub open spec fn fields_issues(fs: Seq<HirTableField>, ks: Seq<HirSymbolId>) -> Seq<HirIssue>
    decreases fs,
{
    if fs.len() == 0 {
        seq![]
    } else {
        fields_issues(fs.drop_last(), ks) + match fs.last() {
            HirTableField::Named { value, .. } => expr_issues(value, ks),
            HirTableField::Indexed { key, value } => expr_issues(key, ks) + expr_issues(value, ks),
            HirTableField::Expression(e) => expr_issues(e, ks),
        }
    }
}

/// A value of type `actual` may stand where `expected` is declared: the
/// types are equal, or either is `any` or unknown.
pub open spec fn types_compatible(expected: HirType, actual: HirType) -> bool {
    expected == actual || expected == HirType::Any || expected == HirType::Unknown || actual == HirType::Any
        || actual == HirType::Unknown
}

/// The problem of returning a value of type `actual` from a function
/// declared to return `expected`.
pub open spec fn return_type_issue(expected: Option<HirType>, actual: Option<HirType>, span: SourceSpan) -> Seq<HirIssue> {
    match (expected, actual) {
        (Some(x), Some(a)) => if types_compatible(x, a) {
            seq![]
        } else {
            expression_issue("Return type mismatch: expected "@ + type_debug(x) + ", got "@ + type_debug(a), span)
        },
        _ => seq![],
    }
}

/// The problems of the returned values, each followed by its type problem.
pub open spec fn returned_issues(es: Seq<HirExpression>, expected: Option<HirType>, ks: Seq<HirSymbolId>) -> Seq<HirIssue>
    decreases es.len(),
{
    if es.len() == 0 {
        seq![]
    } else {
        returned_issues(es.drop_last(), expected, ks) + expr_issues(es.last(), ks) + return_type_issue(
            expected,
            es.last().expr_type,
            es.last().span,
        )
    }
}

/// The problems of a variable's symbol and scope.
pub open spec fn variable_issues(v: HirLocalVariable, ks: Seq<HirSymbolId>, kc: Seq<HirScopeId>) -> Seq<HirIssue> {
    symbol_issue(ks, v.symbol_id, v.span, "local variable symbol"@) + scope_issue(kc, v.scope_id, v.span, "local variable scope"@)
}

/// The problems of a statement of a function declared to return `ret`.
pub open spec fn stmt_issues(s: HirStatement, ret: Option<HirType>, ks: Seq<HirSymbolId>, kc: Seq<HirScopeId>) -> Seq<HirIssue>
    decreases s,
{
    match s.kind {
        HirStatementKind::LocalVariable { variable, initializer } => variable_issues(variable, ks, kc) + match initializer {
            Some(e) => expr_issues(e, ks),
            None => seq![],
        },
        HirStatementKind::Assignment { targets, values } => exprs_issues(targets@, ks) + exprs_issues(values@, ks),
        HirStatementKind::Expression(e) => expr_issues(e, ks),
        HirStatementKind::Return(es) => match es {
            Some(v) => returned_issues(v@, ret, ks),
            None => seq![],
        },
        HirStatementKind::If { condition, then_block, else_block } => expr_issues(condition, ks) + stmts_issues(
            then_block@,
            ret,
            ks,
            kc,
        ) + match else_block {
            Some(e) => stmts_issues(e@, ret, ks, kc),
            None => seq![],
        },
        HirStatementKind::While { condition, body } => expr_issues(condition, ks) + stmts_issues(body@, ret, ks, kc),
        HirStatementKind::RepeatUntil { body, condition } => stmts_issues(body@, ret, ks, kc) + expr_issues(condition, ks),
        HirStatementKind::ForNumeric { start, end, step, body, .. } => expr_issues(start, ks) + expr_issues(end, ks) + match step {
            Some(e) => expr_issues(e, ks),
            None => seq![],
        } + stmts_issues(body@, ret, ks, kc),
        HirStatementKind::ForGeneric { iterables, body, .. } => exprs_issues(iterables@, ks) + stmts_issues(body@, ret, ks, kc),
        HirStatementKind::Block(statements) => stmts_issues(statements@, ret, ks, kc),
        HirStatementKind::Function { function } => function_issues(function, ks, kc),
        _ => seq![],
    }
}

/// The problems of a run of statements, in order.
pub open spec fn stmts_issues(ss: Seq<HirStatement>, ret: Option<HirType>, ks: Seq<HirSymbolId>, kc: Seq<HirScopeId>) -> Seq<HirIssue>
    decreases ss,
{
    if ss.len() == 0 {
        seq![]
    } else {
        stmts_issues(ss.drop_last(), ret, ks, kc) + stmt_issues(ss.last(), ret, ks, kc)
    }
}

/// The problems of the parameters' symbols and scopes.
pub open spec fn params_issues(ps: Seq<HirParameter>, ks: Seq<HirSymbolId>, kc: Seq<HirScopeId>) -> Seq<HirIssue>
    decreases ps.len(),
{
    if ps.len() == 0 {
        seq![]
    } else {
        params_issues(ps.drop_last(), ks, kc) + symbol_issue(ks, ps.last().symbol_id, ps.last().span, "parameter symbol"@)
            + scope_issue(kc, ps.last().scope_id, ps.last().span, "parameter scope"@)
    }
}

/// The problems of the local variables' symbols and scopes.
pub open spec fn locals_issues(vs: Seq<HirLocalVariable>, ks: Seq<HirSymbolId>, kc: Seq<HirScopeId>) -> Seq<HirIssue>
    decreases vs.len(),
{
    if vs.len() == 0 {
        seq![]
    } else {
        locals_issues(vs.drop_last(), ks, kc) + variable_issues(vs.last(), ks, kc)
    }
}

/// The problems of a function: its symbol and scope, its parameters, its
/// locals, then its body checked against its declared result type.
pub open spec fn function_issues(f: HirFunction, ks: Seq<HirSymbolId>, kc: Seq<HirScopeId>) -> Seq<HirIssue>
    decreases f,
{
    symbol_issue(ks, f.symbol_id, f.span, "function symbol"@) + scope_issue(kc, f.scope_id, f.span, "function scope"@)
        + params_issues(f.parameters@, ks, kc) + locals_issues(f.local_variables@, ks, kc) + stmts_issues(
        f.body@,
        f.return_type,
        ks,
        kc,
    )
}

/// The problems of a run of functions, in order.
pub open spec fn functions_issues(fs: Seq<HirFunction>, ks: Seq<HirSymbolId>, kc: Seq<HirScopeId>) -> Seq<HirIssue>
    decreases fs.len(),
{
    if fs.len() == 0 {
        seq![]
    } else {
        functions_issues(fs.drop_last(), ks, kc) + function_issues(fs.last(), ks, kc)
    }
}

/// The problems of a scope's parent and listed symbols.
pub open spec fn scope_entry_issues(s: HirScope, span: SourceSpan, ks: Seq<HirSymbolId>, kc: Seq<HirScopeId>) -> Seq<HirIssue> {
    (match s.parent {
        Some(p) => scope_issue(kc, p, span, "scope parent"@),
        None => seq![],
    }) + listed_symbols_issues(s.symbols@, span, ks)
}

/// The problems of symbols listed by a scope.
pub open spec fn listed_symbols_issues(ids: Seq<HirSymbolId>, span: SourceSpan, ks: Seq<HirSymbolId>) -> Seq<HirIssue>
    decreases ids.len(),
{
    if ids.len() == 0 {
        seq![]
    } else {
        listed_symbols_issues(ids.drop_last(), span, ks) + symbol_issue(ks, ids.last(), span, "scope symbol"@)
    }
}

/// The problems of the scopes, in order.
pub open spec fn scopes_issues(ss: Seq<HirScope>, span: SourceSpan, ks: Seq<HirSymbolId>, kc: Seq<HirScopeId>) -> Seq<HirIssue>
    decreases ss.len(),
{
    if ss.len() == 0 {
        seq![]
    } else {
        scopes_issues(ss.drop_last(), span, ks, kc) + scope_entry_issues(ss.last(), span, ks, kc)
    }
}

/// The problems of the symbols' scopes, in order.
pub open spec fn symbols_issues(ss: Seq<HirSymbol>, kc: Seq<HirScopeId>) -> Seq<HirIssue>
    decreases ss.len(),
{
    if ss.len() == 0 {
        seq![]
    } else {
        symbols_issues(ss.drop_last(), kc) + scope_issue(kc, ss.last().scope_id, ss.last().span, "symbol scope"@)
    }
}

/// The problems of a global variable.
pub open spec fn global_issues(g: HirGlobalVariable, ks: Seq<HirSymbolId>, kc: Seq<HirScopeId>) -> Seq<HirIssue> {
    symbol_issue(ks, g.symbol_id, g.span, "global variable symbol"@) + scope_issue(kc, g.scope_id, g.span, "global variable scope"@)
        + match g.initializer {
        Some(e) => expr_issues(e, ks),
        None => seq![],
    }
}

/// The problems of the global variables, in order.
pub open spec fn globals_issues(gs: Seq<HirGlobalVariable>, ks: Seq<HirSymbolId>, kc: Seq<HirScopeId>) -> Seq<HirIssue>
    decreases gs.len(),
{
    if gs.len() == 0 {
        seq![]
    } else {
        globals_issues(gs.drop_last(), ks, kc) + global_issues(gs.last(), ks, kc)
    }
}

/// The problems of the type aliases, in order.
pub open spec fn aliases_issues(ts: Seq<HirTypeAlias>, ks: Seq<HirSymbolId>, kc: Seq<HirScopeId>) -> Seq<HirIssue>
    decreases ts.len(),
{
    if ts.len() == 0 {
        seq![]
    } else {
        aliases_issues(ts.drop_last(), ks, kc) + symbol_issue(ks, ts.last().symbol_id, ts.last().span, "type alias symbol"@)
            + scope_issue(kc, ts.last().scope_id, ts.last().span, "type alias scope"@)
    }
}

/// The ids of the module's symbols.
pub open spec fn module_symbol_ids(m: HirModule) -> Seq<HirSymbolId> {
    m.symbols@.map_values(|s: HirSymbol| s.id)
}

/// The ids of the module's scopes.
pub open spec fn module_scope_ids(m: HirModule) -> Seq<HirScopeId> {
    m.scopes@.map_values(|s: HirScope| s.id)
}

/// Everything the validator reports for a module, against the symbols and
/// scopes the module itself lists.
pub open spec fn module_issues(m: HirModule) -> Seq<HirIssue> {
    let ks = module_symbol_ids(m);
    let kc = module_scope_ids(m);
    (match m.metadata.root_scope {
        Some(r) => scope_issue(kc, r, m.span, "module root scope"@),
        None => seq![],
    }) + scopes_issues(m.scopes@, m.span, ks, kc) + symbols_issues(m.symbols@, kc) + functions_issues(m.functions@, ks, kc)
        + globals_issues(m.global_variables@, ks, kc) + aliases_issues(m.type_aliases@, ks, kc)
}

/// Whether `id` is among `ids`.
fn symbol_known(ids: &Vec<HirSymbolId>, id: HirSymbolId) -> (result: bool)
    ensures
        result == ids@.contains(id),
{
    let mut i: usize = 0;
    while i < ids.len()
        invariant
            i <= ids@.len(),
            forall|k: int| 0 <= k < i ==> ids@[k] != id,
        decreases ids.len() - i,
    {
        if ids[i] == id {
            assert(ids@[i as int] == id);
            return true;
        }
        i = i + 1;
    }
    false
}

/// Whether `id` is among `ids`.
fn scope_known(ids: &Vec<HirScopeId>, id: HirScopeId) -> (result: bool)
    ensures
        result == ids@.contains(id),
{
    let mut i: usize = 0;
    while i < ids.len()
        invariant
            i <= ids@.len(),
            forall|k: int| 0 <= k < i ==> ids@[k] != id,
        decreases ids.len() - i,
    {
        if ids[i] == id {
            assert(ids@[i as int] == id);
            return true;
        }
        i = i + 1;
    }
    false
}

/// The ids of the symbols, in order.
fn symbol_ids_of(symbols: &Vec<HirSymbol>) -> (result: Vec<HirSymbolId>)
    ensures
        result@ == symbols@.map_values(|s: HirSymbol| s.id),
{
    let mut out: Vec<HirSymbolId> = Vec::new();
    let mut i: usize = 0;
    while i < symbols.len()
        invariant
            i <= symbols@.len(),
            out@ == symbols@.subrange(0, i as int).map_values(|s: HirSymbol| s.id),
        decreases symbols.len() - i,
    {
        out.push(symbols[i].id);
        assert(symbols@.subrange(0, i + 1).map_values(|s: HirSymbol| s.id) =~= symbols@.subrange(0, i as int).map_values(
            |s: HirSymbol| s.id,
        ).push(symbols@[i as int].id));
        i = i + 1;
    }
    assert(symbols@.subrange(0, symbols@.len() as int) =~= symbols@);
    out
}

/// The ids of the scopes, in order.
fn scope_ids_of(scopes: &Vec<HirScope>) -> (result: Vec<HirScopeId>)
    ensures
        result@ == scopes@.map_values(|s: HirScope| s.id),
{
    let mut out: Vec<HirScopeId> = Vec::new();
    let mut i: usize = 0;
    while i < scopes.len()
        invariant
            i <= scopes@.len(),
            out@ == scopes@.subrange(0, i as int).map_values(|s: HirScope| s.id),
        decreases scopes.len() - i,
    {
        out.push(scopes[i].id);
        assert(scopes@.subrange(0, i + 1).map_values(|s: HirScope| s.id) =~= scopes@.subrange(0, i as int).map_values(
            |s: HirScope| s.id,
        ).push(scopes@[i as int].id));
        i = i + 1;
    }
    assert(scopes@.subrange(0, scopes@.len() as int) =~= scopes@);
    out
}

/// The message for an unknown symbol or scope.
fn unknown_message(context: &str, what: &str, n: usize) -> (result: String)
    ensures
        result@ == "Invalid "@ + context@ + what@ + decimal(n as nat),
{
    let mut message = to_owned_string("Invalid ");
    push_str(&mut message, context);
    push_str(&mut message, what);
    push_decimal(&mut message, n);
    message
}

/// A copy of an error.
fn copy_error(e: &HirValidationError) -> (result: HirValidationError)
    ensures
        result@ == e@,
{
    match e {
        HirValidationError::InvalidControlFlow { message, span } => HirValidationError::InvalidControlFlow {
            message: to_owned_string(message.as_str()),
            span: *span,
        },
        HirValidationError::InvalidExpression { message, span } => HirValidationError::InvalidExpression {
            message: to_owned_string(message.as_str()),
            span: *span,
        },
    }
}

impl HirValidator {
    /// The problems recorded so far, as plain values.
    pub closed spec fn recorded(self) -> Seq<HirIssue> {
        hir_issues_of(self.errors@)
    }

    /// The known symbols and scopes and the declared result type are those
    /// of `other`.
    spec fn keeps(self, other: Self) -> bool {
        &&& self.known_symbols@ == other.known_symbols@
        &&& self.known_scopes@ == other.known_scopes@
        &&& self.current_return_type == other.current_return_type
    }

    pub fn new() -> (result: Self)
        ensures
            result.recorded() == Seq::<HirIssue>::empty(),
    {
        let result = HirValidator {
            errors: Vec::new(),
            known_symbols: Vec::new(),
            known_scopes: Vec::new(),
            current_return_type: None,
        };
        assert(result.recorded() =~= Seq::<HirIssue>::empty());
        result
    }

    fn record(&mut self, message: String, span: SourceSpan)
        ensures
            final(self).recorded() == old(self).recorded() + expression_issue(message@, span),
            final(self).keeps(*old(self)),
    {
        let ghost m = message@;
        self.errors.push(HirValidationError::InvalidExpression { message, span });
        assert(hir_issues_of(self.errors@) =~= hir_issues_of(old(self).errors@) + expression_issue(m, span));
    }

    /// A copy of the recorded errors.
    fn copy_errors(&self) -> (result: Vec<HirValidationError>)
        ensures
            hir_issues_of(result@) == self.recorded(),
    {
        let mut out: Vec<HirValidationError> = Vec::new();
        let mut i: usize = 0;
        while i < self.errors.len()
            invariant
                i <= self.errors@.len(),
                hir_issues_of(out@) == hir_issues_of(self.errors@.subrange(0, i as int)),
            decreases self.errors.len() - i,
        {
            let ghost prev = out@;
            let e = copy_error(&self.errors[i]);
            out.push(e);
            assert(hir_issues_of(out@) =~= hir_issues_of(prev).push(e@));
            assert(self.errors@.subrange(0, i + 1) =~= self.errors@.subrange(0, i as int).push(self.errors@[i as int]));
            assert(hir_issues_of(self.errors@.subrange(0, i + 1)) =~= hir_issues_of(self.errors@.subrange(0, i as int)).push(
                self.errors@[i as int]@,
            ));
            i = i + 1;
        }
        assert(self.errors@.subrange(0, self.errors@.len() as int) =~= self.errors@);
        out
    }

    fn check_symbol(&mut self, id: HirSymbolId, span: SourceSpan, context: &str)
        ensures
            final(self).recorded() == old(self).recorded() + symbol_issue(old(self).known_symbols@, id, span, context@),
            final(self).keeps(*old(self)),
    {
        if !symbol_known(&self.known_symbols, id) {
            let message = unknown_message(context, ": unknown symbol #", id.0);
            self.record(message, span);
        } else {
            assert(self.recorded() =~= old(self).recorded() + Seq::<HirIssue>::empty());
        }
    }

    fn check_scope(&mut self, id: HirScopeId, span: SourceSpan, context: &str)
        ensures
            final(self).recorded() == old(self).recorded() + scope_issue(old(self).known_scopes@, id, span, context@),
            final(self).keeps(*old(self)),
    {
        if !scope_known(&self.known_scopes, id) {
            let message = unknown_message(context, ": unknown scope #", id.0);
            self.record(message, span);
        } else {
            assert(self.recorded() =~= old(self).recorded() + Seq::<HirIssue>::empty());
        }
    }

    /// Checks an expression and the expressions in it.
    #[verifier::spinoff_prover]
    fn validate_expression(&mut self, e: &HirExpression)
        ensures
            final(self).recorded() == old(self).recorded() + expr_issues(*e, old(self).known_symbols@),
            final(self).keeps(*old(self)),
        decreases e,
    {
        let ghost ks = self.known_symbols@;
        if let Some(s) = e.symbol_id {
            self.check_symbol(s, e.span, "expression symbol");
        }
        let ghost head = self.recorded();
        assert(head == old(self).recorded() + match e.symbol_id {
            Some(s) => symbol_issue(ks, s, e.span, "expression symbol"@),
            None => seq![],
        });
        match &e.kind {
            HirExpressionKind::Unary { operand, .. } => self.validate_expression(operand),
            HirExpressionKind::Binary { left, right, .. } => {
                self.validate_expression(left);
                self.validate_expression(right);
            },
            HirExpressionKind::TableConstructor(fields) => self.validate_fields(fields),
            HirExpressionKind::Index { object, index } => {
                self.validate_expression(object);
                self.validate_expression(index);
            },
            HirExpressionKind::FieldAccess { object, .. } => self.validate_expression(object),
            HirExpressionKind::FunctionCall { callee, arguments } => {
                self.validate_expression(callee);
                self.validate_expressions(arguments);
            },
            HirExpressionKind::MethodCall { receiver, arguments, .. } => {
                self.validate_expression(receiver);
                self.validate_expressions(arguments);
            },
            HirExpressionKind::BuiltinCall { arguments, .. } => self.validate_expressions(arguments),
            HirExpressionKind::LocalVariable(_) => {
                if e.symbol_id.is_none() {
                    self.record(to_owned_string("Local variable reference is missing a symbol"), e.span);
                }
                let ghost mid = self.recorded();
                if e.expr_type.is_none() {
                    self.record(to_owned_string("Local variable reference is missing a type"), e.span);
                }
                assert(self.recorded() =~= head + expr_issues(*e, ks).subrange(
                    (match e.symbol_id {
                        Some(s) => symbol_issue(ks, s, e.span, "expression symbol"@),
                        None => seq![],
                    }).len() as int,
                    expr_issues(*e, ks).len() as int,
                ));
            },
            HirExpressionKind::Error => self.record(to_owned_string("Expression contains error"), e.span),
            _ => {},
        }
        assert(self.recorded() =~= old(self).recorded() + expr_issues(*e, ks));
    }

    /// Checks a run of expressions in order.
    fn validate_expressions(&mut self, es: &Vec<HirExpression>)
        ensures
            final(self).recorded() == old(self).recorded() + exprs_issues(es@, old(self).known_symbols@),
            final(self).keeps(*old(self)),
        decreases es,
    {
        let ghost start = self.recorded();
        let ghost ks = self.known_symbols@;
        let mut i: usize = 0;
        while i < es.len()
            invariant
                i <= es@.len(),
                self.keeps(*old(self)),
                ks == old(self).known_symbols@,
                self.recorded() == start + exprs_issues(es@.subrange(0, i as int), ks),
            decreases es.len() - i,
        {
            self.validate_expression(&es[i]);
            proof {
                let run = es@.subrange(0, i + 1);
                assert(run.drop_last() =~= es@.subrange(0, i as int));
                assert(self.recorded() =~= start + exprs_issues(run, ks));
            }
            i = i + 1;
        }
        assert(es@.subrange(0, es@.len() as int) =~= es@);
    }

    /// Checks the values, and keys where they are expressions, of table
    /// fields in order.
    fn validate_fields(&mut self, fs: &Vec<HirTableField>)
        ensures
            final(self).recorded() == old(self).recorded() + fields_issues(fs@, old(self).known_symbols@),
            final(self).keeps(*old(self)),
        decreases fs,
    {
        let ghost start = self.recorded();
        let ghost ks = self.known_symbols@;
        let mut i: usize = 0;
        while i < fs.len()
            invariant
                i <= fs@.len(),
                self.keeps(*old(self)),
                ks == old(self).known_symbols@,
                self.recorded() == start + fields_issues(fs@.subrange(0, i as int), ks),
            decreases fs.len() - i,
        {
            let ghost before = self.recorded();
            proof {
                assert(decreases_to!(fs => fs[i as int]));
            }
            match &fs[i] {
                HirTableField::Named { value, .. } => self.validate_expression(value),
                HirTableField::Indexed { key, value } => {
                    self.validate_expression(key);
                    self.validate_expression(value);
                },
                HirTableField::Expression(e) => self.validate_expression(e),
            }
            proof {
                let run = fs@.subrange(0, i + 1);
                assert(run.drop_last() =~= fs@.subrange(0, i as int));
                assert(self.recorded() =~= start + fields_issues(run, ks));
            }
            i = i + 1;
        }
        assert(fs@.subrange(0, fs@.len() as int) =~= fs@);
    }

    /// Checks the symbol and scope of a local variable.
    fn validate_variable(&mut self, v: &HirLocalVariable)
        ensures
            final(self).recorded() == old(self).recorded() + variable_issues(*v, old(self).known_symbols@, old(self).known_scopes@),
            final(self).keeps(*old(self)),
    {
        self.check_symbol(v.symbol_id, v.span, "local variable symbol");
        self.check_scope(v.scope_id, v.span, "local variable scope");
        assert(self.recorded() =~= old(self).recorded() + variable_issues(*v, old(self).known_symbols@, old(self).known_scopes@));
    }

    /// Checks the returned values, each against the declared result type.
    fn validate_returned(&mut self, es: &Vec<HirExpression>)
        ensures
            final(self).recorded() == old(self).recorded() + returned_issues(
                es@,
                old(self).current_return_type,
                old(self).known_symbols@,
            ),
            final(self).keeps(*old(self)),
    {
        let ghost start = self.recorded();
        let ghost ks = self.known_symbols@;
        let ghost ret = self.current_return_type;
        let mut i: usize = 0;
        while i < es.len()
            invariant
                i <= es@.len(),
                self.keeps(*old(self)),
                ks == old(self).known_symbols@,
                ret == old(self).current_return_type,
                self.recorded() == start + returned_issues(es@.subrange(0, i as int), ret, ks),
            decreases es.len() - i,
        {
            let e = &es[i];
            self.validate_expression(e);
            let ghost mid = self.recorded();
            if let (Some(expected), Some(actual)) = (self.current_return_type, e.expr_type) {
                let compatible = expected == actual || expected == HirType::Any || expected == HirType::Unknown
                    || actual == HirType::Any || actual == HirType::Unknown;
                if !compatible {
                    let mut message = to_owned_string("Return type mismatch: expected ");
                    push_str(&mut message, type_debug_str(expected));
                    push_str(&mut message, ", got ");
                    push_str(&mut message, type_debug_str(actual));
                    self.record(message, e.span);
                } else {
                    assert(self.recorded() =~= mid + return_type_issue(ret, e.expr_type, e.span));
                }
            } else {
                assert(self.recorded() =~= mid + return_type_issue(ret, e.expr_type, e.span));
            }
            proof {
                let run = es@.subrange(0, i + 1);
                assert(run.drop_last() =~= es@.subrange(0, i as int));
                assert(self.recorded() =~= start + returned_issues(run, ret, ks));
            }
            i = i + 1;
        }
        assert(es@.subrange(0, es@.len() as int) =~= es@);
    }

    /// Checks an optional expression.
    fn validate_optional(&mut self, e: &Option<HirExpression>)
        ensures
            final(self).recorded() == old(self).recorded() + match *e {
                Some(x) => expr_issues(x, old(self).known_symbols@),
                None => seq![],
            },
            final(self).keeps(*old(self)),
    {
        if let Some(x) = e {
            self.validate_expression(x);
        } else {
            assert(self.recorded() =~= old(self).recorded() + Seq::<HirIssue>::empty());
        }
    }

    /// Checks an `if` statement.
    fn validate_if(&mut self, st: &HirStatement)
        requires
            st.kind is If,
        ensures
            final(self).recorded() == old(self).recorded() + stmt_issues(
                *st,
                old(self).current_return_type,
                old(self).known_symbols@,
                old(self).known_scopes@,
            ),
            final(self).keeps(*old(self)),
        decreases st, 0nat,
    {
        let ghost ks = self.known_symbols@;
        let ghost kc = self.known_scopes@;
        let ghost ret = self.current_return_type;
        if let HirStatementKind::If { condition, then_block, else_block } = &st.kind {
            self.validate_expression(condition);
            self.validate_statements(then_block);
            let ghost mid = self.recorded();
            if let Some(e) = else_block {
                self.validate_statements(e);
            } else {
                assert(self.recorded() =~= mid + Seq::<HirIssue>::empty());
            }
            assert(self.recorded() =~= old(self).recorded() + stmt_issues(*st, ret, ks, kc));
        }
    }

    /// Checks a numeric `for` statement.
    fn validate_for_numeric(&mut self, st: &HirStatement)
        requires
            st.kind is ForNumeric,
        ensures
            final(self).recorded() == old(self).recorded() + stmt_issues(
                *st,
                old(self).current_return_type,
                old(self).known_symbols@,
                old(self).known_scopes@,
            ),
            final(self).keeps(*old(self)),
        decreases st, 0nat,
    {
        let ghost ks = self.known_symbols@;
        let ghost kc = self.known_scopes@;
        let ghost ret = self.current_return_type;
        if let HirStatementKind::ForNumeric { start, end, step, body, .. } = &st.kind {
            self.validate_expression(start);
            self.validate_expression(end);
            self.validate_optional(step);
            self.validate_statements(body);
            assert(self.recorded() =~= old(self).recorded() + stmt_issues(*st, ret, ks, kc));
        }
    }

    /// Checks a statement of a function whose declared result type is the
    /// current one.
    #[verifier::spinoff_prover]
    fn validate_statement(&mut self, st: &HirStatement)
        ensures
            final(self).recorded() == old(self).recorded() + stmt_issues(
                *st,
                old(self).current_return_type,
                old(self).known_symbols@,
                old(self).known_scopes@,
            ),
            final(self).keeps(*old(self)),
        decreases st, 1nat,
    {
        let ghost ks = self.known_symbols@;
        let ghost kc = self.known_scopes@;
        let ghost ret = self.current_return_type;
        match &st.kind {
            HirStatementKind::LocalVariable { variable, initializer } => {
                self.validate_variable(variable);
                self.validate_optional(initializer);
            },
            HirStatementKind::Assignment { targets, values } => {
                self.validate_expressions(targets);
                self.validate_expressions(values);
            },
            HirStatementKind::Expression(e) => self.validate_expression(e),
            HirStatementKind::Return(es) => {
                if let Some(v) = es {
                    self.validate_returned(v);
                }
            },
            HirStatementKind::If { .. } => self.validate_if(st),
            HirStatementKind::While { condition, body } => {
                self.validate_expression(condition);
                self.validate_statements(body);
            },
            HirStatementKind::RepeatUntil { body, condition } => {
                self.validate_statements(body);
                self.validate_expression(condition);
            },
            HirStatementKind::ForNumeric { .. } => self.validate_for_numeric(st),
            HirStatementKind::ForGeneric { iterables, body, .. } => {
                self.validate_expressions(iterables);
                self.validate_statements(body);
            },
            HirStatementKind::Block(statements) => self.validate_statements(statements),
            HirStatementKind::Function { function } => self.validate_function(function),
            _ => {},
        }
        assert(self.recorded() =~= old(self).recorded() + stmt_issues(*st, ret, ks, kc));
    }

    /// Checks a run of statements in order.
    fn validate_statements(&mut self, ss: &Vec<HirStatement>)
        ensures
            final(self).recorded() == old(self).recorded() + stmts_issues(
                ss@,
                old(self).current_return_type,
                old(self).known_symbols@,
                old(self).known_scopes@,
            ),
            final(self).keeps(*old(self)),
        decreases ss, 0nat,
    {
        let ghost start = self.recorded();
        let ghost ks = self.known_symbols@;
        let ghost kc = self.known_scopes@;
        let ghost ret = self.current_return_type;
        let mut i: usize = 0;
        while i < ss.len()
            invariant
                i <= ss@.len(),
                self.keeps(*old(self)),
                ks == old(self).known_symbols@,
                kc == old(self).known_scopes@,
                ret == old(self).current_return_type,
                self.recorded() == start + stmts_issues(ss@.subrange(0, i as int), ret, ks, kc),
            decreases ss.len() - i,
        {
            self.validate_statement(&ss[i]);
            proof {
                let run = ss@.subrange(0, i + 1);
                assert(run.drop_last() =~= ss@.subrange(0, i as int));
                assert(self.recorded() =~= start + stmts_issues(run, ret, ks, kc));
            }
            i = i + 1;
        }
        assert(ss@.subrange(0, ss@.len() as int) =~= ss@);
    }

    /// Checks the symbols and scopes of parameters in order.
    fn validate_parameters(&mut self, ps: &Vec<HirParameter>)
        ensures
            final(self).recorded() == old(self).recorded() + params_issues(ps@, old(self).known_symbols@, old(self).known_scopes@),
            final(self).keeps(*old(self)),
    {
        let ghost start = self.recorded();
        let ghost ks = self.known_symbols@;
        let ghost kc = self.known_scopes@;
        let mut i: usize = 0;
        while i < ps.len()
            invariant
                i <= ps@.len(),
                self.keeps(*old(self)),
                ks == old(self).known_symbols@,
                kc == old(self).known_scopes@,
                self.recorded() == start + params_issues(ps@.subrange(0, i as int), ks, kc),
            decreases ps.len() - i,
        {
            self.check_symbol(ps[i].symbol_id, ps[i].span, "parameter symbol");
            self.check_scope(ps[i].scope_id, ps[i].span, "parameter scope");
            proof {
                let run = ps@.subrange(0, i + 1);
                assert(run.drop_last() =~= ps@.subrange(0, i as int));
                assert(self.recorded() =~= start + params_issues(run, ks, kc));
            }
            i = i + 1;
        }
        assert(ps@.subrange(0, ps@.len() as int) =~= ps@);
    }

    /// Checks the symbols and scopes of local variables in order.
    fn validate_locals(&mut self, vs: &Vec<HirLocalVariable>)
        ensures
            final(self).recorded() == old(self).recorded() + locals_issues(vs@, old(self).known_symbols@, old(self).known_scopes@),
            final(self).keeps(*old(self)),
    {
        let ghost start = self.recorded();
        let ghost ks = self.known_symbols@;
        let ghost kc = self.known_scopes@;
        let mut i: usize = 0;
        while i < vs.len()
            invariant
                i <= vs@.len(),
                self.keeps(*old(self)),
                ks == old(self).known_symbols@,
                kc == old(self).known_scopes@,
                self.recorded() == start + locals_issues(vs@.subrange(0, i as int), ks, kc),
            decreases vs.len() - i,
        {
            self.validate_variable(&vs[i]);
            proof {
                let run = vs@.subrange(0, i + 1);
                assert(run.drop_last() =~= vs@.subrange(0, i as int));
                assert(self.recorded() =~= start + locals_issues(run, ks, kc));
            }
            i = i + 1;
        }
        assert(vs@.subrange(0, vs@.len() as int) =~= vs@);
    }

    /// Checks a function: its symbol and scope, its parameters and locals,
    /// and its body against its declared result type, which is current only
    /// while the body is checked.
    fn validate_function(&mut self, f: &HirFunction)
        ensures
            final(self).recorded() == old(self).recorded() + function_issues(*f, old(self).known_symbols@, old(self).known_scopes@),
            final(self).keeps(*old(self)),
        decreases f, 0nat,
    {
        let ghost ks = self.known_symbols@;
        let ghost kc = self.known_scopes@;
        self.check_symbol(f.symbol_id, f.span, "function symbol");
        self.check_scope(f.scope_id, f.span, "function scope");
        self.validate_parameters(&f.parameters);
        self.validate_locals(&f.local_variables);
        let previous = self.current_return_type;
        self.current_return_type = f.return_type;
        self.validate_statements(&f.body);
        self.current_return_type = previous;
        assert(self.recorded() =~= old(self).recorded() + function_issues(*f, ks, kc));
    }

    /// Checks functions in order.
    fn validate_functions(&mut self, fs: &Vec<HirFunction>)
        ensures
            final(self).recorded() == old(self).recorded() + functions_issues(fs@, old(self).known_symbols@, old(self).known_scopes@),
            final(self).keeps(*old(self)),
    {
        let ghost start = self.recorded();
        let ghost ks = self.known_symbols@;
        let ghost kc = self.known_scopes@;
        let mut i: usize = 0;
        while i < fs.len()
            invariant
                i <= fs@.len(),
                self.keeps(*old(self)),
                ks == old(self).known_symbols@,
                kc == old(self).known_scopes@,
                self.recorded() == start + functions_issues(fs@.subrange(0, i as int), ks, kc),
            decreases fs.len() - i,
        {
            self.validate_function(&fs[i]);
            proof {
                let run = fs@.subrange(0, i + 1);
                assert(run.drop_last() =~= fs@.subrange(0, i as int));
                assert(self.recorded() =~= start + functions_issues(run, ks, kc));
            }
            i = i + 1;
        }
        assert(fs@.subrange(0, fs@.len() as int) =~= fs@);
    }

    /// Checks the symbols a scope lists.
    fn validate_listed_symbols(&mut self, ids: &Vec<HirSymbolId>, span: SourceSpan)
        ensures
            final(self).recorded() == old(self).recorded() + listed_symbols_issues(ids@, span, old(self).known_symbols@),
            final(self).keeps(*old(self)),
    {
        let ghost start = self.recorded();
        let ghost ks = self.known_symbols@;
        let mut i: usize = 0;
        while i < ids.len()
            invariant
                i <= ids@.len(),
                self.keeps(*old(self)),
                ks == old(self).known_symbols@,
                self.recorded() == start + listed_symbols_issues(ids@.subrange(0, i as int), span, ks),
            decreases ids.len() - i,
        {
            self.check_symbol(ids[i], span, "scope symbol");
            proof {
                let run = ids@.subrange(0, i + 1);
                assert(run.drop_last() =~= ids@.subrange(0, i as int));
                assert(self.recorded() =~= start + listed_symbols_issues(run, span, ks));
            }
            i = i + 1;
        }
        assert(ids@.subrange(0, ids@.len() as int) =~= ids@);
    }

    /// Checks each scope's parent and listed symbols, in order.
    fn validate_scopes(&mut self, scopes: &Vec<HirScope>, span: SourceSpan)
        ensures
            final(self).recorded() == old(self).recorded() + scopes_issues(scopes@, span, old(self).known_symbols@, old(self).known_scopes@),
            final(self).keeps(*old(self)),
    {
        let ghost start = self.recorded();
        let ghost ks = self.known_symbols@;
        let ghost kc = self.known_scopes@;
        let mut i: usize = 0;
        while i < scopes.len()
            invariant
                i <= scopes@.len(),
                self.keeps(*old(self)),
                ks == old(self).known_symbols@,
                kc == old(self).known_scopes@,
                self.recorded() == start + scopes_issues(scopes@.subrange(0, i as int), span, ks, kc),
            decreases scopes.len() - i,
        {
            let ghost before = self.recorded();
            if let Some(p) = scopes[i].parent {
                self.check_scope(p, span, "scope parent");
            }
            self.validate_listed_symbols(&scopes[i].symbols, span);
            proof {
                assert(self.recorded() =~= before + scope_entry_issues(scopes@[i as int], span, ks, kc));
                let run = scopes@.subrange(0, i + 1);
                assert(run.drop_last() =~= scopes@.subrange(0, i as int));
                assert(self.recorded() =~= start + scopes_issues(run, span, ks, kc));
            }
            i = i + 1;
        }
        assert(scopes@.subrange(0, scopes@.len() as int) =~= scopes@);
    }

    /// Checks each symbol's scope, in order.
    fn validate_symbols(&mut self, symbols: &Vec<HirSymbol>)
        ensures
            final(self).recorded() == old(self).recorded() + symbols_issues(symbols@, old(self).known_scopes@),
            final(self).keeps(*old(self)),
    {
        let ghost start = self.recorded();
        let ghost kc = self.known_scopes@;
        let mut i: usize = 0;
        while i < symbols.len()
            invariant
                i <= symbols@.len(),
                self.keeps(*old(self)),
                kc == old(self).known_scopes@,
                self.recorded() == start + symbols_issues(symbols@.subrange(0, i as int), kc),
            decreases symbols.len() - i,
        {
            self.check_scope(symbols[i].scope_id, symbols[i].span, "symbol scope");
            proof {
                let run = symbols@.subrange(0, i + 1);
                assert(run.drop_last() =~= symbols@.subrange(0, i as int));
                assert(self.recorded() =~= start + symbols_issues(run, kc));
            }
            i = i + 1;
        }
        assert(symbols@.subrange(0, symbols@.len() as int) =~= symbols@);
    }

    /// Checks each global variable, in order.
    fn validate_globals(&mut self, gs: &Vec<HirGlobalVariable>)
        ensures
            final(self).recorded() == old(self).recorded() + globals_issues(gs@, old(self).known_symbols@, old(self).known_scopes@),
            final(self).keeps(*old(self)),
    {
        let ghost start = self.recorded();
        let ghost ks = self.known_symbols@;
        let ghost kc = self.known_scopes@;
        let mut i: usize = 0;
        while i < gs.len()
            invariant
                i <= gs@.len(),
                self.keeps(*old(self)),
                ks == old(self).known_symbols@,
                kc == old(self).known_scopes@,
                self.recorded() == start + globals_issues(gs@.subrange(0, i as int), ks, kc),
            decreases gs.len() - i,
        {
            let ghost before = self.recorded();
            self.check_symbol(gs[i].symbol_id, gs[i].span, "global variable symbol");
            self.check_scope(gs[i].scope_id, gs[i].span, "global variable scope");
            self.validate_optional(&gs[i].initializer);
            proof {
                assert(self.recorded() =~= before + global_issues(gs@[i as int], ks, kc));
                let run = gs@.subrange(0, i + 1);
                assert(run.drop_last() =~= gs@.subrange(0, i as int));
                assert(self.recorded() =~= start + globals_issues(run, ks, kc));
            }
            i = i + 1;
        }
        assert(gs@.subrange(0, gs@.len() as int) =~= gs@);
    }

    /// Checks each type alias's symbol and scope, in order.
    fn validate_aliases(&mut self, ts: &Vec<HirTypeAlias>)
        ensures
            final(self).recorded() == old(self).recorded() + aliases_issues(ts@, old(self).known_symbols@, old(self).known_scopes@),
            final(self).keeps(*old(self)),
    {
        let ghost start = self.recorded();
        let ghost ks = self.known_symbols@;
        let ghost kc = self.known_scopes@;
        let mut i: usize = 0;
        while i < ts.len()
            invariant
                i <= ts@.len(),
                self.keeps(*old(self)),
                ks == old(self).known_symbols@,
                kc == old(self).known_scopes@,
                self.recorded() == start + aliases_issues(ts@.subrange(0, i as int), ks, kc),
            decreases ts.len() - i,
        {
            self.check_symbol(ts[i].symbol_id, ts[i].span, "type alias symbol");
            self.check_scope(ts[i].scope_id, ts[i].span, "type alias scope");
            proof {
                let run = ts@.subrange(0, i + 1);
                assert(run.drop_last() =~= ts@.subrange(0, i as int));
                assert(self.recorded() =~= start + aliases_issues(run, ks, kc));
            }
            i = i + 1;
        }
        assert(ts@.subrange(0, ts@.len() as int) =~= ts@);
    }

    /// Checks a module against the symbols and scopes it lists. The problems
    /// found are added to those of earlier calls; the result is `Ok` when
    /// none has been found so far, and otherwise all of them.
    pub fn validate(&mut self, module: &HirModule) -> (result: Result<(), Vec<HirValidationError>>)
        ensures
            final(self).recorded() == old(self).recorded() + module_issues(*module),
            match result {
                Ok(()) => final(self).recorded().len() == 0,
                Err(errors) => hir_issues_of(errors@) == final(self).recorded() && errors@.len() > 0,
            },
    {
        self.known_symbols = symbol_ids_of(&module.symbols);
        self.known_scopes = scope_ids_of(&module.scopes);
        let ghost start = self.recorded();
        assert(start == old(self).recorded());
        let ghost ks = self.known_symbols@;
        let ghost kc = self.known_scopes@;
        assert(ks == module_symbol_ids(*module));
        assert(kc == module_scope_ids(*module));
        if let Some(root) = module.metadata.root_scope {
            self.check_scope(root, module.span, "module root scope");
        } else {
            assert(self.recorded() =~= start + Seq::<HirIssue>::empty());
        }
        self.validate_scopes(&module.scopes, module.span);
        self.validate_symbols(&module.symbols);
        self.validate_functions(&module.functions);
        self.validate_globals(&module.global_variables);
        self.validate_aliases(&module.type_aliases);
        assert(self.recorded() =~= start + module_issues(*module));
        if self.errors.len() == 0 {
            Ok(())
        } else {
            Err(self.copy_errors())
        }
    }
}

impl Default for HirValidator {
    fn default() -> (result: Self)
        ensures
            result.recorded() == Seq::<HirIssue>::empty(),
    {
        Self::new()
    }
}

} // verus!
