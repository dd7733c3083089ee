//! Optimization of the high-level representation: literal constants of
//! locals that are never assigned again are propagated, boolean and string
//! operations on literals are folded, `not not x` and boolean identities are
//! simplified, expression statements without effects are dropped, `if` and
//! `while` on a literal condition are resolved, and statements after a
//! `return`, `break` or `continue` are removed.
use vstd::prelude::*;

use crate::hir::expression::{HirExpression, HirExpressionKind, HirTableField};
use crate::hir::builder::{any_returns, collect_local_variables, statements_locals, statements_return};
use crate::hir::function::{HirFunction, HirFunctionMetadata};
use crate::hir::ids::HirSymbolId;
use crate::hir::module::{HirGlobalVariable, HirModule};
use crate::hir::statement::{HirLocalVariable, HirStatement, HirStatementKind};
use crate::hir::types::{HirBinaryOperator, HirType, HirUnaryOperator};
use crate::source::SourceSpan;
use crate::text::{decimal, push_decimal, push_str, to_owned_string};

verus! {

/// How many rewrites of each kind an optimization made.
#[derive(Debug, Clone, Copy, PartialEq, Eq, Structural, Default)]
pub struct HirOptimizationStats {
    pub constant_folds: usize,
    pub constants_propagated: usize,
    pub expressions_simplified: usize,
    pub dead_expressions_removed: usize,
    pub control_flow_simplified: usize,
    pub unreachable_statements_removed: usize,
}

/// The sum of all counts.
pub open spec fn stats_total(s: HirOptimizationStats) -> int {
    s.constant_folds + s.constants_propagated + s.expressions_simplified + s.dead_expressions_removed
        + s.control_flow_simplified + s.unreachable_statements_removed
}

/// The report of the counts, one per line under a heading.
pub open spec fn stats_report(s: HirOptimizationStats) -> Seq<char> {
    "HIR Optimization\nConstant Folds: "@ + decimal(s.constant_folds as nat) + "\nConstants Propagated: "@ + decimal(
        s.constants_propagated as nat,
    ) + "\nExpressions Simplified: "@ + decimal(s.expressions_simplified as nat) + "\nDead Expressions Removed: "@
        + decimal(s.dead_expressions_removed as nat) + "\nControl Flow Simplified: "@ + decimal(
        s.control_flow_simplified as nat,
    ) + "\nUnreachable Statements Removed: "@ + decimal(s.unreachable_statements_removed as nat)
}

impl HirOptimizationStats {
    /// The number of rewrites of all kinds.
    pub fn total_changes(&self) -> (result: usize)
        requires
            stats_total(*self) <= usize::MAX,
        ensures
            result == stats_total(*self),
    {
        self.constant_folds + self.constants_propagated + self.expressions_simplified + self.dead_expressions_removed
            + self.control_flow_simplified + self.unreachable_statements_removed
    }

    /// The counts as a report.
    pub fn report(&self) -> (result: String)
        ensures
            result@ == stats_report(*self),
    {
        let mut out = to_owned_string("HIR Optimization\nConstant Folds: ");
        push_decimal(&mut out, self.constant_folds);
        push_str(&mut out, "\nConstants Propagated: ");
        push_decimal(&mut out, self.constants_propagated);
        push_str(&mut out, "\nExpressions Simplified: ");
        push_decimal(&mut out, self.expressions_simplified);
        push_str(&mut out, "\nDead Expressions Removed: ");
        push_decimal(&mut out, self.dead_expressions_removed);
        push_str(&mut out, "\nControl Flow Simplified: ");
        push_decimal(&mut out, self.control_flow_simplified);
        push_str(&mut out, "\nUnreachable Statements Removed: ");
        push_decimal(&mut out, self.unreachable_statements_removed);
        out
    }
}

/// One more constant fold.
pub open spec fn with_fold(s: HirOptimizationStats) -> HirOptimizationStats {
    HirOptimizationStats { constant_folds: s.constant_folds.saturating_add(1), ..s }
}

/// One more propagated constant.
pub open spec fn with_propagated(s: HirOptimizationStats) -> HirOptimizationStats {
    HirOptimizationStats { constants_propagated: s.constants_propagated.saturating_add(1), ..s }
}

/// One more simplified expression.
pub open spec fn with_simplified(s: HirOptimizationStats) -> HirOptimizationStats {
    HirOptimizationStats { expressions_simplified: s.expressions_simplified.saturating_add(1), ..s }
}

/// One more removed expression statement.
pub open spec fn with_dead(s: HirOptimizationStats) -> HirOptimizationStats {
    HirOptimizationStats { dead_expressions_removed: s.dead_expressions_removed.saturating_add(1), ..s }
}

/// One more resolved `if` or `while`.
pub open spec fn with_flow(s: HirOptimizationStats) -> HirOptimizationStats {
    HirOptimizationStats { control_flow_simplified: s.control_flow_simplified.saturating_add(1), ..s }
}

/// The known constants, oldest first: an entry with a value records the
/// literal a symbol holds; one without records that it holds none any more.
/// The latest entry for a symbol counts.
pub type ConstTable = Seq<(HirSymbolId, Option<HirExpression>)>;

/// The literal a symbol is known to hold.
pub open spec fn table_get(t: ConstTable, id: HirSymbolId) -> Option<HirExpression>
    decreases t.len(),
{
    if t.len() == 0 {
        None
    } else if t.last().0 == id {
        t.last().1
    } else {
        table_get(t.drop_last(), id)
    }
}

/// Whether an expression is a literal: `nil`, a boolean, a number or a
/// string.
pub open spec fn is_literal(e: HirExpression) -> bool {
    e.kind is Nil || e.kind is Boolean || e.kind is Number || e.kind is String
}

/// Every value in the table is a literal.
pub open spec fn literal_table(t: ConstTable) -> bool {
    forall|i: int| 0 <= i < t.len() ==> ((#[trigger] t[i]).1 matches Some(x) ==> is_literal(x))
}

/// A reference to a variable whose symbol holds a known literal.
pub open spec fn propagates(e: HirExpression, t: ConstTable) -> bool {
    &&& e.symbol_id is Some
    &&& (e.kind is LocalVariable || e.kind is GlobalVariable)
    &&& table_get(t, e.symbol_id->0) is Some
}

/// A boolean literal at `span`.
pub open spec fn bool_literal(v: bool, span: SourceSpan) -> HirExpression {
    HirExpression { kind: HirExpressionKind::Boolean(v), expr_type: Some(HirType::Boolean), symbol_id: None, span }
}

/// An expression of kind `kind` with the given type, symbol and span.
pub open spec fn rebuilt(ty: Option<HirType>, sym: Option<HirSymbolId>, span: SourceSpan, kind: HirExpressionKind) -> HirExpression {
    HirExpression { kind, expr_type: ty, symbol_id: sym, span }
}

/// The result of a prefix operation on the optimized operand `o`: `not` of
/// a boolean literal is folded, `not not x` becomes `x`; anything else is
/// kept.
pub open spec fn unary_out(
    op: HirUnaryOperator,
    o: HirExpression,
    ty: Option<HirType>,
    sym: Option<HirSymbolId>,
    span: SourceSpan,
    sm: HirOptimizationStats,
    out: HirExpression,
    s1: HirOptimizationStats,
) -> bool {
    if op == HirUnaryOperator::Not && o.kind is Boolean {
        out == bool_literal(!o.kind->Boolean_0, span) && s1 == with_fold(sm)
    } else if op == HirUnaryOperator::Not && (o.kind matches HirExpressionKind::Unary { operator: HirUnaryOperator::Not, .. }) {
        out == *o.kind->operand && s1 == with_simplified(sm)
    } else {
        out == rebuilt(ty, sym, span, HirExpressionKind::Unary { operator: op, operand: Box::new(o) }) && s1 == sm
    }
}

/// The result of an infix operation on the optimized operands `a` and `b`:
/// `and` and `or` of boolean literals and `..` of string literals are
/// folded; `x and true`, `true and x`, `x or false` and `false or x` become
/// `x`; anything else is kept.
pub open spec fn binary_out(
    a: HirExpression,
    op: HirBinaryOperator,
    b: HirExpression,
    ty: Option<HirType>,
    sym: Option<HirSymbolId>,
    span: SourceSpan,
    sm: HirOptimizationStats,
    out: HirExpression,
    s1: HirOptimizationStats,
) -> bool {
    if a.kind is Boolean && b.kind is Boolean && op == HirBinaryOperator::And {
        out == bool_literal(a.kind->Boolean_0 && b.kind->Boolean_0, span) && s1 == with_fold(sm)
    } else if a.kind is Boolean && b.kind is Boolean && op == HirBinaryOperator::Or {
        out == bool_literal(a.kind->Boolean_0 || b.kind->Boolean_0, span) && s1 == with_fold(sm)
    } else if a.kind is String && b.kind is String && op == HirBinaryOperator::Concatenate {
        &&& out.kind matches HirExpressionKind::String(text) && text@ == a.kind->String_0@ + b.kind->String_0@
        &&& out.expr_type == Some(HirType::String)
        &&& out.symbol_id is None
        &&& out.span == span
        &&& s1 == with_fold(sm)
    } else if op == HirBinaryOperator::And && b.kind == HirExpressionKind::Boolean(true) {
        out == a && s1 == with_simplified(sm)
    } else if op == HirBinaryOperator::And && a.kind == HirExpressionKind::Boolean(true) {
        out == b && s1 == with_simplified(sm)
    } else if op == HirBinaryOperator::Or && b.kind == HirExpressionKind::Boolean(false) {
        out == a && s1 == with_simplified(sm)
    } else if op == HirBinaryOperator::Or && a.kind == HirExpressionKind::Boolean(false) {
        out == b && s1 == with_simplified(sm)
    } else {
        out == rebuilt(ty, sym, span, HirExpressionKind::Binary { left: Box::new(a), operator: op, right: Box::new(b) }) && s1 == sm
    }
}

/// Whether evaluating an expression has no effect beyond its value: no
/// call of any kind and no error occurs in it.
pub open spec fn side_effect_free(e: HirExpression) -> bool
    decreases e, 1nat,
{
    match e.kind {
        HirExpressionKind::Unary { operand, .. } => side_effect_free(*operand),
        HirExpressionKind::Binary { left, right, .. } => side_effect_free(*left) && side_effect_free(*right),
        HirExpressionKind::TableConstructor(fields) => fields_side_effect_free(fields@),
        HirExpressionKind::Index { object, index } => side_effect_free(*object) && side_effect_free(*index),
        HirExpressionKind::FieldAccess { object, .. } => side_effect_free(*object),
        HirExpressionKind::FunctionCall { .. } => false,
        HirExpressionKind::MethodCall { .. } => false,
        HirExpressionKind::BuiltinCall { .. } => false,
        HirExpressionKind::Error => false,
        _ => true,
    }
}

/// Whether no expression of the fields has an effect.
pub open spec fn fields_side_effect_free(fs: Seq<HirTableField>) -> bool
    decreases fs, 0nat,
{
    if fs.len() == 0 {
        true
    } else {
        fields_side_effect_free(fs.drop_last()) && match fs.last() {
            HirTableField::Named { value, .. } => side_effect_free(value),
            HirTableField::Indexed { key, value } => side_effect_free(key) && side_effect_free(value),
            HirTableField::Expression(value) => side_effect_free(value),
        }
    }
}

/// The symbols that the targets of an assignment name, in order.
pub open spec fn target_symbols(ts: Seq<HirExpression>) -> Seq<HirSymbolId>
    decreases ts.len(),
{
    if ts.len() == 0 {
        seq![]
    } else {
        target_symbols(ts.drop_last()) + match ts.last().symbol_id {
            Some(id) => seq![id],
            None => seq![],
        }
    }
}

/// The table entries that forget the symbols `ids`.
pub open spec fn forgotten(ids: Seq<HirSymbolId>) -> ConstTable {
    ids.map_values(|id: HirSymbolId| (id, None::<HirExpression>))
}

/// The symbols assigned in a statement, in nested blocks and loops too
/// but not in nested functions.
pub open spec fn statement_assigns(st: HirStatement) -> Seq<HirSymbolId>
    decreases st,
{
    match st.kind {
        HirStatementKind::Assignment { targets, .. } => target_symbols(targets@),
        HirStatementKind::Block(ss) => statements_assign(ss@),
        HirStatementKind::If { then_block, else_block, .. } => statements_assign(then_block@) + match else_block {
            Some(e) => statements_assign(e@),
            None => seq![],
        },
        HirStatementKind::While { body, .. } => statements_assign(body@),
        HirStatementKind::RepeatUntil { body, .. } => statements_assign(body@),
        HirStatementKind::ForNumeric { body, .. } => statements_assign(body@),
        HirStatementKind::ForGeneric { body, .. } => statements_assign(body@),
        _ => seq![],
    }
}

/// The symbols assigned in a run of statements.
pub open spec fn statements_assign(ss: Seq<HirStatement>) -> Seq<HirSymbolId>
    decreases ss,
{
    if ss.len() == 0 {
        seq![]
    } else {
        statements_assign(ss.drop_last()) + statement_assigns(ss.last())
    }
}

/// A `return`, `break` or `continue`: nothing after it in a run runs.
pub open spec fn terminates(st: HirStatement) -> bool {
    st.kind is Return || st.kind is Break || st.kind is Continue
}

/// `n` more removed unreachable statements.
pub open spec fn with_unreachable_n(s: HirOptimizationStats, n: nat) -> HirOptimizationStats {
    HirOptimizationStats {
        unreachable_statements_removed: if s.unreachable_statements_removed + n > usize::MAX {
            usize::MAX
        } else {
            (s.unreachable_statements_removed + n) as usize
        },
        ..s
    }
}

/// A trigger marker, always true, for an intermediate statement result,
/// the constants and the counts after it.
pub open spec fn midpoint_stmt(o: Option<HirStatement>, t: ConstTable, s: HirOptimizationStats) -> bool {
    true
}

/// A trigger marker, always true, for an intermediate run of statements
/// and the counts after it.
pub open spec fn midpoint_run(o: Vec<HirStatement>, s: HirOptimizationStats) -> bool {
    true
}

/// A trigger marker, always true, for an intermediate optional run of
/// statements and the counts after it.
pub open spec fn midpoint_else(o: Option<Vec<HirStatement>>, s: HirOptimizationStats) -> bool {
    true
}

/// The constants after a declaration of `variable` initialized to `init`:
/// a literal is recorded when the symbol is never assigned.
pub open spec fn declared(t: ConstTable, asg: Seq<HirSymbolId>, id: HirSymbolId, init: Option<HirExpression>) -> ConstTable {
    match init {
        Some(x) => if !asg.contains(id) && is_literal(x) {
            t.push((id, Some(x)))
        } else {
            t.push((id, None))
        },
        None => t.push((id, None)),
    }
}

/// `out` is what the optimization of the statement `st` with the constants
/// `t` and the assigned symbols `asg` leaves (`None`: the statement is
/// dropped), `t1` the constants after it, and the counts go from `s0` to
/// `s1`.
pub open spec fn stmt_opt(
    st: HirStatement,
    t: ConstTable,
    asg: Seq<HirSymbolId>,
    s0: HirOptimizationStats,
    out: Option<HirStatement>,
    t1: ConstTable,
    s1: HirOptimizationStats,
) -> bool
    decreases st,
{
    let span = st.span;
    match st.kind {
        HirStatementKind::LocalVariable { variable, initializer } => match initializer {
            None => out == Some(st) && s1 == s0 && t1 == declared(t, asg, variable.symbol_id, None),
            Some(init) => out matches Some(o) && (o.span == span && (o.kind matches HirStatementKind::LocalVariable {
                variable: v,
                initializer: Some(i),
            } && (v == variable && expr_opt(init, t, s0, i, s1) && t1 == declared(t, asg, variable.symbol_id, Some(i))))),
        },
        HirStatementKind::Assignment { targets, values } => out matches Some(o) && (o.span == span && (
            o.kind matches HirStatementKind::Assignment { targets: ts, values: vs } && (t1 == t + forgotten(target_symbols(ts@))
            && exists|sm: HirOptimizationStats| #[trigger] midpoint(sm) && list_opt(targets@, t, s0, ts@, sm) && list_opt(values@, t, sm, vs@, s1)))),
        HirStatementKind::Expression(e) => t1 == t && exists|x: HirExpression, sm: HirOptimizationStats|
            #[trigger] midpoint_with(x, sm) && expr_opt(e, t, s0, x, sm) && if side_effect_free(x) {
                out is None && s1 == with_dead(sm)
            } else {
                out == Some(HirStatement { kind: HirStatementKind::Expression(x), span }) && s1 == sm
            },
        HirStatementKind::Return(values) => t1 == t && match values {
            None => out == Some(st) && s1 == s0,
            Some(vs) => out matches Some(o) && (o.span == span && (o.kind matches HirStatementKind::Return(Some(ws))
                && list_opt(vs@, t, s0, ws@, s1))),
        },
        HirStatementKind::Block(ss) => t1 == t && (out matches Some(o) && (o.span == span
            && (o.kind matches HirStatementKind::Block(os) && stmts_opt(ss@, t, asg, s0, os@, s1)))),
        HirStatementKind::If { condition, then_block, else_block } => t1 == t && exists|
            c: HirExpression,
            sa: HirOptimizationStats,
            th: Vec<HirStatement>,
            sb: HirOptimizationStats,
            el: Option<Vec<HirStatement>>,
            sc: HirOptimizationStats,
        |
            #![trigger midpoint_with(c, sa), midpoint_run(th, sb), midpoint_else(el, sc)]
            midpoint_with(c, sa) && midpoint_run(th, sb) && midpoint_else(el, sc)
            && expr_opt(condition, t, s0, c, sa) && stmts_opt(then_block@, t, asg, sa, th@, sb)
            && (match else_block {
                None => el is None && sc == sb,
                Some(eb) => el matches Some(e2) && stmts_opt(eb@, t, asg, sb, e2@, sc),
            })
            && (match c.kind {
                HirExpressionKind::Boolean(v) => s1 == with_flow(sc) && (out matches Some(o) && (o.span == span
                    && (o.kind matches HirStatementKind::Block(os) && os@ == if v {
                    th@
                } else {
                    match el {
                        Some(e2) => e2@,
                        None => seq![],
                    }
                }))),
                _ => s1 == sc && out == Some(HirStatement {
                    kind: HirStatementKind::If { condition: c, then_block: th, else_block: el },
                    span,
                }),
            }),
        HirStatementKind::While { condition, body } => t1 == t && exists|
            c: HirExpression,
            sa: HirOptimizationStats,
            b: Vec<HirStatement>,
            sb: HirOptimizationStats,
        |
            #![trigger midpoint_with(c, sa), midpoint_run(b, sb)]
            midpoint_with(c, sa) && midpoint_run(b, sb) && expr_opt(condition, t, s0, c, sa)
            && stmts_opt(body@, t, asg, sa, b@, sb) && if c.kind == HirExpressionKind::Boolean(false) {
                out is None && s1 == with_flow(sb)
            } else {
                s1 == sb && out == Some(HirStatement { kind: HirStatementKind::While { condition: c, body: b }, span })
            },
        HirStatementKind::RepeatUntil { body, condition } => t1 == t && (out matches Some(o) && (o.span == span
            && (o.kind matches HirStatementKind::RepeatUntil { body: b, condition: c } && exists|sm: HirOptimizationStats|
            #[trigger] midpoint(sm) && stmts_opt(body@, t, asg, s0, b@, sm) && expr_opt(condition, t, sm, c, s1)))),
        HirStatementKind::ForNumeric { variable, start, end, step, body } => t1 == t && (out matches Some(o) && (o.span == span
            && (o.kind matches HirStatementKind::ForNumeric { variable: v, start: a, end: z, step: st2, body: b } && (v == variable
            && exists|sa: HirOptimizationStats, sb: HirOptimizationStats, sc: HirOptimizationStats|
            #![trigger midpoint(sa), midpoint(sb), midpoint(sc)]
            midpoint(sa) && midpoint(sb) && midpoint(sc) && expr_opt(start, t, s0, a, sa) && expr_opt(end, t, sa, z, sb)
            && (match step {
                None => st2 is None && sc == sb,
                Some(x) => st2 matches Some(y) && expr_opt(x, t, sb, y, sc),
            })
            && stmts_opt(body@, t, asg, sc, b@, s1))))),
        HirStatementKind::ForGeneric { variables, iterables, body } => t1 == t && (out matches Some(o) && (o.span == span
            && (o.kind matches HirStatementKind::ForGeneric { variables: vs, iterables: is, body: b } && (vs == variables
            && exists|sm: HirOptimizationStats| #[trigger] midpoint(sm) && list_opt(iterables@, t, s0, is@, sm)
            && stmts_opt(body@, t, asg, sm, b@, s1))))),
        HirStatementKind::Function { function } => t1 == t && (out matches Some(o) && (o.span == span
            && (o.kind matches HirStatementKind::Function { function: f } && function_opt(function, s0, f, s1)))),
        _ => out == Some(st) && t1 == t && s1 == s0,
    }
}

/// `os` is what the optimization of the run `ss` leaves, statements after
/// a `return`, `break` or `continue` being removed as unreachable.
pub open spec fn stmts_opt(
    ss: Seq<HirStatement>,
    t: ConstTable,
    asg: Seq<HirSymbolId>,
    s0: HirOptimizationStats,
    os: Seq<HirStatement>,
    s1: HirOptimizationStats,
) -> bool
    decreases ss,
{
    if ss.len() == 0 {
        os.len() == 0 && s1 == s0
    } else {
        exists|o: Option<HirStatement>, ta: ConstTable, sa: HirOptimizationStats|
            #[trigger] midpoint_stmt(o, ta, sa) && stmt_opt(ss[0], t, asg, s0, o, ta, sa) && match o {
                Some(x) => if terminates(x) {
                    os == seq![x] && s1 == with_unreachable_n(sa, (ss.len() - 1) as nat)
                } else {
                    os.len() > 0 && os[0] == x && stmts_opt(ss.subrange(1, ss.len() as int), ta, asg, sa, os.subrange(1, os.len() as int), s1)
                },
                None => stmts_opt(ss.subrange(1, ss.len() as int), ta, asg, sa, os, s1),
            }
    }
}

/// `out` is the function `f` with its body optimized, starting from no
/// known constants, and its local variables and return flag gathered again
/// from the new body.
pub open spec fn function_opt(f: HirFunction, s0: HirOptimizationStats, out: HirFunction, s1: HirOptimizationStats) -> bool
    decreases f,
{
    &&& stmts_opt(f.body@, seq![], statements_assign(f.body@), s0, out.body@, s1)
    &&& out.local_variables@ == statements_locals(out.body@)
    &&& out.metadata == HirFunctionMetadata { has_explicit_return: statements_return(out.body@) }
    &&& out.id == f.id && out.symbol_id == f.symbol_id && out.name == f.name && out.parameters == f.parameters
    &&& out.return_type == f.return_type && out.scope_id == f.scope_id && out.is_local == f.is_local && out.span == f.span
}

/// A trigger marker, always true: it names the counts between two steps
/// so that the existential over them in the relations below can be
/// instantiated. (A trigger on the recursive relations themselves is not
/// matched inside their own unfolding.)
pub open spec fn midpoint(s: HirOptimizationStats) -> bool {
    true
}

/// A trigger marker, always true, for an intermediate expression and the
/// counts after it.
pub open spec fn midpoint_with(e: HirExpression, s: HirOptimizationStats) -> bool {
    true
}

/// `out` is the optimization of `e` with the constants `t`, and the counts
/// go from `s0` to `s1`. Subexpressions are optimized left to right before
/// the expression itself.
pub open spec fn expr_opt(e: HirExpression, t: ConstTable, s0: HirOptimizationStats, out: HirExpression, s1: HirOptimizationStats) -> bool
    decreases e, 1nat,
{
    if propagates(e, t) {
        out == (HirExpression { span: e.span, ..table_get(t, e.symbol_id->0)->0 }) && s1 == with_propagated(s0)
    } else {
        match e.kind {
            HirExpressionKind::Unary { operator, operand } => exists|o: HirExpression, sm: HirOptimizationStats|
                #[trigger] midpoint_with(o, sm) && expr_opt(*operand, t, s0, o, sm) && unary_out(operator, o, e.expr_type, e.symbol_id, e.span, sm, out, s1),
            HirExpressionKind::Binary { left, operator, right } => exists|
                a: HirExpression,
                sa: HirOptimizationStats,
                b: HirExpression,
                sb: HirOptimizationStats,
            |
                #![trigger midpoint_with(a, sa), midpoint_with(b, sb)]
                midpoint_with(a, sa) && midpoint_with(b, sb) && expr_opt(*left, t, s0, a, sa) && expr_opt(*right, t, sa, b, sb) && binary_out(a, operator, b, e.expr_type, e.symbol_id, e.span, sb, out, s1),
            HirExpressionKind::TableConstructor(fields) => {
                &&& out.kind matches HirExpressionKind::TableConstructor(ofs) && fields_opt(fields@, t, s0, ofs@, s1)
                &&& out.expr_type == e.expr_type && out.symbol_id == e.symbol_id && out.span == e.span
            },
            HirExpressionKind::Index { object, index } => {
                &&& out.kind matches HirExpressionKind::Index { object: o, index: i } && exists|sm: HirOptimizationStats|
                    #[trigger] midpoint(sm) && expr_opt(*object, t, s0, *o, sm) && expr_opt(*index, t, sm, *i, s1)
                &&& out.expr_type == e.expr_type && out.symbol_id == e.symbol_id && out.span == e.span
            },
            HirExpressionKind::FieldAccess { object, field } => {
                &&& out.kind matches HirExpressionKind::FieldAccess { object: o, field: f } && f == field && expr_opt(*object, t, s0, *o, s1)
                &&& out.expr_type == e.expr_type && out.symbol_id == e.symbol_id && out.span == e.span
            },
            HirExpressionKind::FunctionCall { callee, arguments } => {
                &&& out.kind matches HirExpressionKind::FunctionCall { callee: c, arguments: args } && exists|sm: HirOptimizationStats|
                    #[trigger] midpoint(sm) && expr_opt(*callee, t, s0, *c, sm) && list_opt(arguments@, t, sm, args@, s1)
                &&& out.expr_type == e.expr_type && out.symbol_id == e.symbol_id && out.span == e.span
            },
            HirExpressionKind::MethodCall { receiver, method, arguments } => {
                &&& out.kind matches HirExpressionKind::MethodCall { receiver: r, method: m, arguments: args } && m == method
                    && exists|sm: HirOptimizationStats| #[trigger] midpoint(sm) && expr_opt(*receiver, t, s0, *r, sm) && list_opt(arguments@, t, sm, args@, s1)
                &&& out.expr_type == e.expr_type && out.symbol_id == e.symbol_id && out.span == e.span
            },
            HirExpressionKind::BuiltinCall { function, arguments } => {
                &&& out.kind matches HirExpressionKind::BuiltinCall { function: f, arguments: args } && f == function
                    && list_opt(arguments@, t, s0, args@, s1)
                &&& out.expr_type == e.expr_type && out.symbol_id == e.symbol_id && out.span == e.span
            },
            _ => out == e && s1 == s0,
        }
    }
}

/// `os` are the optimizations of `es`, one after another.
pub open spec fn list_opt(es: Seq<HirExpression>, t: ConstTable, s0: HirOptimizationStats, os: Seq<HirExpression>, s1: HirOptimizationStats) -> bool
    decreases es, 0nat,
{
    if es.len() == 0 {
        os.len() == 0 && s1 == s0
    } else {
        &&& os.len() == es.len()
        &&& exists|sm: HirOptimizationStats|
            #[trigger] midpoint(sm) && list_opt(es.drop_last(), t, s0, os.drop_last(), sm) && expr_opt(es.last(), t, sm, os.last(), s1)
    }
}

/// `out` is the field `f` with its expressions optimized.
pub open spec fn field_opt(f: HirTableField, t: ConstTable, s0: HirOptimizationStats, out: HirTableField, s1: HirOptimizationStats) -> bool
    decreases f, 1nat,
{
    match f {
        HirTableField::Named { key, value } => out matches HirTableField::Named { key: k, value: v } && k == key && expr_opt(value, t, s0, v, s1),
        HirTableField::Indexed { key, value } => out matches HirTableField::Indexed { key: k, value: v } && exists|sm: HirOptimizationStats|
            #[trigger] midpoint(sm) && expr_opt(key, t, s0, k, sm) && expr_opt(value, t, sm, v, s1),
        HirTableField::Expression(value) => out matches HirTableField::Expression(v) && expr_opt(value, t, s0, v, s1),
    }
}

/// `os` are the fields `fs` optimized one after another.
pub open spec fn fields_opt(fs: Seq<HirTableField>, t: ConstTable, s0: HirOptimizationStats, os: Seq<HirTableField>, s1: HirOptimizationStats) -> bool
    decreases fs, 0nat,
{
    if fs.len() == 0 {
        os.len() == 0 && s1 == s0
    } else {
        &&& os.len() == fs.len()
        &&& exists|sm: HirOptimizationStats|
            #[trigger] midpoint(sm) && fields_opt(fs.drop_last(), t, s0, os.drop_last(), sm) && field_opt(fs.last(), t, sm, os.last(), s1)
    }
}

/// One more optimized expression extends an optimized list.
proof fn lemma_list_step(
    es: Seq<HirExpression>,
    t: ConstTable,
    s0: HirOptimizationStats,
    os: Seq<HirExpression>,
    sm: HirOptimizationStats,
    s1: HirOptimizationStats,
)
    requires
        es.len() > 0,
        os.len() == es.len(),
        list_opt(es.drop_last(), t, s0, os.drop_last(), sm),
        expr_opt(es.last(), t, sm, os.last(), s1),
    ensures
        list_opt(es, t, s0, os, s1),
{
    assert(midpoint(sm));
}

/// One more optimized field extends an optimized field list.
proof fn lemma_fields_step(
    fs: Seq<HirTableField>,
    t: ConstTable,
    s0: HirOptimizationStats,
    os: Seq<HirTableField>,
    sm: HirOptimizationStats,
    s1: HirOptimizationStats,
)
    requires
        fs.len() > 0,
        os.len() == fs.len(),
        fields_opt(fs.drop_last(), t, s0, os.drop_last(), sm),
        field_opt(fs.last(), t, sm, os.last(), s1),
    ensures
        fields_opt(fs, t, s0, os, s1),
{
    assert(midpoint(sm));
}

/// Whether an expression is a literal.
fn literal_expression(e: &HirExpression) -> (result: bool)
    ensures
        result == is_literal(*e),
{
    match &e.kind {
        HirExpressionKind::Nil => true,
        HirExpressionKind::Boolean(_) => true,
        HirExpressionKind::Number(_) => true,
        HirExpressionKind::String(_) => true,
        _ => false,
    }
}

/// Whether evaluating an expression has no effect beyond its value.
fn expression_is_side_effect_free(e: &HirExpression) -> (result: bool)
    ensures
        result == side_effect_free(*e),
    decreases e, 1nat,
{
    match &e.kind {
        HirExpressionKind::Unary { operand, .. } => expression_is_side_effect_free(operand),
        HirExpressionKind::Binary { left, right, .. } => expression_is_side_effect_free(left) && expression_is_side_effect_free(right),
        HirExpressionKind::TableConstructor(fields) => fields_are_side_effect_free(fields),
        HirExpressionKind::Index { object, index } => expression_is_side_effect_free(object) && expression_is_side_effect_free(index),
        HirExpressionKind::FieldAccess { object, .. } => expression_is_side_effect_free(object),
        HirExpressionKind::FunctionCall { .. } => false,
        HirExpressionKind::MethodCall { .. } => false,
        HirExpressionKind::BuiltinCall { .. } => false,
        HirExpressionKind::Error => false,
        _ => true,
    }
}

/// Whether no expression of the fields has an effect.
fn fields_are_side_effect_free(fs: &Vec<HirTableField>) -> (result: bool)
    ensures
        result == fields_side_effect_free(fs@),
    decreases fs, 0nat,
{
    let mut i: usize = 0;
    while i < fs.len()
        invariant
            i <= fs@.len(),
            fields_side_effect_free(fs@.subrange(0, i as int)),
        decreases fs.len() - i,
    {
        proof {
            assert(decreases_to!(fs => fs@));
            assert(decreases_to!(fs@ => fs@[i as int]));
        }
        let ok = match &fs[i] {
            HirTableField::Named { value, .. } => expression_is_side_effect_free(value),
            HirTableField::Indexed { key, value } => expression_is_side_effect_free(key) && expression_is_side_effect_free(value),
            HirTableField::Expression(value) => expression_is_side_effect_free(value),
        };
        proof {
            assert(fs@.subrange(0, i + 1).drop_last() =~= fs@.subrange(0, i as int));
        }
        if !ok {
            proof {
                lemma_fields_effect_prefix(fs@, i as int + 1);
            }
            return false;
        }
        i = i + 1;
    }
    assert(fs@.subrange(0, fs@.len() as int) =~= fs@);
    true
}

/// A field with an effect in a prefix of the fields gives the whole run one.
proof fn lemma_fields_effect_prefix(fs: Seq<HirTableField>, k: int)
    requires
        0 <= k <= fs.len(),
        !fields_side_effect_free(fs.subrange(0, k)),
    ensures
        !fields_side_effect_free(fs),
    decreases fs.len() - k,
{
    if k < fs.len() {
        assert(fs.subrange(0, k + 1).drop_last() =~= fs.subrange(0, k));
        lemma_fields_effect_prefix(fs, k + 1);
    } else {
        assert(fs.subrange(0, k) =~= fs);
    }
}

/// Whether `id` is among the symbols `ids`.
fn contains_symbol(ids: &Vec<HirSymbolId>, id: HirSymbolId) -> (result: bool)
    ensures
        result == ids@.contains(id),
{
    let mut i: usize = 0;
    while i < ids.len()
        invariant
            i <= ids@.len(),
            forall|j: int| 0 <= j < i ==> ids@[j] != id,
        decreases ids.len() - i,
    {
        if ids[i] == id {
            assert(ids@[i as int] == id);
            return true;
        }
        i = i + 1;
    }
    false
}

/// Appends the symbols that the targets of an assignment name.
fn push_target_symbols(ts: &Vec<HirExpression>, out: &mut Vec<HirSymbolId>)
    ensures
        final(out)@ == old(out)@ + target_symbols(ts@),
{
    let ghost start = out@;
    let mut i: usize = 0;
    while i < ts.len()
        invariant
            i <= ts@.len(),
            out@ == start + target_symbols(ts@.subrange(0, i as int)),
        decreases ts.len() - i,
    {
        proof {
            assert(ts@.subrange(0, i + 1).drop_last() =~= ts@.subrange(0, i as int));
        }
        match ts[i].symbol_id {
            Some(id) => {
                out.push(id);
            },
            None => {},
        }
        assert(out@ =~= start + target_symbols(ts@.subrange(0, i + 1)));
        i = i + 1;
    }
    assert(ts@.subrange(0, ts@.len() as int) =~= ts@);
}

/// Appends the symbols a statement assigns.
fn collect_statement_assigns(st: &HirStatement, out: &mut Vec<HirSymbolId>)
    ensures
        final(out)@ == old(out)@ + statement_assigns(*st),
    decreases st,
{
    match &st.kind {
        HirStatementKind::Assignment { targets, .. } => push_target_symbols(targets, out),
        HirStatementKind::Block(ss) => collect_assigns_into(ss, out),
        HirStatementKind::If { then_block, else_block, .. } => {
            collect_assigns_into(then_block, out);
            match else_block {
                Some(e) => collect_assigns_into(e, out),
                None => {},
            }
            assert(final(out)@ =~= old(out)@ + statement_assigns(*st));
        },
        HirStatementKind::While { body, .. } => collect_assigns_into(body, out),
        HirStatementKind::RepeatUntil { body, .. } => collect_assigns_into(body, out),
        HirStatementKind::ForNumeric { body, .. } => collect_assigns_into(body, out),
        HirStatementKind::ForGeneric { body, .. } => collect_assigns_into(body, out),
        _ => {
            assert(final(out)@ =~= old(out)@ + statement_assigns(*st));
        },
    }
}

/// Appends the symbols a run of statements assigns.
fn collect_assigns_into(ss: &Vec<HirStatement>, out: &mut Vec<HirSymbolId>)
    ensures
        final(out)@ == old(out)@ + statements_assign(ss@),
    decreases ss,
{
    let ghost start = out@;
    let mut i: usize = 0;
    while i < ss.len()
        invariant
            i <= ss@.len(),
            out@ == start + statements_assign(ss@.subrange(0, i as int)),
        decreases ss.len() - i,
    {
        collect_statement_assigns(&ss[i], out);
        proof {
            let run = ss@.subrange(0, i + 1);
            assert(run.drop_last() =~= ss@.subrange(0, i as int));
            assert(out@ =~= start + statements_assign(run));
        }
        i = i + 1;
    }
    assert(ss@.subrange(0, ss@.len() as int) =~= ss@);
}

/// `b` is `a` with entries appended.
pub open spec fn extends(a: ConstTable, b: ConstTable) -> bool {
    b.len() >= a.len() && b.subrange(0, a.len() as int) =~= a
}

/// The statements an optional statement leaves in a run.
pub open spec fn kept(o: Option<HirStatement>) -> Seq<HirStatement> {
    match o {
        Some(x) => seq![x],
        None => seq![],
    }
}

/// A statement that does not end the run, followed by the optimized rest.
proof fn lemma_run_step(
    ss: Seq<HirStatement>,
    t: ConstTable,
    asg: Seq<HirSymbolId>,
    s0: HirOptimizationStats,
    o: Option<HirStatement>,
    ta: ConstTable,
    sa: HirOptimizationStats,
    xs: Seq<HirStatement>,
    sf: HirOptimizationStats,
)
    requires
        ss.len() > 0,
        stmt_opt(ss[0], t, asg, s0, o, ta, sa),
        o matches Some(x) ==> !terminates(x),
        stmts_opt(ss.subrange(1, ss.len() as int), ta, asg, sa, xs, sf),
    ensures
        stmts_opt(ss, t, asg, s0, kept(o) + xs, sf),
{
    assert(midpoint_stmt(o, ta, sa));
    match o {
        Some(x) => {
            let os = seq![x] + xs;
            assert(os.subrange(1, os.len() as int) =~= xs);
            assert(os[0] == x);
        },
        None => {
            assert(seq![] + xs =~= xs);
        },
    }
}

/// A statement that ends the run: the rest is unreachable.
proof fn lemma_run_stop(
    ss: Seq<HirStatement>,
    t: ConstTable,
    asg: Seq<HirSymbolId>,
    s0: HirOptimizationStats,
    x: HirStatement,
    ta: ConstTable,
    sa: HirOptimizationStats,
)
    requires
        ss.len() > 0,
        stmt_opt(ss[0], t, asg, s0, Some(x), ta, sa),
        terminates(x),
    ensures
        stmts_opt(ss, t, asg, s0, seq![x], with_unreachable_n(sa, (ss.len() - 1) as nat)),
{
    assert(midpoint_stmt(Some(x), ta, sa));
}

/// Whether nothing after a statement in its run is reached.
fn statement_terminates(st: &HirStatement) -> (result: bool)
    ensures
        result == terminates(*st),
{
    match &st.kind {
        HirStatementKind::Return(_) => true,
        HirStatementKind::Break => true,
        HirStatementKind::Continue => true,
        _ => false,
    }
}

/// No rewrites yet.
pub open spec fn no_changes() -> HirOptimizationStats {
    HirOptimizationStats {
        constant_folds: 0,
        constants_propagated: 0,
        expressions_simplified: 0,
        dead_expressions_removed: 0,
        control_flow_simplified: 0,
        unreachable_statements_removed: 0,
    }
}

/// `out` is the global `g` with its initializer optimized from no known
/// constants.
pub open spec fn global_opt(g: HirGlobalVariable, s0: HirOptimizationStats, out: HirGlobalVariable, s1: HirOptimizationStats) -> bool {
    &&& out.symbol_id == g.symbol_id && out.name == g.name && out.var_type == g.var_type
    &&& out.scope_id == g.scope_id && out.span == g.span
    &&& match g.initializer {
        None => out.initializer is None && s1 == s0,
        Some(x) => out.initializer matches Some(y) && expr_opt(x, seq![], s0, y, s1),
    }
}

/// `os` are the globals `gs` optimized one after another.
pub open spec fn globals_opt(gs: Seq<HirGlobalVariable>, s0: HirOptimizationStats, os: Seq<HirGlobalVariable>, s1: HirOptimizationStats) -> bool
    decreases gs.len(),
{
    if gs.len() == 0 {
        os.len() == 0 && s1 == s0
    } else {
        &&& os.len() == gs.len()
        &&& exists|sm: HirOptimizationStats|
            #[trigger] midpoint(sm) && globals_opt(gs.drop_last(), s0, os.drop_last(), sm) && global_opt(gs.last(), sm, os.last(), s1)
    }
}

/// `os` are the functions `fs` optimized one after another.
pub open spec fn functions_opt(fs: Seq<HirFunction>, s0: HirOptimizationStats, os: Seq<HirFunction>, s1: HirOptimizationStats) -> bool
    decreases fs.len(),
{
    if fs.len() == 0 {
        os.len() == 0 && s1 == s0
    } else {
        &&& os.len() == fs.len()
        &&& exists|sm: HirOptimizationStats|
            #[trigger] midpoint(sm) && functions_opt(fs.drop_last(), s0, os.drop_last(), sm) && function_opt(fs.last(), sm, os.last(), s1)
    }
}

/// `out` is the module `m` optimized, the globals first and then the
/// functions, and `s` counts the rewrites made.
pub open spec fn module_opt(m: HirModule, out: HirModule, s: HirOptimizationStats) -> bool {
    &&& exists|sm: HirOptimizationStats|
        #[trigger] midpoint(sm) && globals_opt(m.global_variables@, no_changes(), out.global_variables@, sm)
            && functions_opt(m.functions@, sm, out.functions@, s)
    &&& out.name == m.name && out.type_aliases == m.type_aliases && out.scopes == m.scopes && out.symbols == m.symbols
    &&& out.metadata == m.metadata && out.span == m.span
}

/// The optimized module and the counts of the rewrites made.
#[derive(Debug)]
pub struct HirOptimizationResult {
    pub module: HirModule,
    pub stats: HirOptimizationStats,
}

/// An optimized run is never longer than the run it came from, and no
/// statement in it but the last is a `return`, `break` or `continue`:
/// nothing unreachable is left behind one.
pub proof fn lemma_optimized_run_shape(
    ss: Seq<HirStatement>,
    t: ConstTable,
    asg: Seq<HirSymbolId>,
    s0: HirOptimizationStats,
    os: Seq<HirStatement>,
    s1: HirOptimizationStats,
)
    requires
        stmts_opt(ss, t, asg, s0, os, s1),
    ensures
        os.len() <= ss.len(),
        forall|i: int| 0 <= i < os.len() - 1 ==> !terminates(#[trigger] os[i]),
    decreases ss.len(),
{
    if ss.len() > 0 {
        let (o, ta, sa) = choose|o: Option<HirStatement>, ta: ConstTable, sa: HirOptimizationStats|
            #[trigger] midpoint_stmt(o, ta, sa) && stmt_opt(ss[0], t, asg, s0, o, ta, sa) && match o {
                Some(x) => if terminates(x) {
                    os == seq![x] && s1 == with_unreachable_n(sa, (ss.len() - 1) as nat)
                } else {
                    os.len() > 0 && os[0] == x && stmts_opt(ss.subrange(1, ss.len() as int), ta, asg, sa, os.subrange(1, os.len() as int), s1)
                },
                None => stmts_opt(ss.subrange(1, ss.len() as int), ta, asg, sa, os, s1),
            };
        match o {
            Some(x) => {
                if !terminates(x) {
                    let rest = os.subrange(1, os.len() as int);
                    lemma_optimized_run_shape(ss.subrange(1, ss.len() as int), ta, asg, sa, rest, s1);
                    assert forall|i: int| 0 <= i < os.len() - 1 implies !terminates(#[trigger] os[i]) by {
                        if i > 0 {
                            assert(os[i] == rest[i - 1]);
                        }
                    }
                }
            },
            None => {
                lemma_optimized_run_shape(ss.subrange(1, ss.len() as int), ta, asg, sa, os, s1);
            },
        }
    }
}

/// Optimizes the high-level representation; see the module's description.
pub struct HirOptimizer {
    stats: HirOptimizationStats,
}

/// A copy of a literal.
fn copy_literal(e: &HirExpression) -> (result: HirExpression)
    requires
        is_literal(*e),
    ensures
        result == *e,
{
    let kind = match &e.kind {
        HirExpressionKind::Boolean(b) => HirExpressionKind::Boolean(*b),
        HirExpressionKind::Number(text) => HirExpressionKind::Number(text.clone()),
        HirExpressionKind::String(text) => HirExpressionKind::String(text.clone()),
        _ => HirExpressionKind::Nil,
    };
    HirExpression { kind, expr_type: e.expr_type, symbol_id: e.symbol_id, span: e.span }
}

/// A copy of the literal a symbol is known to hold.
fn table_lookup(t: &Vec<(HirSymbolId, Option<HirExpression>)>, id: HirSymbolId) -> (result: Option<HirExpression>)
    requires
        literal_table(t@),
    ensures
        result == table_get(t@, id),
{
    let mut i: usize = t.len();
    assert(t@.subrange(0, i as int) =~= t@);
    while i > 0
        invariant
            i <= t@.len(),
            table_get(t@.subrange(0, i as int), id) == table_get(t@, id),
            literal_table(t@),
        decreases i,
    {
        assert(t@.subrange(0, i as int).drop_last() =~= t@.subrange(0, i - 1));
        if t[i - 1].0 == id {
            match &t[i - 1].1 {
                Some(x) => {
                    assert(t@[i - 1].1 matches Some(y) ==> is_literal(y));
                    return Some(copy_literal(x));
                },
                None => {
                    return None;
                },
            }
        }
        i = i - 1;
    }
    None
}

impl HirOptimizer {
    /// The counts so far.
    pub closed spec fn counts(self) -> HirOptimizationStats {
        self.stats
    }

    pub fn new() -> (result: Self)
        ensures
            result.counts() == (HirOptimizationStats {
                constant_folds: 0,
                constants_propagated: 0,
                expressions_simplified: 0,
                dead_expressions_removed: 0,
                control_flow_simplified: 0,
                unreachable_statements_removed: 0,
            }),
    {
        HirOptimizer {
            stats: HirOptimizationStats {
                constant_folds: 0,
                constants_propagated: 0,
                expressions_simplified: 0,
                dead_expressions_removed: 0,
                control_flow_simplified: 0,
                unreachable_statements_removed: 0,
            },
        }
    }

    /// The counts so far.
    pub fn stats(&self) -> (result: HirOptimizationStats)
        ensures
            result == self.counts(),
    {
        self.stats
    }

    fn fold_unary(&mut self, op: HirUnaryOperator, o: HirExpression, ty: Option<HirType>, sym: Option<HirSymbolId>, span: SourceSpan) -> (out: HirExpression)
        ensures
            unary_out(op, o, ty, sym, span, old(self).stats, out, final(self).stats),
    {
        if op == HirUnaryOperator::Not {
            let folded = match &o.kind {
                HirExpressionKind::Boolean(v) => Some(!*v),
                _ => None,
            };
            if let Some(v) = folded {
                self.stats.constant_folds = self.stats.constant_folds.saturating_add(1);
                return HirExpression { kind: HirExpressionKind::Boolean(v), expr_type: Some(HirType::Boolean), symbol_id: None, span };
            }
            let double = match &o.kind {
                HirExpressionKind::Unary { operator: HirUnaryOperator::Not, .. } => true,
                _ => false,
            };
            if double {
                self.stats.expressions_simplified = self.stats.expressions_simplified.saturating_add(1);
                match o.kind {
                    HirExpressionKind::Unary { operand, .. } => {
                        return *operand;
                    },
                    other => {
                        return HirExpression { kind: other, expr_type: ty, symbol_id: sym, span };
                    },
                }
            }
        }
        HirExpression { kind: HirExpressionKind::Unary { operator: op, operand: Box::new(o) }, expr_type: ty, symbol_id: sym, span }
    }

    fn fold_binary(
        &mut self,
        a: HirExpression,
        op: HirBinaryOperator,
        b: HirExpression,
        ty: Option<HirType>,
        sym: Option<HirSymbolId>,
        span: SourceSpan,
    ) -> (out: HirExpression)
        ensures
            binary_out(a, op, b, ty, sym, span, old(self).stats, out, final(self).stats),
    {
        let a_bool = match &a.kind {
            HirExpressionKind::Boolean(v) => Some(*v),
            _ => None,
        };
        let b_bool = match &b.kind {
            HirExpressionKind::Boolean(v) => Some(*v),
            _ => None,
        };
        if let (Some(x), Some(y)) = (a_bool, b_bool) {
            if op == HirBinaryOperator::And {
                self.stats.constant_folds = self.stats.constant_folds.saturating_add(1);
                return HirExpression { kind: HirExpressionKind::Boolean(x && y), expr_type: Some(HirType::Boolean), symbol_id: None, span };
            }
            if op == HirBinaryOperator::Or {
                self.stats.constant_folds = self.stats.constant_folds.saturating_add(1);
                return HirExpression { kind: HirExpressionKind::Boolean(x || y), expr_type: Some(HirType::Boolean), symbol_id: None, span };
            }
        }
        if op == HirBinaryOperator::Concatenate {
            let joined = match (&a.kind, &b.kind) {
                (HirExpressionKind::String(x), HirExpressionKind::String(y)) => {
                    let mut text = x.clone();
                    push_str(&mut text, y.as_str());
                    Some(text)
                },
                _ => None,
            };
            if let Some(text) = joined {
                self.stats.constant_folds = self.stats.constant_folds.saturating_add(1);
                return HirExpression { kind: HirExpressionKind::String(text), expr_type: Some(HirType::String), symbol_id: None, span };
            }
        }
        if op == HirBinaryOperator::And && b_bool == Some(true) {
            self.stats.expressions_simplified = self.stats.expressions_simplified.saturating_add(1);
            return a;
        }
        if op == HirBinaryOperator::And && a_bool == Some(true) {
            self.stats.expressions_simplified = self.stats.expressions_simplified.saturating_add(1);
            return b;
        }
        if op == HirBinaryOperator::Or && b_bool == Some(false) {
            self.stats.expressions_simplified = self.stats.expressions_simplified.saturating_add(1);
            return a;
        }
        if op == HirBinaryOperator::Or && a_bool == Some(false) {
            self.stats.expressions_simplified = self.stats.expressions_simplified.saturating_add(1);
            return b;
        }
        HirExpression { kind: HirExpressionKind::Binary { left: Box::new(a), operator: op, right: Box::new(b) }, expr_type: ty, symbol_id: sym, span }
    }
}

impl HirOptimizer {
    /// Optimizes an expression with the constants `t`.
    #[verifier::spinoff_prover]
    #[verifier::rlimit(40)]
    fn optimize_expression(&mut self, e: HirExpression, t: &Vec<(HirSymbolId, Option<HirExpression>)>) -> (out: HirExpression)
        requires
            literal_table(t@),
        ensures
            expr_opt(e, t@, old(self).stats, out, final(self).stats),
        decreases e, 1nat,
    {
        let ghost s0 = self.stats;
        if let Some(s) = e.symbol_id {
            let is_variable = match &e.kind {
                HirExpressionKind::LocalVariable(_) => true,
                HirExpressionKind::GlobalVariable(_) => true,
                _ => false,
            };
            if is_variable {
                match table_lookup(t, s) {
                    Some(c) => {
                        self.stats.constants_propagated = self.stats.constants_propagated.saturating_add(1);
                        let mut p = c;
                        p.span = e.span;
                        return p;
                    },
                    None => {},
                }
            }
        }
        let span = e.span;
        let ty = e.expr_type;
        let sym = e.symbol_id;
        match e.kind {
            HirExpressionKind::Unary { operator, operand } => {
                let o = self.optimize_expression(*operand, t);
                proof {
                    assert(midpoint_with(o, self.stats));
                }
                self.fold_unary(operator, o, ty, sym, span)
            },
            HirExpressionKind::Binary { left, operator, right } => {
                let a = self.optimize_expression(*left, t);
                proof {
                    assert(midpoint_with(a, self.stats));
                }
                let b = self.optimize_expression(*right, t);
                proof {
                    assert(midpoint_with(b, self.stats));
                }
                self.fold_binary(a, operator, b, ty, sym, span)
            },
            HirExpressionKind::TableConstructor(fields) => {
                let fs = self.optimize_fields(fields, t);
                HirExpression { kind: HirExpressionKind::TableConstructor(fs), expr_type: ty, symbol_id: sym, span }
            },
            HirExpressionKind::Index { object, index } => {
                let o = self.optimize_expression(*object, t);
                proof {
                    assert(midpoint(self.stats));
                }
                let i = self.optimize_expression(*index, t);
                HirExpression { kind: HirExpressionKind::Index { object: Box::new(o), index: Box::new(i) }, expr_type: ty, symbol_id: sym, span }
            },
            HirExpressionKind::FieldAccess { object, field } => {
                let o = self.optimize_expression(*object, t);
                HirExpression { kind: HirExpressionKind::FieldAccess { object: Box::new(o), field }, expr_type: ty, symbol_id: sym, span }
            },
            HirExpressionKind::FunctionCall { callee, arguments } => {
                let ghost cg = *callee;
                let c = self.optimize_expression(*callee, t);
                let ghost sm = self.stats;
                let args = self.optimize_list(arguments, t);
                let out = HirExpression { kind: HirExpressionKind::FunctionCall { callee: Box::new(c), arguments: args }, expr_type: ty, symbol_id: sym, span };
                proof {
                    assert(midpoint(sm));
                    assert(expr_opt(cg, t@, s0, c, sm));
                }
                out
            },
            HirExpressionKind::MethodCall { receiver, method, arguments } => {
                let ghost rg = *receiver;
                let r = self.optimize_expression(*receiver, t);
                let ghost sm = self.stats;
                let args = self.optimize_list(arguments, t);
                let out = HirExpression {
                    kind: HirExpressionKind::MethodCall { receiver: Box::new(r), method, arguments: args },
                    expr_type: ty,
                    symbol_id: sym,
                    span,
                };
                proof {
                    assert(midpoint(sm));
                    assert(expr_opt(rg, t@, s0, r, sm));
                }
                out
            },
            HirExpressionKind::BuiltinCall { function, arguments } => {
                let args = self.optimize_list(arguments, t);
                HirExpression { kind: HirExpressionKind::BuiltinCall { function, arguments: args }, expr_type: ty, symbol_id: sym, span }
            },
            other => HirExpression { kind: other, expr_type: ty, symbol_id: sym, span },
        }
    }

    /// Optimizes expressions one after another.
    #[verifier::loop_isolation(false)]
    fn optimize_list(&mut self, es: Vec<HirExpression>, t: &Vec<(HirSymbolId, Option<HirExpression>)>) -> (out: Vec<HirExpression>)
        requires
            literal_table(t@),
        ensures
            list_opt(es@, t@, old(self).stats, out@, final(self).stats),
        decreases es, 0nat,
    {
        let ghost orig = es@;
        let ghost s0 = self.stats;
        let ghost whole = es;
        let mut rest = es;
        let mut out: Vec<HirExpression> = Vec::new();
        let mut i: usize = 0;
        let n: usize = rest.len();
        while rest.len() > 0
            invariant
                i + rest@.len() == orig.len(),
                rest@ == orig.subrange(i as int, orig.len() as int),
                orig == whole@,
                orig.len() == n,
                out@.len() == i,
                list_opt(orig.subrange(0, i as int), t@, s0, out@, self.stats),
                literal_table(t@),
            decreases rest@.len(),
        {
            let x = rest.remove(0);
            let ghost sm = self.stats;
            let ghost before = out@;
            proof {
                assert(x == orig[i as int]);
                assert(decreases_to!(whole => x));
            }
            let y = self.optimize_expression(x, t);
            out.push(y);
            proof {
                let p = orig.subrange(0, i + 1);
                assert(p.drop_last() =~= orig.subrange(0, i as int));
                assert(p.last() == x);
                assert(out@.drop_last() =~= before);
                assert(out@.last() == y);
                lemma_list_step(p, t@, s0, out@, sm, self.stats);
            }
            i = i + 1;
        }
        assert(orig.subrange(0, i as int) =~= orig);
        out
    }

    /// Optimizes the expressions of table fields one after another.
    #[verifier::loop_isolation(false)]
    fn optimize_fields(&mut self, fs: Vec<HirTableField>, t: &Vec<(HirSymbolId, Option<HirExpression>)>) -> (out: Vec<HirTableField>)
        requires
            literal_table(t@),
        ensures
            fields_opt(fs@, t@, old(self).stats, out@, final(self).stats),
        decreases fs, 0nat,
    {
        let ghost orig = fs@;
        let ghost s0 = self.stats;
        let ghost whole = fs;
        let mut rest = fs;
        let mut out: Vec<HirTableField> = Vec::new();
        let mut i: usize = 0;
        let n: usize = rest.len();
        while rest.len() > 0
            invariant
                i + rest@.len() == orig.len(),
                rest@ == orig.subrange(i as int, orig.len() as int),
                orig == whole@,
                orig.len() == n,
                out@.len() == i,
                fields_opt(orig.subrange(0, i as int), t@, s0, out@, self.stats),
                literal_table(t@),
            decreases rest@.len(),
        {
            let f = rest.remove(0);
            let ghost sm = self.stats;
            let ghost before = out@;
            let ghost f0 = f;
            proof {
                assert(f == orig[i as int]);
                assert(decreases_to!(whole => f));
            }
            let g = match f {
                HirTableField::Named { key, value } => {
                    let v = self.optimize_expression(value, t);
                    let g = HirTableField::Named { key, value: v };
                    proof {
                        assert(field_opt(f0, t@, sm, g, self.stats));
                    }
                    g
                },
                HirTableField::Indexed { key, value } => {
                    let ghost kg = key;
                    let k = self.optimize_expression(key, t);
                    let ghost sk = self.stats;
                    let v = self.optimize_expression(value, t);
                    let g = HirTableField::Indexed { key: k, value: v };
                    proof {
                        assert(midpoint(sk));
                        assert(expr_opt(kg, t@, sm, k, sk));
                        assert(field_opt(f0, t@, sm, g, self.stats));
                    }
                    g
                },
                HirTableField::Expression(value) => {
                    let v = self.optimize_expression(value, t);
                    let g = HirTableField::Expression(v);
                    proof {
                        assert(field_opt(f0, t@, sm, g, self.stats));
                    }
                    g
                },
            };
            out.push(g);
            proof {
                let p = orig.subrange(0, i + 1);
                assert(p.drop_last() =~= orig.subrange(0, i as int));
                assert(p.last() == f0);
                assert(out@.drop_last() =~= before);
                assert(out@.last() == g);
                assert(field_opt(f0, t@, sm, g, self.stats));
                lemma_fields_step(p, t@, s0, out@, sm, self.stats);
            }
            i = i + 1;
        }
        assert(orig.subrange(0, i as int) =~= orig);
        out
    }
}


impl HirOptimizer {
    /// Optimizes a local declaration and records a literal initializer of
    /// a symbol that is never assigned.
    fn optimize_local(
        &mut self,
        variable: HirLocalVariable,
        initializer: Option<HirExpression>,
        span: SourceSpan,
        t: &mut Vec<(HirSymbolId, Option<HirExpression>)>,
        asg: &Vec<HirSymbolId>,
    ) -> (result: Option<HirStatement>)
        requires
            literal_table(old(t)@),
        ensures
            stmt_opt(
                (HirStatement { kind: HirStatementKind::LocalVariable { variable, initializer }, span }),
                old(t)@,
                asg@,
                old(self).stats,
                result,
                final(t)@,
                final(self).stats,
            ),
            literal_table(final(t)@),
            extends(old(t)@, final(t)@),
    {
        let id = variable.symbol_id;
        match initializer {
            None => {
                t.push((id, None));
                assert(t@.subrange(0, t@.len() - 1) =~= old(t)@);
                Some(HirStatement { kind: HirStatementKind::LocalVariable { variable, initializer: None }, span })
            },
            Some(init) => {
                let i = self.optimize_expression(init, t);
                if !contains_symbol(asg, id) && literal_expression(&i) {
                    let c = copy_literal(&i);
                    t.push((id, Some(c)));
                } else {
                    t.push((id, None));
                }
                assert(t@.subrange(0, t@.len() - 1) =~= old(t)@);
                Some(HirStatement { kind: HirStatementKind::LocalVariable { variable, initializer: Some(i) }, span })
            },
        }
    }

    /// Optimizes an assignment and forgets the constants of its targets.
    fn optimize_assignment(
        &mut self,
        targets: Vec<HirExpression>,
        values: Vec<HirExpression>,
        span: SourceSpan,
        t: &mut Vec<(HirSymbolId, Option<HirExpression>)>,
        asg: &Vec<HirSymbolId>,
    ) -> (result: Option<HirStatement>)
        requires
            literal_table(old(t)@),
        ensures
            stmt_opt(
                    (HirStatement { kind: HirStatementKind::Assignment { targets, values }, span }),
                    old(t)@,
                    asg@,
                    old(self).stats,
                    result,
                    final(t)@,
                    final(self).stats,
                ),
            literal_table(final(t)@),
            extends(old(t)@, final(t)@),
    {
        let ghost t0 = t@;
        let ghost s0 = self.stats;
        let ts = self.optimize_list(targets, t);
        let ghost sm = self.stats;
        let vs = self.optimize_list(values, t);
        let mut ids: Vec<HirSymbolId> = Vec::new();
        push_target_symbols(&ts, &mut ids);
        assert(ids@ =~= target_symbols(ts@));
        let mut k: usize = 0;
        while k < ids.len()
            invariant
                k <= ids@.len(),
                t@ == t0 + forgotten(ids@.subrange(0, k as int)),
                literal_table(t0),
            decreases ids.len() - k,
        {
            t.push((ids[k], None));
            assert(forgotten(ids@.subrange(0, k + 1)) =~= forgotten(ids@.subrange(0, k as int)).push((ids@[k as int], None)));
            assert(t@ =~= t0 + forgotten(ids@.subrange(0, k + 1)));
            k = k + 1;
        }
        assert(ids@.subrange(0, ids@.len() as int) =~= ids@);
        assert(t@.subrange(0, t0.len() as int) =~= t0);
        assert forall|i: int| 0 <= i < t@.len() implies ((#[trigger] t@[i]).1 matches Some(x) ==> is_literal(x)) by {
            if i >= t0.len() {
                assert(t@[i] == forgotten(ids@)[i - t0.len()]);
            }
        }
        proof {
            assert(midpoint(sm));
        }
        Some(HirStatement { kind: HirStatementKind::Assignment { targets: ts, values: vs }, span })
    }

    /// Optimizes an expression statement, dropping it when its value is
    /// unused and it has no effect.
    fn optimize_expression_statement(
        &mut self,
        e: HirExpression,
        span: SourceSpan,
        t: &Vec<(HirSymbolId, Option<HirExpression>)>,
        asg: &Vec<HirSymbolId>,
    ) -> (result: Option<HirStatement>)
        requires
            literal_table(t@),
        ensures
            stmt_opt(
                    (HirStatement { kind: HirStatementKind::Expression(e), span }),
                    t@,
                    asg@,
                    old(self).stats,
                    result,
                    t@,
                    final(self).stats,
                ),
    {
        let x = self.optimize_expression(e, t);
        let ghost sm = self.stats;
        proof {
            assert(midpoint_with(x, sm));
        }
        if expression_is_side_effect_free(&x) {
            self.stats.dead_expressions_removed = self.stats.dead_expressions_removed.saturating_add(1);
            None
        } else {
            Some(HirStatement { kind: HirStatementKind::Expression(x), span })
        }
    }

    /// Optimizes the values of a `return`.
    fn optimize_return(
        &mut self,
        values: Option<Vec<HirExpression>>,
        span: SourceSpan,
        t: &Vec<(HirSymbolId, Option<HirExpression>)>,
        asg: &Vec<HirSymbolId>,
    ) -> (result: Option<HirStatement>)
        requires
            literal_table(t@),
        ensures
            stmt_opt(
                    (HirStatement { kind: HirStatementKind::Return(values), span }),
                    t@,
                    asg@,
                    old(self).stats,
                    result,
                    t@,
                    final(self).stats,
                ),
    {
        match values {
            None => Some(HirStatement { kind: HirStatementKind::Return(None), span }),
            Some(vs) => {
                let ws = self.optimize_list(vs, t);
                Some(HirStatement { kind: HirStatementKind::Return(Some(ws)), span })
            },
        }
    }
}


impl HirOptimizer {
    /// Optimizes a statement with the constants `t`, which it extends by
    /// what it declares or assigns.
    fn optimize_statement(
        &mut self,
        st: HirStatement,
        t: &mut Vec<(HirSymbolId, Option<HirExpression>)>,
        asg: &Vec<HirSymbolId>,
    ) -> (result: Option<HirStatement>)
        requires
            literal_table(old(t)@),
        ensures
            stmt_opt(st, old(t)@, asg@, old(self).stats, result, final(t)@, final(self).stats),
            literal_table(final(t)@),
            extends(old(t)@, final(t)@),
        decreases st, 2nat,
    {
        let ghost whole = st;
        let span = st.span;
        match st.kind {
            HirStatementKind::LocalVariable { variable, initializer } => self.optimize_local(variable, initializer, span, t, asg),
            HirStatementKind::Assignment { targets, values } => self.optimize_assignment(targets, values, span, t, asg),
            HirStatementKind::Expression(e) => {
                assert(t@.subrange(0, t@.len() as int) =~= t@);
                self.optimize_expression_statement(e, span, t, asg)
            },
            HirStatementKind::Return(values) => {
                assert(t@.subrange(0, t@.len() as int) =~= t@);
                self.optimize_return(values, span, t, asg)
            },
            HirStatementKind::Block(ss) => {
                let os = self.optimize_stmts(ss, t, asg);
                assert(t@.subrange(0, t@.len() as int) =~= t@);
                Some(HirStatement { kind: HirStatementKind::Block(os), span })
            },
            HirStatementKind::If { condition, then_block, else_block } => {
                self.optimize_if(condition, then_block, else_block, span, t, asg, Ghost(whole))
            },
            HirStatementKind::While { condition, body } => self.optimize_while(condition, body, span, t, asg, Ghost(whole)),
            HirStatementKind::RepeatUntil { body, condition } => self.optimize_repeat(body, condition, span, t, asg, Ghost(whole)),
            HirStatementKind::ForNumeric { variable, start, end, step, body } => {
                self.optimize_for_numeric(variable, start, end, step, body, span, t, asg, Ghost(whole))
            },
            HirStatementKind::ForGeneric { variables, iterables, body } => {
                self.optimize_for_generic(variables, iterables, body, span, t, asg, Ghost(whole))
            },
            HirStatementKind::Function { function } => {
                let f = self.optimize_function(function);
                assert(t@.subrange(0, t@.len() as int) =~= t@);
                Some(HirStatement { kind: HirStatementKind::Function { function: f }, span })
            },
            HirStatementKind::Break => {
                assert(t@.subrange(0, t@.len() as int) =~= t@);
                Some(HirStatement { kind: HirStatementKind::Break, span })
            },
            HirStatementKind::Continue => {
                assert(t@.subrange(0, t@.len() as int) =~= t@);
                Some(HirStatement { kind: HirStatementKind::Continue, span })
            },
            HirStatementKind::Error => {
                assert(t@.subrange(0, t@.len() as int) =~= t@);
                Some(HirStatement { kind: HirStatementKind::Error, span })
            },
        }
    }

    /// Optimizes a run of statements one after another, threading the
    /// constants through it; statements after a `return`, `break` or
    /// `continue` are removed. The constants are as before afterwards.
    #[verifier::loop_isolation(false)]
    fn optimize_stmts(
        &mut self,
        ss: Vec<HirStatement>,
        t: &mut Vec<(HirSymbolId, Option<HirExpression>)>,
        asg: &Vec<HirSymbolId>,
    ) -> (result: Vec<HirStatement>)
        requires
            literal_table(old(t)@),
        ensures
            stmts_opt(ss@, old(t)@, asg@, old(self).stats, result@, final(self).stats),
            final(t)@ == old(t)@,
        decreases ss, 2nat,
    {
        let ghost orig = ss@;
        let ghost whole = ss;
        let ghost t0 = t@;
        let ghost s0 = self.stats;
        let n0: usize = t.len();
        let mut rest = ss;
        let n: usize = rest.len();
        let mut out: Vec<HirStatement> = Vec::new();
        let mut i: usize = 0;
        assert forall|xs: Seq<HirStatement>, sf: HirOptimizationStats|
            #[trigger] stmts_opt(orig, t0, asg@, s0, xs, sf) implies stmts_opt(orig, t0, asg@, s0, out@ + xs, sf) by {
            assert(out@ + xs =~= xs);
        }
        assert(orig.subrange(0, orig.len() as int) =~= orig);
        assert(t@.subrange(0, n0 as int) =~= t0);
        while rest.len() > 0
            invariant
                i + rest@.len() == n,
                orig.len() == n,
                rest@ == orig.subrange(i as int, n as int),
                orig == whole@,
                n0 == t0.len(),
                t@.len() >= n0,
                t@.subrange(0, n0 as int) =~= t0,
                literal_table(t@),
                forall|xs: Seq<HirStatement>, sf: HirOptimizationStats|
                    #[trigger] stmts_opt(rest@, t@, asg@, self.stats, xs, sf) ==> stmts_opt(orig, t0, asg@, s0, out@ + xs, sf),
            decreases rest@.len(),
        {
            let ghost r0 = rest@;
            let ghost tb = t@;
            let ghost sb = self.stats;
            let ghost ob = out@;
            let st = rest.remove(0);
            proof {
                assert(st == orig[i as int]);
                assert(decreases_to!(whole => st));
                assert(r0[0] == st);
                assert(r0.subrange(1, r0.len() as int) =~= rest@);
            }
            let r = self.optimize_statement(st, t, asg);
            let ghost rg = r;
            let ghost ta = t@;
            let ghost sa = self.stats;
            proof {
                assert(t@.subrange(0, n0 as int) =~= tb.subrange(0, n0 as int));
            }
            match r {
                Some(x) => {
                    if statement_terminates(&x) {
                        let k: usize = rest.len();
                        self.stats.unreachable_statements_removed = self.stats.unreachable_statements_removed.saturating_add(k);
                        proof {
                            lemma_run_stop(r0, tb, asg@, sb, x, ta, sa);
                            assert(self.stats == with_unreachable_n(sa, (r0.len() - 1) as nat));
                            assert(stmts_opt(r0, tb, asg@, sb, seq![x], self.stats));
                        }
                        out.push(x);
                        proof {
                            assert(ob + seq![x] =~= out@);
                        }
                        t.truncate(n0);
                        return out;
                    }
                    out.push(x);
                },
                None => {},
            }
            proof {
                assert(out@ =~= ob + kept(rg));
                assert forall|xs: Seq<HirStatement>, sf: HirOptimizationStats|
                    #[trigger] stmts_opt(rest@, t@, asg@, self.stats, xs, sf) implies stmts_opt(orig, t0, asg@, s0, out@ + xs, sf) by {
                    lemma_run_step(r0, tb, asg@, sb, rg, ta, sa, xs, sf);
                    assert(ob + (kept(rg) + xs) =~= out@ + xs);
                }
            }
            i = i + 1;
        }
        proof {
            assert(stmts_opt(rest@, t@, asg@, self.stats, seq![], self.stats));
            assert(out@ + seq![] =~= out@);
        }
        t.truncate(n0);
        out
    }

    /// Optimizes an `if`; a literal boolean condition turns it into the
    /// block of the branch taken.
    fn optimize_if(
        &mut self,
        condition: HirExpression,
        then_block: Vec<HirStatement>,
        else_block: Option<Vec<HirStatement>>,
        span: SourceSpan,
        t: &mut Vec<(HirSymbolId, Option<HirExpression>)>,
        asg: &Vec<HirSymbolId>,
        Ghost(whole): Ghost<HirStatement>,
    ) -> (result: Option<HirStatement>)
        requires
            literal_table(old(t)@),
            whole == (HirStatement { kind: HirStatementKind::If { condition, then_block, else_block }, span }),
        ensures
            stmt_opt(whole, old(t)@, asg@, old(self).stats, result, final(t)@, final(self).stats),
            final(t)@ == old(t)@,
        decreases whole, 1nat,
    {
        proof {
            assert(decreases_to!(whole => whole.kind));
            assert(decreases_to!(whole.kind => whole.kind->then_block));
            assert(decreases_to!(whole.kind => whole.kind->else_block));
            if else_block is Some {
                assert(decreases_to!(else_block => else_block->0));
            }
        }
        let c = self.optimize_expression(condition, t);
        let ghost sa = self.stats;
        let th = self.optimize_stmts(then_block, t, asg);
        let ghost sb = self.stats;
        let el = match else_block {
            None => None,
            Some(eb) => Some(self.optimize_stmts(eb, t, asg)),
        };
        let ghost sc = self.stats;
        proof {
            assert(midpoint_with(c, sa));
            assert(midpoint_run(th, sb));
            assert(midpoint_else(el, sc));
        }
        let value = match &c.kind {
            HirExpressionKind::Boolean(v) => Some(*v),
            _ => None,
        };
        match value {
            Some(v) => {
                self.stats.control_flow_simplified = self.stats.control_flow_simplified.saturating_add(1);
                let taken = if v {
                    th
                } else {
                    match el {
                        Some(e) => e,
                        None => Vec::new(),
                    }
                };
                Some(HirStatement { kind: HirStatementKind::Block(taken), span })
            },
            None => Some(HirStatement { kind: HirStatementKind::If { condition: c, then_block: th, else_block: el }, span }),
        }
    }

    /// Optimizes a `while`; one whose condition is the literal `false` is
    /// dropped.
    fn optimize_while(
        &mut self,
        condition: HirExpression,
        body: Vec<HirStatement>,
        span: SourceSpan,
        t: &mut Vec<(HirSymbolId, Option<HirExpression>)>,
        asg: &Vec<HirSymbolId>,
        Ghost(whole): Ghost<HirStatement>,
    ) -> (result: Option<HirStatement>)
        requires
            literal_table(old(t)@),
            whole == (HirStatement { kind: HirStatementKind::While { condition, body }, span }),
        ensures
            stmt_opt(whole, old(t)@, asg@, old(self).stats, result, final(t)@, final(self).stats),
            final(t)@ == old(t)@,
        decreases whole, 1nat,
    {
        proof {
            assert(decreases_to!(whole => whole.kind));
            assert(decreases_to!(whole.kind => whole.kind->While_body));
        }
        let c = self.optimize_expression(condition, t);
        let ghost sa = self.stats;
        let b = self.optimize_stmts(body, t, asg);
        let ghost sb = self.stats;
        proof {
            assert(midpoint_with(c, sa));
            assert(midpoint_run(b, sb));
        }
        let never = match &c.kind {
            HirExpressionKind::Boolean(v) => !*v,
            _ => false,
        };
        if never {
            self.stats.control_flow_simplified = self.stats.control_flow_simplified.saturating_add(1);
            None
        } else {
            Some(HirStatement { kind: HirStatementKind::While { condition: c, body: b }, span })
        }
    }

    /// Optimizes a `repeat ... until`.
    fn optimize_repeat(
        &mut self,
        body: Vec<HirStatement>,
        condition: HirExpression,
        span: SourceSpan,
        t: &mut Vec<(HirSymbolId, Option<HirExpression>)>,
        asg: &Vec<HirSymbolId>,
        Ghost(whole): Ghost<HirStatement>,
    ) -> (result: Option<HirStatement>)
        requires
            literal_table(old(t)@),
            whole == (HirStatement { kind: HirStatementKind::RepeatUntil { body, condition }, span }),
        ensures
            stmt_opt(whole, old(t)@, asg@, old(self).stats, result, final(t)@, final(self).stats),
            final(t)@ == old(t)@,
        decreases whole, 1nat,
    {
        proof {
            assert(decreases_to!(whole => whole.kind));
            assert(decreases_to!(whole.kind => whole.kind->RepeatUntil_body));
        }
        let b = self.optimize_stmts(body, t, asg);
        let ghost sm = self.stats;
        let c = self.optimize_expression(condition, t);
        proof {
            assert(midpoint(sm));
        }
        Some(HirStatement { kind: HirStatementKind::RepeatUntil { body: b, condition: c }, span })
    }

    /// Optimizes a numeric `for`.
    fn optimize_for_numeric(
        &mut self,
        variable: HirLocalVariable,
        start: HirExpression,
        end: HirExpression,
        step: Option<HirExpression>,
        body: Vec<HirStatement>,
        span: SourceSpan,
        t: &mut Vec<(HirSymbolId, Option<HirExpression>)>,
        asg: &Vec<HirSymbolId>,
        Ghost(whole): Ghost<HirStatement>,
    ) -> (result: Option<HirStatement>)
        requires
            literal_table(old(t)@),
            whole == (HirStatement { kind: HirStatementKind::ForNumeric { variable, start, end, step, body }, span }),
        ensures
            stmt_opt(whole, old(t)@, asg@, old(self).stats, result, final(t)@, final(self).stats),
            final(t)@ == old(t)@,
        decreases whole, 1nat,
    {
        proof {
            assert(decreases_to!(whole => whole.kind));
            assert(decreases_to!(whole.kind => whole.kind->ForNumeric_body));
        }
        let a = self.optimize_expression(start, t);
        let ghost sa = self.stats;
        let z = self.optimize_expression(end, t);
        let ghost sb = self.stats;
        let st2 = match step {
            None => None,
            Some(x) => Some(self.optimize_expression(x, t)),
        };
        let ghost sc = self.stats;
        let b = self.optimize_stmts(body, t, asg);
        proof {
            assert(midpoint(sa));
            assert(midpoint(sb));
            assert(midpoint(sc));
        }
        Some(HirStatement { kind: HirStatementKind::ForNumeric { variable, start: a, end: z, step: st2, body: b }, span })
    }

    /// Optimizes a generic `for`.
    fn optimize_for_generic(
        &mut self,
        variables: Vec<HirLocalVariable>,
        iterables: Vec<HirExpression>,
        body: Vec<HirStatement>,
        span: SourceSpan,
        t: &mut Vec<(HirSymbolId, Option<HirExpression>)>,
        asg: &Vec<HirSymbolId>,
        Ghost(whole): Ghost<HirStatement>,
    ) -> (result: Option<HirStatement>)
        requires
            literal_table(old(t)@),
            whole == (HirStatement { kind: HirStatementKind::ForGeneric { variables, iterables, body }, span }),
        ensures
            stmt_opt(whole, old(t)@, asg@, old(self).stats, result, final(t)@, final(self).stats),
            final(t)@ == old(t)@,
        decreases whole, 1nat,
    {
        proof {
            assert(decreases_to!(whole => whole.kind));
            assert(decreases_to!(whole.kind => whole.kind->ForGeneric_body));
        }
        let is = self.optimize_list(iterables, t);
        let ghost sm = self.stats;
        let b = self.optimize_stmts(body, t, asg);
        proof {
            assert(midpoint(sm));
        }
        Some(HirStatement { kind: HirStatementKind::ForGeneric { variables, iterables: is, body: b }, span })
    }

    /// Optimizes the body of a function from no known constants and
    /// gathers its local variables and return flag again.
    fn optimize_function(&mut self, f: HirFunction) -> (result: HirFunction)
        ensures
            function_opt(f, old(self).stats, result, final(self).stats),
        decreases f, 2nat,
    {
        let mut asg: Vec<HirSymbolId> = Vec::new();
        collect_assigns_into(&f.body, &mut asg);
        assert(asg@ =~= statements_assign(f.body@));
        let mut t: Vec<(HirSymbolId, Option<HirExpression>)> = Vec::new();
        let HirFunction {
            id,
            symbol_id,
            name,
            parameters,
            local_variables: _,
            body,
            return_type,
            scope_id,
            is_local,
            metadata: _,
            span,
        } = f;
        let b = self.optimize_stmts(body, &mut t, &asg);
        let locals = collect_local_variables(&b);
        let has_return = any_returns(&b);
        HirFunction {
            id,
            symbol_id,
            name,
            parameters,
            local_variables: locals,
            body: b,
            return_type,
            scope_id,
            is_local,
            metadata: HirFunctionMetadata { has_explicit_return: has_return },
            span,
        }
    }
}


impl HirOptimizer {
    /// Optimizes a module: the initializers of its globals, then the
    /// bodies of its functions; the counts start from zero.
    pub fn optimize(&mut self, module: HirModule) -> (result: HirOptimizationResult)
        ensures
            module_opt(module, result.module, result.stats),
            final(self).counts() == result.stats,
    {
        self.stats = HirOptimizationStats {
            constant_folds: 0,
            constants_propagated: 0,
            expressions_simplified: 0,
            dead_expressions_removed: 0,
            control_flow_simplified: 0,
            unreachable_statements_removed: 0,
        };
        let HirModule { name, functions, global_variables, type_aliases, scopes, symbols, metadata, span } = module;
        let empty: Vec<(HirSymbolId, Option<HirExpression>)> = Vec::new();
        let ghost gs = global_variables@;
        let mut grest = global_variables;
        let mut globals: Vec<HirGlobalVariable> = Vec::new();
        let mut i: usize = 0;
        let gn: usize = grest.len();
        while grest.len() > 0
            invariant
                i + grest@.len() == gn,
                gs.len() == gn,
                grest@ == gs.subrange(i as int, gn as int),
                globals@.len() == i,
                empty@ == Seq::<(HirSymbolId, Option<HirExpression>)>::empty(),
                globals_opt(gs.subrange(0, i as int), no_changes(), globals@, self.stats),
            decreases grest@.len(),
        {
            let g = grest.remove(0);
            let ghost g0 = g;
            let ghost sm = self.stats;
            let ghost before = globals@;
            proof {
                assert(g0 == gs[i as int]);
            }
            let HirGlobalVariable { symbol_id, name, var_type, initializer, scope_id, span } = g;
            let init = match initializer {
                None => None,
                Some(x) => Some(self.optimize_expression(x, &empty)),
            };
            let h = HirGlobalVariable { symbol_id, name, var_type, initializer: init, scope_id, span };
            proof {
                assert(global_opt(g0, sm, h, self.stats));
            }
            globals.push(h);
            proof {
                let p = gs.subrange(0, i + 1);
                assert(p.drop_last() =~= gs.subrange(0, i as int));
                assert(globals@.drop_last() =~= before);
                assert(midpoint(sm));
                assert(globals_opt(p, no_changes(), globals@, self.stats));
            }
            i = i + 1;
        }
        assert(gs.subrange(0, gn as int) =~= gs);
        let ghost sg = self.stats;
        let ghost fs = functions@;
        let mut frest = functions;
        let mut optimized: Vec<HirFunction> = Vec::new();
        let mut k: usize = 0;
        let fnum: usize = frest.len();
        while frest.len() > 0
            invariant
                k + frest@.len() == fnum,
                fs.len() == fnum,
                frest@ == fs.subrange(k as int, fnum as int),
                optimized@.len() == k,
                functions_opt(fs.subrange(0, k as int), sg, optimized@, self.stats),
            decreases frest@.len(),
        {
            let f = frest.remove(0);
            let ghost f0 = f;
            let ghost sm = self.stats;
            let ghost before = optimized@;
            proof {
                assert(f0 == fs[k as int]);
            }
            let h = self.optimize_function(f);
            optimized.push(h);
            proof {
                let p = fs.subrange(0, k + 1);
                assert(p.drop_last() =~= fs.subrange(0, k as int));
                assert(optimized@.drop_last() =~= before);
                assert(midpoint(sm));
                assert(functions_opt(p, sg, optimized@, self.stats));
            }
            k = k + 1;
        }
        assert(fs.subrange(0, fnum as int) =~= fs);
        proof {
            assert(midpoint(sg));
        }
        let out = HirModule { name, functions: optimized, global_variables: globals, type_aliases, scopes, symbols, metadata, span };
        HirOptimizationResult { module: out, stats: self.stats }
    }

    /// Optimizes a run of statements with the known constants `constants`
    /// and the symbols `assigned_symbols` that are assigned somewhere, so
    /// never propagated; the constants are as before afterwards.
    pub fn optimize_statements(
        &mut self,
        statements: Vec<HirStatement>,
        constants: &mut Vec<(HirSymbolId, Option<HirExpression>)>,
        assigned_symbols: &Vec<HirSymbolId>,
    ) -> (result: Vec<HirStatement>)
        requires
            literal_table(old(constants)@),
        ensures
            stmts_opt(statements@, old(constants)@, assigned_symbols@, old(self).counts(), result@, final(self).counts()),
            final(constants)@ == old(constants)@,
    {
        self.optimize_stmts(statements, constants, assigned_symbols)
    }
}


impl Default for HirOptimizer {
    fn default() -> (result: Self)
        ensures
            result.counts() == no_changes(),
    {
        HirOptimizer::new()
    }
}

} // verus!
