//! The textual dump of the high-level representation.
use vstd::prelude::*;

use crate::hir::expression::{HirExpression, HirExpressionKind, HirTableField};
use crate::hir::function::{HirFunction, HirParameter};
use crate::hir::module::{HirGlobalVariable, HirModule, HirTypeAlias};
use crate::hir::statement::{HirLocalVariable, HirStatement, HirStatementKind};
use crate::hir::symbol::{HirScope, HirSymbol, HirSymbolKind};
use crate::hir::types::{HirBinaryOperator, HirBuiltinFunction, HirType, HirUnaryOperator};
use crate::text::{decimal, push_char, push_decimal, push_repeat, push_str, repeat_char};

verus! {

/// Dumps modules, functions, statements and expressions, indenting nested
/// parts by two spaces.
pub struct HirPrinter {
    indent: usize,
}

/// A type as `Debug` writes it.
pub open spec fn type_debug(t: HirType) -> Seq<char> {
    match t {
        HirType::Nil => "Nil"@,
        HirType::Boolean => "Boolean"@,
        HirType::Integer => "Integer"@,
        HirType::Number => "Number"@,
        HirType::String => "String"@,
        HirType::Table => "Table"@,
        HirType::Function => "Function"@,
        HirType::Thread => "Thread"@,
        HirType::Userdata => "Userdata"@,
        HirType::Any => "Any"@,
        HirType::Unknown => "Unknown"@,
    }
}

/// An optional type as `Debug` writes it.
pub open spec fn optional_type_debug(t: Option<HirType>) -> Seq<char> {
    match t {
        Some(t) => "Some("@ + type_debug(t) + ")"@,
        None => "None"@,
    }
}

/// A symbol kind as `Debug` writes it.
pub open spec fn symbol_kind_debug(k: HirSymbolKind) -> Seq<char> {
    match k {
        HirSymbolKind::BuiltinFunction => "BuiltinFunction"@,
        HirSymbolKind::Constant => "Constant"@,
        HirSymbolKind::Function => "Function"@,
        HirSymbolKind::Global => "Global"@,
        HirSymbolKind::Local => "Local"@,
        HirSymbolKind::Module => "Module"@,
        HirSymbolKind::NativeFunction => "NativeFunction"@,
        HirSymbolKind::Parameter => "Parameter"@,
        HirSymbolKind::Type => "Type"@,
    }
}

/// A built-in function as `Debug` writes it.
pub open spec fn builtin_debug(f: HirBuiltinFunction) -> Seq<char> {
    match f {
        HirBuiltinFunction::Print => "Print"@,
        HirBuiltinFunction::Type => "Type"@,
        HirBuiltinFunction::ToNumber => "ToNumber"@,
        HirBuiltinFunction::ToString => "ToString"@,
        HirBuiltinFunction::Error => "Error"@,
        HirBuiltinFunction::Pairs => "Pairs"@,
        HirBuiltinFunction::Ipairs => "Ipairs"@,
        HirBuiltinFunction::Require => "Require"@,
    }
}

/// The token of a prefix operator.
pub open spec fn unary_text(op: HirUnaryOperator) -> Seq<char> {
    match op {
        HirUnaryOperator::Negate => "-"@,
        HirUnaryOperator::Not => "not"@,
        HirUnaryOperator::Length => "#"@,
        HirUnaryOperator::BitwiseNot => "~"@,
    }
}

/// The token of an infix operator.
pub open spec fn binary_text(op: HirBinaryOperator) -> Seq<char> {
    match op {
        HirBinaryOperator::Add => "+"@,
        HirBinaryOperator::Subtract => "-"@,
        HirBinaryOperator::Multiply => "*"@,
        HirBinaryOperator::Divide => "/"@,
        HirBinaryOperator::FloorDivide => "//"@,
        HirBinaryOperator::Modulo => "%"@,
        HirBinaryOperator::Exponent => "^"@,
        HirBinaryOperator::Equal => "=="@,
        HirBinaryOperator::NotEqual => "~="@,
        HirBinaryOperator::LessThan => "<"@,
        HirBinaryOperator::LessEqual => "<="@,
        HirBinaryOperator::GreaterThan => ">"@,
        HirBinaryOperator::GreaterEqual => ">="@,
        HirBinaryOperator::And => "and"@,
        HirBinaryOperator::Or => "or"@,
        HirBinaryOperator::Concatenate => ".."@,
        HirBinaryOperator::BitwiseAnd => "&"@,
        HirBinaryOperator::BitwiseOr => "|"@,
        HirBinaryOperator::BitwiseXor => "~"@,
        HirBinaryOperator::BitwiseShiftLeft => "<<"@,
        HirBinaryOperator::BitwiseShiftRight => ">>"@,
    }
}

/// The symbol and type an expression carries: `#symbol:Type`, `#symbol`,
/// `:Type`, or nothing.
pub open spec fn metadata_text(e: HirExpression) -> Seq<char> {
    match (e.symbol_id, e.expr_type) {
        (Some(s), Some(t)) => "#"@ + decimal(s.0 as nat) + ":"@ + type_debug(t),
        (Some(s), None) => "#"@ + decimal(s.0 as nat),
        (None, Some(t)) => ":"@ + type_debug(t),
        (None, None) => seq![],
    }
}

/// How an expression is shown. A number shows the text it was written with.
pub open spec fn expr_text(e: HirExpression) -> Seq<char>
    decreases e,
{
    match e.kind {
        HirExpressionKind::Nil => "nil"@,
        HirExpressionKind::Boolean(b) => if b {
            "true"@
        } else {
            "false"@
        },
        HirExpressionKind::Number(t) => t@,
        HirExpressionKind::String(s) => "\""@ + s@ + "\""@,
        HirExpressionKind::LocalVariable(id) => "local_"@ + decimal(id.0 as nat) + metadata_text(e),
        HirExpressionKind::GlobalVariable(name) => name@ + metadata_text(e),
        HirExpressionKind::Unary { operator, operand } => unary_text(operator) + "("@ + expr_text(*operand) + ")"@,
        HirExpressionKind::Binary { left, operator, right } => "("@ + expr_text(*left) + " "@ + binary_text(operator) + " "@
            + expr_text(*right) + ")"@,
        HirExpressionKind::TableConstructor(fields) => "{"@ + fields_text(fields@) + "}"@,
        HirExpressionKind::Index { object, index } => expr_text(*object) + "["@ + expr_text(*index) + "]"@,
        HirExpressionKind::FieldAccess { object, field } => expr_text(*object) + "."@ + field@,
        HirExpressionKind::FunctionCall { callee, arguments } => expr_text(*callee) + "("@ + exprs_text(arguments@) + ")"@,
        HirExpressionKind::MethodCall { receiver, method, arguments } => expr_text(*receiver) + ":"@ + method@ + "("@
            + exprs_text(arguments@) + ")"@,
        HirExpressionKind::ClosurePlaceholder => "<closure>"@,
        HirExpressionKind::BuiltinCall { function, arguments } => "<builtin "@ + builtin_debug(function) + ">("@ + exprs_text(
            arguments@,
        ) + ")"@ + metadata_text(e),
        HirExpressionKind::Error => "<error>"@,
    }
}

/// Expressions shown and separated by `, `.
pub open spec fn exprs_text(es: Seq<HirExpression>) -> Seq<char>
    decreases es,
{
    if es.len() == 0 {
        seq![]
    } else if es.len() == 1 {
        expr_text(es[0])
    } else {
        exprs_text(es.drop_last()) + ", "@ + expr_text(es.last())
    }
}

/// How a table field is shown.
pub open spec fn field_text(f: HirTableField) -> Seq<char>
    decreases f,
{
    match f {
        HirTableField::Named { key, value } => key@ + " = "@ + expr_text(value),
        HirTableField::Indexed { key, value } => "["@ + expr_text(key) + "] = "@ + expr_text(value),
        HirTableField::Expression(e) => expr_text(e),
    }
}

/// Table fields shown and separated by `, `.
pub open spec fn fields_text(fs: Seq<HirTableField>) -> Seq<char>
    decreases fs,
{
    if fs.len() == 0 {
        seq![]
    } else if fs.len() == 1 {
        field_text(fs[0])
    } else {
        fields_text(fs.drop_last()) + ", "@ + field_text(fs.last())
    }
}

/// `indent` spaces.
pub open spec fn pad(indent: usize) -> Seq<char> {
    repeat_char(' ', indent as nat)
}

/// The next indentation: two more spaces (as many as fit in a `usize`).
pub open spec fn deeper(indent: usize) -> usize {
    indent.saturating_add(2)
}

/// The names of variables separated by `, `.
pub open spec fn names_text(vs: Seq<HirLocalVariable>) -> Seq<char>
    decreases vs.len(),
{
    if vs.len() == 0 {
        seq![]
    } else if vs.len() == 1 {
        vs[0].name@
    } else {
        names_text(vs.drop_last()) + ", "@ + vs.last().name@
    }
}

/// How a `local` statement is shown (after its indentation).
pub open spec fn local_statement_text(variable: HirLocalVariable, initializer: Option<HirExpression>) -> Seq<char> {
    "Local Variable: "@ + variable.name@ + " id=#"@ + decimal(variable.id.0 as nat) + " symbol=#"@ + decimal(
        variable.symbol_id.0 as nat,
    ) + " type="@ + optional_type_debug(variable.var_type) + match initializer {
        Some(e) => " = "@ + expr_text(e),
        None => seq![],
    } + "\n"@
}

/// How a `return` statement is shown (after its indentation).
pub open spec fn return_text(es: Option<Vec<HirExpression>>) -> Seq<char> {
    "Return"@ + match es {
        Some(v) => " "@ + exprs_text(v@),
        None => seq![],
    } + "\n"@
}

/// How an `if` statement is shown (after its indentation), given how its
/// branches are shown.
pub open spec fn if_text(condition: HirExpression, then_text: Seq<char>, else_text: Option<Seq<char>>, indent: usize) -> Seq<char> {
    "If "@ + expr_text(condition) + "\n"@ + pad(deeper(indent)) + "Then:\n"@ + then_text + match else_text {
        Some(e) => pad(deeper(indent)) + "Else:\n"@ + e,
        None => seq![],
    }
}

/// How a numeric `for` loop's header is shown (after its indentation).
pub open spec fn for_numeric_head(variable: HirLocalVariable, start: HirExpression, end: HirExpression, step: Option<HirExpression>) -> Seq<char> {
    "For "@ + variable.name@ + " = "@ + expr_text(start) + " to "@ + expr_text(end) + match step {
        Some(e) => " step "@ + expr_text(e),
        None => seq![],
    } + "\n"@
}

/// How a statement is shown at indentation `indent`, nested statements
/// further in.
pub open spec fn statement_text(s: HirStatement, indent: usize) -> Seq<char>
    decreases s,
{
    pad(indent) + match s.kind {
        HirStatementKind::LocalVariable { variable, initializer } => local_statement_text(variable, initializer),
        HirStatementKind::Assignment { targets, values } => "Assignment: "@ + exprs_text(targets@) + " = "@ + exprs_text(values@) + "\n"@,
        HirStatementKind::Expression(e) => expr_text(e) + "\n"@,
        HirStatementKind::Return(es) => return_text(es),
        HirStatementKind::Block(statements) => "Block\n"@ + statements_text(statements@, deeper(indent)),
        HirStatementKind::If { condition, then_block, else_block } => if_text(
            condition,
            statements_text(then_block@, deeper(deeper(indent))),
            match else_block {
                Some(e) => Some(statements_text(e@, deeper(deeper(indent)))),
                None => None,
            },
            indent,
        ),
        HirStatementKind::While { condition, body } => "While "@ + expr_text(condition) + "\n"@ + statements_text(body@, deeper(indent)),
        HirStatementKind::RepeatUntil { body, condition } => "Repeat\n"@ + statements_text(body@, deeper(indent)) + pad(indent)
            + "Until "@ + expr_text(condition) + "\n"@,
        HirStatementKind::ForNumeric { variable, start, end, step, body } => for_numeric_head(variable, start, end, step)
            + statements_text(body@, deeper(indent)),
        HirStatementKind::ForGeneric { variables, iterables, body } => "For "@ + names_text(variables@) + " in "@ + exprs_text(
            iterables@,
        ) + "\n"@ + statements_text(body@, deeper(indent)),
        HirStatementKind::Break => "Break\n"@,
        HirStatementKind::Continue => "Continue\n"@,
        HirStatementKind::Function { function } => function_text(function, indent),
        HirStatementKind::Error => "<Error>\n"@,
    }
}

/// Statements shown one after another at indentation `indent`.
pub open spec fn statements_text(ss: Seq<HirStatement>, indent: usize) -> Seq<char>
    decreases ss,
{
    if ss.len() == 0 {
        seq![]
    } else {
        statements_text(ss.drop_last(), indent) + statement_text(ss.last(), indent)
    }
}

/// How a parameter is shown: `name#symbol`, with `: Type` when typed.
pub open spec fn parameter_text(p: HirParameter) -> Seq<char> {
    p.name@ + "#"@ + decimal(p.symbol_id.0 as nat) + match p.param_type {
        Some(t) => ": "@ + type_debug(t),
        None => seq![],
    }
}

/// Parameters shown and separated by `, `.
pub open spec fn parameters_text(ps: Seq<HirParameter>) -> Seq<char>
    decreases ps.len(),
{
    if ps.len() == 0 {
        seq![]
    } else if ps.len() == 1 {
        parameter_text(ps[0])
    } else {
        parameters_text(ps.drop_last()) + ", "@ + parameter_text(ps.last())
    }
}

/// How a local variable is listed at indentation `indent`.
pub open spec fn local_line(v: HirLocalVariable, indent: usize) -> Seq<char> {
    pad(indent) + v.name@ + " id=#"@ + decimal(v.id.0 as nat) + " symbol=#"@ + decimal(v.symbol_id.0 as nat) + " scope=#"@
        + decimal(v.scope_id.0 as nat) + " type="@ + optional_type_debug(v.var_type) + "\n"@
}

/// Local variables listed one after another.
pub open spec fn locals_text(vs: Seq<HirLocalVariable>, indent: usize) -> Seq<char>
    decreases vs.len(),
{
    if vs.len() == 0 {
        seq![]
    } else {
        locals_text(vs.drop_last(), indent) + local_line(vs.last(), indent)
    }
}

/// The parameter list of a function's first line: nothing without
/// parameters.
pub open spec fn function_params(f: HirFunction) -> Seq<char> {
    if f.parameters@.len() > 0 {
        "("@ + parameters_text(f.parameters@) + ")"@
    } else {
        seq![]
    }
}

/// The result type of a function's first line: nothing without one.
pub open spec fn function_returns(f: HirFunction) -> Seq<char> {
    match f.return_type {
        Some(t) => " -> "@ + type_debug(t),
        None => seq![],
    }
}

/// The first line of a function's dump (after its indentation).
pub open spec fn function_head(f: HirFunction) -> Seq<char> {
    "Function '"@ + f.name@ + "' id=#"@ + decimal(f.id.0 as nat) + " symbol=#"@ + decimal(f.symbol_id.0 as nat) + " scope=#"@
        + decimal(f.scope_id.0 as nat) + function_params(f) + function_returns(f) + "\n"@
}

/// The locals section of a function's dump: nothing without locals.
pub open spec fn function_locals(f: HirFunction, indent: usize) -> Seq<char> {
    if f.local_variables@.len() > 0 {
        pad(deeper(indent)) + "Locals:\n"@ + locals_text(f.local_variables@, deeper(deeper(indent)))
    } else {
        seq![]
    }
}

/// How a function is shown at indentation `indent`: its header, its locals
/// and its body.
pub open spec fn function_text(f: HirFunction, indent: usize) -> Seq<char>
    decreases f,
{
    pad(indent) + function_head(f) + function_locals(f, indent) + statements_text(f.body@, deeper(indent))
}

/// The decimal numbers separated by `, `.
pub open spec fn numbers_text(ns: Seq<usize>) -> Seq<char>
    decreases ns.len(),
{
    if ns.len() == 0 {
        seq![]
    } else if ns.len() == 1 {
        decimal(ns[0] as nat)
    } else {
        numbers_text(ns.drop_last()) + ", "@ + decimal(ns.last() as nat)
    }
}

/// How a scope is listed at indentation `indent`, with its parent and
/// symbols as `Debug` writes them.
pub open spec fn scope_line(s: HirScope, indent: usize) -> Seq<char> {
    pad(indent) + "Scope #"@ + decimal(s.id.0 as nat) + " parent="@ + match s.parent {
        Some(p) => "Some("@ + decimal(p.0 as nat) + ")"@,
        None => "None"@,
    } + " symbols=["@ + numbers_text(s.symbols@.map_values(|id: crate::hir::ids::HirSymbolId| id.0)) + "]\n"@
}

/// How a symbol is listed at indentation `indent`.
pub open spec fn symbol_line(s: HirSymbol, indent: usize) -> Seq<char> {
    pad(indent) + "#"@ + decimal(s.id.0 as nat) + " "@ + symbol_kind_debug(s.kind) + " '"@ + s.name@ + "' scope=#"@ + decimal(
        s.scope_id.0 as nat,
    ) + " type="@ + optional_type_debug(s.value_type) + "\n"@
}

/// How a global variable is shown at indentation `indent`.
pub open spec fn global_text(g: HirGlobalVariable, indent: usize) -> Seq<char> {
    pad(indent) + "Global Variable: "@ + g.name@ + " symbol=#"@ + decimal(g.symbol_id.0 as nat) + " scope=#"@ + decimal(
        g.scope_id.0 as nat,
    ) + " type="@ + optional_type_debug(g.var_type) + "\n"@ + match g.initializer {
        Some(e) => pad(deeper(indent)) + "Initializer: "@ + expr_text(e) + "\n"@,
        None => seq![],
    }
}

/// How a type alias is shown at indentation `indent`.
pub open spec fn alias_line(a: HirTypeAlias, indent: usize) -> Seq<char> {
    pad(indent) + "Type Alias: "@ + a.name@ + " symbol=#"@ + decimal(a.symbol_id.0 as nat) + " scope=#"@ + decimal(
        a.scope_id.0 as nat,
    ) + " alias="@ + type_debug(a.alias) + "\n"@
}

/// Scopes listed one after another.
pub open spec fn scopes_text(items: Seq<HirScope>, indent: usize) -> Seq<char>
    decreases items.len(),
{
    if items.len() == 0 {
        seq![]
    } else {
        scopes_text(items.drop_last(), indent) + scope_line(items.last(), indent)
    }
}

/// Symbols listed one after another.
pub open spec fn symbols_text(items: Seq<HirSymbol>, indent: usize) -> Seq<char>
    decreases items.len(),
{
    if items.len() == 0 {
        seq![]
    } else {
        symbols_text(items.drop_last(), indent) + symbol_line(items.last(), indent)
    }
}

/// Global variables shown one after another.
pub open spec fn globals_text(items: Seq<HirGlobalVariable>, indent: usize) -> Seq<char>
    decreases items.len(),
{
    if items.len() == 0 {
        seq![]
    } else {
        globals_text(items.drop_last(), indent) + global_text(items.last(), indent)
    }
}

/// Type aliases listed one after another.
pub open spec fn aliases_text(items: Seq<HirTypeAlias>, indent: usize) -> Seq<char>
    decreases items.len(),
{
    if items.len() == 0 {
        seq![]
    } else {
        aliases_text(items.drop_last(), indent) + alias_line(items.last(), indent)
    }
}

/// Functions shown one after another.
pub open spec fn functions_text(items: Seq<HirFunction>, indent: usize) -> Seq<char>
    decreases items.len(),
{
    if items.len() == 0 {
        seq![]
    } else {
        functions_text(items.drop_last(), indent) + function_text(items.last(), indent)
    }
}

/// A titled section of a module dump: nothing when it has no entries.
pub open spec fn section(title: Seq<char>, entries: nat, body: Seq<char>, indent: usize) -> Seq<char> {
    if entries == 0 {
        seq![]
    } else {
        pad(indent) + title + body
    }
}

/// How a module is shown by a printer at indentation `indent`: its name,
/// then its scopes, symbols, global variables, types and functions, each
/// section only when it has entries.
pub open spec fn module_text(m: HirModule, indent: usize) -> Seq<char> {
    let inner = deeper(indent);
    let items = deeper(inner);
    "Module '"@ + m.name@ + "'\n"@ + section("Scopes:\n"@, m.scopes@.len(), scopes_text(m.scopes@, items), inner) + section(
        "Symbols:\n"@,
        m.symbols@.len(),
        symbols_text(m.symbols@, items),
        inner,
    ) + section("Global Variables:\n"@, m.global_variables@.len(), globals_text(m.global_variables@, items), inner)
        + section("Types:\n"@, m.type_aliases@.len(), aliases_text(m.type_aliases@, items), inner) + section(
        "Functions:\n"@,
        m.functions@.len(),
        functions_text(m.functions@, items),
        inner,
    )
}

pub(crate) fn type_debug_str(t: HirType) -> (result: &'static str)
    ensures
        result@ == type_debug(t),
{
    match t {
        HirType::Nil => "Nil",
        HirType::Boolean => "Boolean",
        HirType::Integer => "Integer",
        HirType::Number => "Number",
        HirType::String => "String",
        HirType::Table => "Table",
        HirType::Function => "Function",
        HirType::Thread => "Thread",
        HirType::Userdata => "Userdata",
        HirType::Any => "Any",
        HirType::Unknown => "Unknown",
    }
}

fn push_optional_type(out: &mut String, t: Option<HirType>)
    ensures
        final(out)@ == old(out)@ + optional_type_debug(t),
{
    match t {
        Some(t) => {
            push_str(out, "Some(");
            push_str(out, type_debug_str(t));
            push_str(out, ")");
        },
        None => push_str(out, "None"),
    }
    assert(final(out)@ =~= old(out)@ + optional_type_debug(t));
}

fn symbol_kind_str(k: HirSymbolKind) -> (result: &'static str)
    ensures
        result@ == symbol_kind_debug(k),
{
    match k {
        HirSymbolKind::BuiltinFunction => "BuiltinFunction",
        HirSymbolKind::Constant => "Constant",
        HirSymbolKind::Function => "Function",
        HirSymbolKind::Global => "Global",
        HirSymbolKind::Local => "Local",
        HirSymbolKind::Module => "Module",
        HirSymbolKind::NativeFunction => "NativeFunction",
        HirSymbolKind::Parameter => "Parameter",
        HirSymbolKind::Type => "Type",
    }
}

fn builtin_str(f: HirBuiltinFunction) -> (result: &'static str)
    ensures
        result@ == builtin_debug(f),
{
    match f {
        HirBuiltinFunction::Print => "Print",
        HirBuiltinFunction::Type => "Type",
        HirBuiltinFunction::ToNumber => "ToNumber",
        HirBuiltinFunction::ToString => "ToString",
        HirBuiltinFunction::Error => "Error",
        HirBuiltinFunction::Pairs => "Pairs",
        HirBuiltinFunction::Ipairs => "Ipairs",
        HirBuiltinFunction::Require => "Require",
    }
}

fn unary_str(op: HirUnaryOperator) -> (result: &'static str)
    ensures
        result@ == unary_text(op),
{
    match op {
        HirUnaryOperator::Negate => "-",
        HirUnaryOperator::Not => "not",
        HirUnaryOperator::Length => "#",
        HirUnaryOperator::BitwiseNot => "~",
    }
}

fn binary_str(op: HirBinaryOperator) -> (result: &'static str)
    ensures
        result@ == binary_text(op),
{
    match op {
        HirBinaryOperator::Add => "+",
        HirBinaryOperator::Subtract => "-",
        HirBinaryOperator::Multiply => "*",
        HirBinaryOperator::Divide => "/",
        HirBinaryOperator::FloorDivide => "//",
        HirBinaryOperator::Modulo => "%",
        HirBinaryOperator::Exponent => "^",
        HirBinaryOperator::Equal => "==",
        HirBinaryOperator::NotEqual => "~=",
        HirBinaryOperator::LessThan => "<",
        HirBinaryOperator::LessEqual => "<=",
        HirBinaryOperator::GreaterThan => ">",
        HirBinaryOperator::GreaterEqual => ">=",
        HirBinaryOperator::And => "and",
        HirBinaryOperator::Or => "or",
        HirBinaryOperator::Concatenate => "..",
        HirBinaryOperator::BitwiseAnd => "&",
        HirBinaryOperator::BitwiseOr => "|",
        HirBinaryOperator::BitwiseXor => "~",
        HirBinaryOperator::BitwiseShiftLeft => "<<",
        HirBinaryOperator::BitwiseShiftRight => ">>",
    }
}

fn push_metadata(out: &mut String, e: &HirExpression)
    ensures
        final(out)@ == old(out)@ + metadata_text(*e),
{
    match (e.symbol_id, e.expr_type) {
        (Some(s), Some(t)) => {
            push_str(out, "#");
            push_decimal(out, s.0);
            push_str(out, ":");
            push_str(out, type_debug_str(t));
        },
        (Some(s), None) => {
            push_str(out, "#");
            push_decimal(out, s.0);
        },
        (None, Some(t)) => {
            push_str(out, ":");
            push_str(out, type_debug_str(t));
        },
        (None, None) => {},
    }
    assert(final(out)@ =~= old(out)@ + metadata_text(*e));
}

/// Appends how an expression is shown.
fn push_expr(out: &mut String, e: &HirExpression)
    ensures
        final(out)@ == old(out)@ + expr_text(*e),
    decreases e,
{
    match &e.kind {
        HirExpressionKind::Nil => push_str(out, "nil"),
        HirExpressionKind::Boolean(b) => push_str(out, if *b { "true" } else { "false" }),
        HirExpressionKind::Number(t) => push_str(out, t.as_str()),
        HirExpressionKind::String(text) => {
            push_str(out, "\"");
            push_str(out, text.as_str());
            push_str(out, "\"");
        },
        HirExpressionKind::LocalVariable(id) => {
            push_str(out, "local_");
            push_decimal(out, id.0);
            push_metadata(out, e);
        },
        HirExpressionKind::GlobalVariable(name) => {
            push_str(out, name.as_str());
            push_metadata(out, e);
        },
        HirExpressionKind::Unary { operator, operand } => {
            push_str(out, unary_str(*operator));
            push_str(out, "(");
            push_expr(out, operand);
            push_str(out, ")");
        },
        HirExpressionKind::Binary { left, operator, right } => {
            push_str(out, "(");
            push_expr(out, left);
            push_str(out, " ");
            push_str(out, binary_str(*operator));
            push_str(out, " ");
            push_expr(out, right);
            push_str(out, ")");
        },
        HirExpressionKind::TableConstructor(fields) => {
            push_str(out, "{");
            push_fields(out, fields);
            push_str(out, "}");
        },
        HirExpressionKind::Index { object, index } => {
            push_expr(out, object);
            push_str(out, "[");
            push_expr(out, index);
            push_str(out, "]");
        },
        HirExpressionKind::FieldAccess { object, field } => {
            push_expr(out, object);
            push_str(out, ".");
            push_str(out, field.as_str());
        },
        HirExpressionKind::FunctionCall { callee, arguments } => {
            push_expr(out, callee);
            push_str(out, "(");
            push_exprs(out, arguments);
            push_str(out, ")");
        },
        HirExpressionKind::MethodCall { receiver, method, arguments } => {
            push_expr(out, receiver);
            push_str(out, ":");
            push_str(out, method.as_str());
            push_str(out, "(");
            push_exprs(out, arguments);
            push_str(out, ")");
        },
        HirExpressionKind::ClosurePlaceholder => push_str(out, "<closure>"),
        HirExpressionKind::BuiltinCall { function, arguments } => {
            push_str(out, "<builtin ");
            push_str(out, builtin_str(*function));
            push_str(out, ">(");
            push_exprs(out, arguments);
            push_str(out, ")");
            push_metadata(out, e);
        },
        HirExpressionKind::Error => push_str(out, "<error>"),
    }
    assert(final(out)@ =~= old(out)@ + expr_text(*e));
}

/// Appends expressions separated by `, `.
fn push_exprs(out: &mut String, es: &Vec<HirExpression>)
    ensures
        final(out)@ == old(out)@ + exprs_text(es@),
    decreases es,
{
    let ghost start = out@;
    let mut i: usize = 0;
    while i < es.len()
        invariant
            i <= es@.len(),
            out@ == start + exprs_text(es@.subrange(0, i as int)),
        decreases es.len() - i,
    {
        if i > 0 {
            push_str(out, ", ");
        }
        push_expr(out, &es[i]);
        proof {
            let run = es@.subrange(0, i + 1);
            assert(run.drop_last() =~= es@.subrange(0, i as int));
            if i == 0 {
                assert(exprs_text(es@.subrange(0, 0)) =~= Seq::<char>::empty());
            }
            assert(out@ =~= start + exprs_text(run));
        }
        i = i + 1;
    }
    assert(es@.subrange(0, es@.len() as int) =~= es@);
}

/// Appends table fields separated by `, `.
fn push_fields(out: &mut String, fs: &Vec<HirTableField>)
    ensures
        final(out)@ == old(out)@ + fields_text(fs@),
    decreases fs,
{
    let ghost start = out@;
    let mut i: usize = 0;
    while i < fs.len()
        invariant
            i <= fs@.len(),
            out@ == start + fields_text(fs@.subrange(0, i as int)),
        decreases fs.len() - i,
    {
        if i > 0 {
            push_str(out, ", ");
        }
        let ghost before = out@;
        proof {
            assert(decreases_to!(fs => fs[i as int]));
        }
        match &fs[i] {
            HirTableField::Named { key, value } => {
                push_str(out, key.as_str());
                push_str(out, " = ");
                push_expr(out, value);
            },
            HirTableField::Indexed { key, value } => {
                push_str(out, "[");
                push_expr(out, key);
                push_str(out, "] = ");
                push_expr(out, value);
            },
            HirTableField::Expression(e) => push_expr(out, e),
        }
        proof {
            assert(out@ =~= before + field_text(fs@[i as int]));
            let run = fs@.subrange(0, i + 1);
            assert(run.drop_last() =~= fs@.subrange(0, i as int));
            if i == 0 {
                assert(fields_text(fs@.subrange(0, 0)) =~= Seq::<char>::empty());
            }
            assert(out@ =~= start + fields_text(run));
        }
        i = i + 1;
    }
    assert(fs@.subrange(0, fs@.len() as int) =~= fs@);
}

fn push_pad(out: &mut String, indent: usize)
    ensures
        final(out)@ == old(out)@ + pad(indent),
{
    push_repeat(out, ' ', indent);
}

/// Appends the names of variables separated by `, `.
fn push_names(out: &mut String, vs: &Vec<HirLocalVariable>)
    ensures
        final(out)@ == old(out)@ + names_text(vs@),
{
    let ghost start = out@;
    let mut i: usize = 0;
    while i < vs.len()
        invariant
            i <= vs@.len(),
            out@ == start + names_text(vs@.subrange(0, i as int)),
        decreases vs.len() - i,
    {
        if i > 0 {
            push_str(out, ", ");
        }
        push_str(out, vs[i].name.as_str());
        proof {
            let run = vs@.subrange(0, i + 1);
            assert(run.drop_last() =~= vs@.subrange(0, i as int));
            if i == 0 {
                assert(names_text(vs@.subrange(0, 0)) =~= Seq::<char>::empty());
            }
            assert(out@ =~= start + names_text(run));
        }
        i = i + 1;
    }
    assert(vs@.subrange(0, vs@.len() as int) =~= vs@);
}

fn push_local_statement(out: &mut String, variable: &HirLocalVariable, initializer: &Option<HirExpression>)
    ensures
        final(out)@ == old(out)@ + local_statement_text(*variable, *initializer),
{
    push_str(out, "Local Variable: ");
    push_str(out, variable.name.as_str());
    push_str(out, " id=#");
    push_decimal(out, variable.id.0);
    push_str(out, " symbol=#");
    push_decimal(out, variable.symbol_id.0);
    push_str(out, " type=");
    push_optional_type(out, variable.var_type);
    if let Some(init) = initializer {
        push_str(out, " = ");
        push_expr(out, init);
    }
    push_str(out, "\n");
    assert(final(out)@ =~= old(out)@ + local_statement_text(*variable, *initializer));
}

fn push_return(out: &mut String, es: &Option<Vec<HirExpression>>)
    ensures
        final(out)@ == old(out)@ + return_text(*es),
{
    push_str(out, "Return");
    if let Some(v) = es {
        push_str(out, " ");
        push_exprs(out, v);
    }
    push_str(out, "\n");
    assert(final(out)@ =~= old(out)@ + return_text(*es));
}

fn push_for_numeric_head(out: &mut String, variable: &HirLocalVariable, start: &HirExpression, end: &HirExpression, step: &Option<HirExpression>)
    ensures
        final(out)@ == old(out)@ + for_numeric_head(*variable, *start, *end, *step),
{
    push_str(out, "For ");
    push_str(out, variable.name.as_str());
    push_str(out, " = ");
    push_expr(out, start);
    push_str(out, " to ");
    push_expr(out, end);
    if let Some(e) = step {
        push_str(out, " step ");
        push_expr(out, e);
    }
    push_str(out, "\n");
    assert(final(out)@ =~= old(out)@ + for_numeric_head(*variable, *start, *end, *step));
}

fn push_if(out: &mut String, st: &HirStatement, indent: usize)
    requires
        st.kind is If,
    ensures
        final(out)@ == old(out)@ + match st.kind {
            HirStatementKind::If { condition, then_block, else_block } => if_text(
                condition,
                statements_text(then_block@, deeper(deeper(indent))),
                match else_block {
                    Some(e) => Some(statements_text(e@, deeper(deeper(indent)))),
                    None => None,
                },
                indent,
            ),
            _ => seq![],
        },
    decreases st, 0nat,
{
    if let HirStatementKind::If { condition, then_block, else_block } = &st.kind {
        let inner = indent.saturating_add(2);
        push_str(out, "If ");
        push_expr(out, condition);
        push_str(out, "\n");
        push_pad(out, inner);
        push_str(out, "Then:\n");
        push_statements(out, then_block, inner.saturating_add(2));
        let ghost mid = out@;
        if let Some(e) = else_block {
            push_pad(out, inner);
            push_str(out, "Else:\n");
            push_statements(out, e, inner.saturating_add(2));
        }
        assert(out@ =~= old(out)@ + if_text(
            *condition,
            statements_text(then_block@, deeper(deeper(indent))),
            match else_block {
                Some(e) => Some(statements_text(e@, deeper(deeper(indent)))),
                None => None,
            },
            indent,
        ));
    }
}

/// Appends how a statement is shown at indentation `indent`.
#[verifier::spinoff_prover]
fn push_statement(out: &mut String, st: &HirStatement, indent: usize)
    ensures
        final(out)@ == old(out)@ + statement_text(*st, indent),
    decreases st, 1nat,
{
    push_pad(out, indent);
    let ghost head = out@;
    let inner = indent.saturating_add(2);
    match &st.kind {
        HirStatementKind::LocalVariable { variable, initializer } => push_local_statement(out, variable, initializer),
        HirStatementKind::Assignment { targets, values } => {
            push_str(out, "Assignment: ");
            push_exprs(out, targets);
            push_str(out, " = ");
            push_exprs(out, values);
            push_str(out, "\n");
        },
        HirStatementKind::Expression(e) => {
            push_expr(out, e);
            push_str(out, "\n");
        },
        HirStatementKind::Return(es) => push_return(out, es),
        HirStatementKind::Block(statements) => {
            push_str(out, "Block\n");
            push_statements(out, statements, inner);
        },
        HirStatementKind::If { .. } => push_if(out, st, indent),
        HirStatementKind::While { condition, body } => {
            push_str(out, "While ");
            push_expr(out, condition);
            push_str(out, "\n");
            push_statements(out, body, inner);
        },
        HirStatementKind::RepeatUntil { body, condition } => {
            push_str(out, "Repeat\n");
            push_statements(out, body, inner);
            push_pad(out, indent);
            push_str(out, "Until ");
            push_expr(out, condition);
            push_str(out, "\n");
        },
        HirStatementKind::ForNumeric { variable, start, end, step, body } => {
            push_for_numeric_head(out, variable, start, end, step);
            push_statements(out, body, inner);
        },
        HirStatementKind::ForGeneric { variables, iterables, body } => {
            push_str(out, "For ");
            push_names(out, variables);
            push_str(out, " in ");
            push_exprs(out, iterables);
            push_str(out, "\n");
            push_statements(out, body, inner);
        },
        HirStatementKind::Break => push_str(out, "Break\n"),
        HirStatementKind::Continue => push_str(out, "Continue\n"),
        HirStatementKind::Function { function } => push_function(out, function, indent),
        HirStatementKind::Error => push_str(out, "<Error>\n"),
    }
    assert(final(out)@ =~= old(out)@ + statement_text(*st, indent));
}

/// Appends statements one after another at indentation `indent`.
fn push_statements(out: &mut String, ss: &Vec<HirStatement>, indent: usize)
    ensures
        final(out)@ == old(out)@ + statements_text(ss@, indent),
    decreases ss, 0nat,
{
    let ghost start = out@;
    let mut i: usize = 0;
    while i < ss.len()
        invariant
            i <= ss@.len(),
            out@ == start + statements_text(ss@.subrange(0, i as int), indent),
        decreases ss.len() - i,
    {
        push_statement(out, &ss[i], indent);
        proof {
            let run = ss@.subrange(0, i + 1);
            assert(run.drop_last() =~= ss@.subrange(0, i as int));
            assert(out@ =~= start + statements_text(run, indent));
        }
        i = i + 1;
    }
    assert(ss@.subrange(0, ss@.len() as int) =~= ss@);
}

/// Appends parameters separated by `, `.
fn push_parameters(out: &mut String, ps: &Vec<HirParameter>)
    ensures
        final(out)@ == old(out)@ + parameters_text(ps@),
{
    let ghost start = out@;
    let mut i: usize = 0;
    while i < ps.len()
        invariant
            i <= ps@.len(),
            out@ == start + parameters_text(ps@.subrange(0, i as int)),
        decreases ps.len() - i,
    {
        if i > 0 {
            push_str(out, ", ");
        }
        let ghost before = out@;
        let p = &ps[i];
        push_str(out, p.name.as_str());
        push_str(out, "#");
        push_decimal(out, p.symbol_id.0);
        if let Some(t) = p.param_type {
            push_str(out, ": ");
            push_str(out, type_debug_str(t));
        }
        proof {
            assert(out@ =~= before + parameter_text(*p));
            let run = ps@.subrange(0, i + 1);
            assert(run.drop_last() =~= ps@.subrange(0, i as int));
            if i == 0 {
                assert(parameters_text(ps@.subrange(0, 0)) =~= Seq::<char>::empty());
            }
            assert(out@ =~= start + parameters_text(run));
        }
        i = i + 1;
    }
    assert(ps@.subrange(0, ps@.len() as int) =~= ps@);
}

/// Appends the local variables, one line each.
fn push_locals(out: &mut String, vs: &Vec<HirLocalVariable>, indent: usize)
    ensures
        final(out)@ == old(out)@ + locals_text(vs@, indent),
{
    let ghost start = out@;
    let mut i: usize = 0;
    while i < vs.len()
        invariant
            i <= vs@.len(),
            out@ == start + locals_text(vs@.subrange(0, i as int), indent),
        decreases vs.len() - i,
    {
        let ghost before = out@;
        let v = &vs[i];
        push_pad(out, indent);
        push_str(out, v.name.as_str());
        push_str(out, " id=#");
        push_decimal(out, v.id.0);
        push_str(out, " symbol=#");
        push_decimal(out, v.symbol_id.0);
        push_str(out, " scope=#");
        push_decimal(out, v.scope_id.0);
        push_str(out, " type=");
        push_optional_type(out, v.var_type);
        push_str(out, "\n");
        proof {
            assert(out@ =~= before + local_line(*v, indent));
            let run = vs@.subrange(0, i + 1);
            assert(run.drop_last() =~= vs@.subrange(0, i as int));
        }
        i = i + 1;
    }
    assert(vs@.subrange(0, vs@.len() as int) =~= vs@);
}

fn push_function_params(out: &mut String, f: &HirFunction)
    ensures
        final(out)@ == old(out)@ + function_params(*f),
{
    if f.parameters.len() > 0 {
        push_str(out, "(");
        push_parameters(out, &f.parameters);
        push_str(out, ")");
    }
    assert(final(out)@ =~= old(out)@ + function_params(*f));
}

fn push_function_returns(out: &mut String, f: &HirFunction)
    ensures
        final(out)@ == old(out)@ + function_returns(*f),
{
    if let Some(t) = f.return_type {
        push_str(out, " -> ");
        push_str(out, type_debug_str(t));
    }
    assert(final(out)@ =~= old(out)@ + function_returns(*f));
}

fn push_function_head(out: &mut String, f: &HirFunction)
    ensures
        final(out)@ == old(out)@ + function_head(*f),
{
    push_str(out, "Function '");
    push_str(out, f.name.as_str());
    push_str(out, "' id=#");
    push_decimal(out, f.id.0);
    push_str(out, " symbol=#");
    push_decimal(out, f.symbol_id.0);
    push_str(out, " scope=#");
    push_decimal(out, f.scope_id.0);
    push_function_params(out, f);
    push_function_returns(out, f);
    push_str(out, "\n");
    assert(final(out)@ =~= old(out)@ + function_head(*f));
}

/// Appends how a function is shown at indentation `indent`.
fn push_function(out: &mut String, f: &HirFunction, indent: usize)
    ensures
        final(out)@ == old(out)@ + function_text(*f, indent),
    decreases f, 0nat,
{
    let inner = indent.saturating_add(2);
    push_pad(out, indent);
    push_function_head(out, f);
    let ghost mid = out@;
    if f.local_variables.len() > 0 {
        push_pad(out, inner);
        push_str(out, "Locals:\n");
        push_locals(out, &f.local_variables, inner.saturating_add(2));
    }
    assert(out@ =~= mid + function_locals(*f, indent));
    push_statements(out, &f.body, inner);
    assert(final(out)@ =~= old(out)@ + function_text(*f, indent));
}

fn push_numbers(out: &mut String, ids: &Vec<crate::hir::ids::HirSymbolId>)
    ensures
        final(out)@ == old(out)@ + numbers_text(ids@.map_values(|id: crate::hir::ids::HirSymbolId| id.0)),
{
    let ghost start = out@;
    let ghost ns = ids@.map_values(|id: crate::hir::ids::HirSymbolId| id.0);
    let mut i: usize = 0;
    while i < ids.len()
        invariant
            i <= ids@.len(),
            ns == ids@.map_values(|id: crate::hir::ids::HirSymbolId| id.0),
            out@ == start + numbers_text(ns.subrange(0, i as int)),
        decreases ids.len() - i,
    {
        if i > 0 {
            push_str(out, ", ");
        }
        push_decimal(out, ids[i].0);
        proof {
            let run = ns.subrange(0, i + 1);
            assert(run.drop_last() =~= ns.subrange(0, i as int));
            if i == 0 {
                assert(numbers_text(ns.subrange(0, 0)) =~= Seq::<char>::empty());
            }
            assert(out@ =~= start + numbers_text(run));
        }
        i = i + 1;
    }
    assert(ns.subrange(0, ns.len() as int) =~= ns);
}

fn push_scope_line(out: &mut String, scope: &HirScope, indent: usize)
    ensures
        final(out)@ == old(out)@ + scope_line(*scope, indent),
{
    push_pad(out, indent);
    push_str(out, "Scope #");
    push_decimal(out, scope.id.0);
    push_str(out, " parent=");
    match scope.parent {
        Some(p) => {
            push_str(out, "Some(");
            push_decimal(out, p.0);
            push_str(out, ")");
        },
        None => push_str(out, "None"),
    }
    push_str(out, " symbols=[");
    push_numbers(out, &scope.symbols);
    push_str(out, "]\n");
    assert(final(out)@ =~= old(out)@ + scope_line(*scope, indent));
}

fn push_symbol_line(out: &mut String, symbol: &HirSymbol, indent: usize)
    ensures
        final(out)@ == old(out)@ + symbol_line(*symbol, indent),
{
    push_pad(out, indent);
    push_str(out, "#");
    push_decimal(out, symbol.id.0);
    push_str(out, " ");
    push_str(out, symbol_kind_str(symbol.kind));
    push_str(out, " '");
    push_str(out, symbol.name.as_str());
    push_str(out, "' scope=#");
    push_decimal(out, symbol.scope_id.0);
    push_str(out, " type=");
    push_optional_type(out, symbol.value_type);
    push_str(out, "\n");
    assert(final(out)@ =~= old(out)@ + symbol_line(*symbol, indent));
}

fn push_global(out: &mut String, global: &HirGlobalVariable, indent: usize)
    ensures
        final(out)@ == old(out)@ + global_text(*global, indent),
{
    push_pad(out, indent);
    push_str(out, "Global Variable: ");
    push_str(out, global.name.as_str());
    push_str(out, " symbol=#");
    push_decimal(out, global.symbol_id.0);
    push_str(out, " scope=#");
    push_decimal(out, global.scope_id.0);
    push_str(out, " type=");
    push_optional_type(out, global.var_type);
    push_str(out, "\n");
    let ghost mid = out@;
    if let Some(initializer) = &global.initializer {
        push_pad(out, indent.saturating_add(2));
        push_str(out, "Initializer: ");
        push_expr(out, initializer);
        push_str(out, "\n");
    }
    assert(final(out)@ =~= old(out)@ + global_text(*global, indent));
}

fn push_alias(out: &mut String, alias: &HirTypeAlias, indent: usize)
    ensures
        final(out)@ == old(out)@ + alias_line(*alias, indent),
{
    push_pad(out, indent);
    push_str(out, "Type Alias: ");
    push_str(out, alias.name.as_str());
    push_str(out, " symbol=#");
    push_decimal(out, alias.symbol_id.0);
    push_str(out, " scope=#");
    push_decimal(out, alias.scope_id.0);
    push_str(out, " alias=");
    push_str(out, type_debug_str(alias.alias));
    push_str(out, "\n");
    assert(final(out)@ =~= old(out)@ + alias_line(*alias, indent));
}

fn push_scopes(out: &mut String, items: &Vec<HirScope>, indent: usize)
    ensures
        final(out)@ == old(out)@ + scopes_text(items@, indent),
{
    let ghost start = out@;
    let mut i: usize = 0;
    while i < items.len()
        invariant
            i <= items@.len(),
            out@ == start + scopes_text(items@.subrange(0, i as int), indent),
        decreases items.len() - i,
    {
        push_scope_line(out, &items[i], indent);
        proof {
            let run = items@.subrange(0, i + 1);
            assert(run.drop_last() =~= items@.subrange(0, i as int));
            assert(out@ =~= start + scopes_text(run, indent));
        }
        i = i + 1;
    }
    assert(items@.subrange(0, items@.len() as int) =~= items@);
}

fn push_symbols(out: &mut String, items: &Vec<HirSymbol>, indent: usize)
    ensures
        final(out)@ == old(out)@ + symbols_text(items@, indent),
{
    let ghost start = out@;
    let mut i: usize = 0;
    while i < items.len()
        invariant
            i <= items@.len(),
            out@ == start + symbols_text(items@.subrange(0, i as int), indent),
        decreases items.len() - i,
    {
        push_symbol_line(out, &items[i], indent);
        proof {
            let run = items@.subrange(0, i + 1);
            assert(run.drop_last() =~= items@.subrange(0, i as int));
            assert(out@ =~= start + symbols_text(run, indent));
        }
        i = i + 1;
    }
    assert(items@.subrange(0, items@.len() as int) =~= items@);
}

fn push_globals(out: &mut String, items: &Vec<HirGlobalVariable>, indent: usize)
    ensures
        final(out)@ == old(out)@ + globals_text(items@, indent),
{
    let ghost start = out@;
    let mut i: usize = 0;
    while i < items.len()
        invariant
            i <= items@.len(),
            out@ == start + globals_text(items@.subrange(0, i as int), indent),
        decreases items.len() - i,
    {
        push_global(out, &items[i], indent);
        proof {
            let run = items@.subrange(0, i + 1);
            assert(run.drop_last() =~= items@.subrange(0, i as int));
            assert(out@ =~= start + globals_text(run, indent));
        }
        i = i + 1;
    }
    assert(items@.subrange(0, items@.len() as int) =~= items@);
}

fn push_aliases(out: &mut String, items: &Vec<HirTypeAlias>, indent: usize)
    ensures
        final(out)@ == old(out)@ + aliases_text(items@, indent),
{
    let ghost start = out@;
    let mut i: usize = 0;
    while i < items.len()
        invariant
            i <= items@.len(),
            out@ == start + aliases_text(items@.subrange(0, i as int), indent),
        decreases items.len() - i,
    {
        push_alias(out, &items[i], indent);
        proof {
            let run = items@.subrange(0, i + 1);
            assert(run.drop_last() =~= items@.subrange(0, i as int));
            assert(out@ =~= start + aliases_text(run, indent));
        }
        i = i + 1;
    }
    assert(items@.subrange(0, items@.len() as int) =~= items@);
}

fn push_functions(out: &mut String, items: &Vec<HirFunction>, indent: usize)
    ensures
        final(out)@ == old(out)@ + functions_text(items@, indent),
{
    let ghost start = out@;
    let mut i: usize = 0;
    while i < items.len()
        invariant
            i <= items@.len(),
            out@ == start + functions_text(items@.subrange(0, i as int), indent),
        decreases items.len() - i,
    {
        push_function(out, &items[i], indent);
        proof {
            let run = items@.subrange(0, i + 1);
            assert(run.drop_last() =~= items@.subrange(0, i as int));
            assert(out@ =~= start + functions_text(run, indent));
        }
        i = i + 1;
    }
    assert(items@.subrange(0, items@.len() as int) =~= items@);
}

impl HirPrinter {
    /// The indentation the next dump starts from.
    pub closed spec fn indent_level(self) -> usize {
        self.indent
    }

    pub fn new() -> (result: Self)
        ensures
            result.indent_level() == 0,
    {
        HirPrinter { indent: 0 }
    }

    /// Dumps a module.
    pub fn print_module(&mut self, module: &HirModule) -> (result: String)
        ensures
            result@ == module_text(*module, old(self).indent_level()),
            final(self).indent_level() == old(self).indent_level(),
    {
        let inner = self.indent.saturating_add(2);
        let mut output = String::new();
        push_str(&mut output, "Module '");
        push_str(&mut output, module.name.as_str());
        push_str(&mut output, "'\n");
        push_scope_section(&mut output, &module.scopes, inner);
        push_symbol_section(&mut output, &module.symbols, inner);
        push_global_section(&mut output, &module.global_variables, inner);
        push_alias_section(&mut output, &module.type_aliases, inner);
        push_function_section(&mut output, &module.functions, inner);
        assert(output@ =~= module_text(*module, self.indent));
        output
    }
}

fn push_scope_section(out: &mut String, items: &Vec<HirScope>, indent: usize)
    ensures
        final(out)@ == old(out)@ + section("Scopes:\n"@, items@.len(), scopes_text(items@, deeper(indent)), indent),
{
    if items.len() > 0 {
        push_pad(out, indent);
        push_str(out, "Scopes:\n");
        push_scopes(out, items, indent.saturating_add(2));
    }
    assert(final(out)@ =~= old(out)@ + section("Scopes:\n"@, items@.len(), scopes_text(items@, deeper(indent)), indent));
}

fn push_symbol_section(out: &mut String, items: &Vec<HirSymbol>, indent: usize)
    ensures
        final(out)@ == old(out)@ + section("Symbols:\n"@, items@.len(), symbols_text(items@, deeper(indent)), indent),
{
    if items.len() > 0 {
        push_pad(out, indent);
        push_str(out, "Symbols:\n");
        push_symbols(out, items, indent.saturating_add(2));
    }
    assert(final(out)@ =~= old(out)@ + section("Symbols:\n"@, items@.len(), symbols_text(items@, deeper(indent)), indent));
}

fn push_global_section(out: &mut String, items: &Vec<HirGlobalVariable>, indent: usize)
    ensures
        final(out)@ == old(out)@ + section("Global Variables:\n"@, items@.len(), globals_text(items@, deeper(indent)), indent),
{
    if items.len() > 0 {
        push_pad(out, indent);
        push_str(out, "Global Variables:\n");
        push_globals(out, items, indent.saturating_add(2));
    }
    assert(final(out)@ =~= old(out)@ + section("Global Variables:\n"@, items@.len(), globals_text(items@, deeper(indent)), indent));
}

fn push_alias_section(out: &mut String, items: &Vec<HirTypeAlias>, indent: usize)
    ensures
        final(out)@ == old(out)@ + section("Types:\n"@, items@.len(), aliases_text(items@, deeper(indent)), indent),
{
    if items.len() > 0 {
        push_pad(out, indent);
        push_str(out, "Types:\n");
        push_aliases(out, items, indent.saturating_add(2));
    }
    assert(final(out)@ =~= old(out)@ + section("Types:\n"@, items@.len(), aliases_text(items@, deeper(indent)), indent));
}

fn push_function_section(out: &mut String, items: &Vec<HirFunction>, indent: usize)
    ensures
        final(out)@ == old(out)@ + section("Functions:\n"@, items@.len(), functions_text(items@, deeper(indent)), indent),
{
    if items.len() > 0 {
        push_pad(out, indent);
        push_str(out, "Functions:\n");
        push_functions(out, items, indent.saturating_add(2));
    }
    assert(final(out)@ =~= old(out)@ + section("Functions:\n"@, items@.len(), functions_text(items@, deeper(indent)), indent));
}

impl Default for HirPrinter {
    fn default() -> (result: Self)
        ensures
            result.indent_level() == 0,
    {
        Self::new()
    }
}

} // verus!
