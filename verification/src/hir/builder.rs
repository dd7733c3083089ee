//! Lowering of the syntax tree to the high-level representation: names are
//! resolved against nested scopes, every declaration gets a symbol, locals
//! and parameters get variable ids, and expressions get the types that can
//! be read off their operators and literals.
use vstd::prelude::*;

use crate::hir::error::HirError;
use crate::hir::expression::{HirExpression, HirExpressionKind, HirTableField};
use crate::hir::function::{HirFunction, HirFunctionMetadata, HirParameter};
use crate::hir::ids::{HirFunctionId, HirScopeId, HirSymbolId, HirVariableId};
use crate::hir::module::HirModule;
use crate::hir::statement::{HirLocalVariable, HirStatement, HirStatementKind};
use crate::hir::symbol::{HirScope, HirSymbol, HirSymbolKind};
use crate::hir::types::{HirBinaryOperator, HirBuiltinFunction, HirType, HirUnaryOperator};
use crate::parser::ast_builder::{
    AstNode, Expression, ExpressionKind, InterpolatedStringPart, Program, Statement, StatementKind, TableField,
    TypeExpression, TypeExpressionKind,
};
use crate::source::SourceSpan;
use crate::text::{push_char, push_str, str_eq, to_owned_string};

verus! {

/// What a name in scope stands for.
#[derive(Debug, Clone, Copy, PartialEq, Eq, Structural)]
pub struct HirBinding {
    pub symbol_id: HirSymbolId,
    pub variable_id: Option<HirVariableId>,
    pub value_type: Option<HirType>,
}

/// The names of one scope with what they stand for; a later entry for a
/// name hides an earlier one.
pub type BindingTable = Seq<(Seq<char>, HirBinding)>;

/// What `name` stands for in one scope.
pub open spec fn lookup_in(table: BindingTable, name: Seq<char>) -> Option<HirBinding>
    decreases table.len(),
{
    if table.len() == 0 {
        None
    } else if table.last().0 == name {
        Some(table.last().1)
    } else {
        lookup_in(table.drop_last(), name)
    }
}

/// What `name` stands for in nested scopes, the innermost last.
pub open spec fn lookup(tables: Seq<BindingTable>, name: Seq<char>) -> Option<HirBinding>
    decreases tables.len(),
{
    if tables.len() == 0 {
        None
    } else {
        match lookup_in(tables.last(), name) {
            Some(b) => Some(b),
            None => lookup(tables.drop_last(), name),
        }
    }
}

/// The operator an operator token stands for (`-` for one it does not know).
pub open spec fn unary_operator_of(op: Seq<char>) -> HirUnaryOperator {
    if op == "-"@ {
        HirUnaryOperator::Negate
    } else if op == "not"@ {
        HirUnaryOperator::Not
    } else if op == "#"@ {
        HirUnaryOperator::Length
    } else if op == "~"@ {
        HirUnaryOperator::BitwiseNot
    } else {
        HirUnaryOperator::Negate
    }
}

/// The operator an operator token stands for (`+` for one it does not know).
pub open spec fn binary_operator_of(op: Seq<char>) -> HirBinaryOperator {
    if op == "+"@ {
        HirBinaryOperator::Add
    } else if op == "-"@ {
        HirBinaryOperator::Subtract
    } else if op == "*"@ {
        HirBinaryOperator::Multiply
    } else if op == "/"@ {
        HirBinaryOperator::Divide
    } else if op == "//"@ {
        HirBinaryOperator::FloorDivide
    } else if op == "%"@ {
        HirBinaryOperator::Modulo
    } else if op == "^"@ {
        HirBinaryOperator::Exponent
    } else if op == "=="@ {
        HirBinaryOperator::Equal
    } else if op == "~="@ {
        HirBinaryOperator::NotEqual
    } else if op == "<"@ {
        HirBinaryOperator::LessThan
    } else if op == "<="@ {
        HirBinaryOperator::LessEqual
    } else if op == ">"@ {
        HirBinaryOperator::GreaterThan
    } else if op == ">="@ {
        HirBinaryOperator::GreaterEqual
    } else if op == "and"@ {
        HirBinaryOperator::And
    } else if op == "or"@ {
        HirBinaryOperator::Or
    } else if op == ".."@ {
        HirBinaryOperator::Concatenate
    } else if op == "&"@ {
        HirBinaryOperator::BitwiseAnd
    } else if op == "|"@ {
        HirBinaryOperator::BitwiseOr
    } else if op == "~"@ {
        HirBinaryOperator::BitwiseXor
    } else if op == "<<"@ {
        HirBinaryOperator::BitwiseShiftLeft
    } else if op == ">>"@ {
        HirBinaryOperator::BitwiseShiftRight
    } else {
        HirBinaryOperator::Add
    }
}

/// The type a type annotation names: a plain name the language knows, and
/// `unknown` for anything else.
pub open spec fn type_of_annotation(t: TypeExpression) -> HirType {
    match t.kind {
        TypeExpressionKind::Named(name) => if name@ == "nil"@ {
            HirType::Nil
        } else if name@ == "boolean"@ {
            HirType::Boolean
        } else if name@ == "number"@ {
            HirType::Number
        } else if name@ == "string"@ {
            HirType::String
        } else if name@ == "table"@ {
            HirType::Table
        } else if name@ == "function"@ {
            HirType::Function
        } else if name@ == "any"@ {
            HirType::Any
        } else {
            HirType::Unknown
        },
        _ => HirType::Unknown,
    }
}

/// The type of a prefix operation.
pub open spec fn unary_result(op: HirUnaryOperator, operand: Option<HirType>) -> Option<HirType> {
    match op {
        HirUnaryOperator::Negate => match operand {
            Some(t) => Some(t),
            None => Some(HirType::Number),
        },
        HirUnaryOperator::Not => Some(HirType::Boolean),
        HirUnaryOperator::Length => Some(HirType::Number),
        HirUnaryOperator::BitwiseNot => Some(HirType::Number),
    }
}

/// The type of an infix operation: arithmetic and bitwise operations give
/// numbers, comparisons and `and`/`or` booleans, and `..` a string when one
/// side is known to be a string.
pub open spec fn binary_result(op: HirBinaryOperator, left: Option<HirType>, right: Option<HirType>) -> Option<HirType> {
    match op {
        HirBinaryOperator::Equal | HirBinaryOperator::NotEqual | HirBinaryOperator::LessThan
        | HirBinaryOperator::LessEqual | HirBinaryOperator::GreaterThan | HirBinaryOperator::GreaterEqual
        | HirBinaryOperator::And | HirBinaryOperator::Or => Some(HirType::Boolean),
        HirBinaryOperator::Concatenate => if left == Some(HirType::String) || right == Some(HirType::String) {
            Some(HirType::String)
        } else {
            Some(HirType::Unknown)
        },
        _ => Some(HirType::Number),
    }
}

/// The built-in function a global name stands for.
pub open spec fn builtin_named(name: Seq<char>) -> Option<HirBuiltinFunction> {
    if name == "print"@ {
        Some(HirBuiltinFunction::Print)
    } else if name == "type"@ {
        Some(HirBuiltinFunction::Type)
    } else if name == "tonumber"@ {
        Some(HirBuiltinFunction::ToNumber)
    } else if name == "tostring"@ {
        Some(HirBuiltinFunction::ToString)
    } else if name == "error"@ {
        Some(HirBuiltinFunction::Error)
    } else if name == "pairs"@ {
        Some(HirBuiltinFunction::Pairs)
    } else if name == "ipairs"@ {
        Some(HirBuiltinFunction::Ipairs)
    } else if name == "require"@ {
        Some(HirBuiltinFunction::Require)
    } else {
        None
    }
}

/// The type a built-in call gives.
pub open spec fn builtin_result(f: HirBuiltinFunction) -> Option<HirType> {
    match f {
        HirBuiltinFunction::Print | HirBuiltinFunction::Error | HirBuiltinFunction::Require => None,
        HirBuiltinFunction::Type | HirBuiltinFunction::ToString => Some(HirType::String),
        HirBuiltinFunction::ToNumber => Some(HirType::Number),
        HirBuiltinFunction::Pairs | HirBuiltinFunction::Ipairs => Some(HirType::Function),
    }
}

/// The text an interpolated string lowers to: its literal pieces, with `?`
/// for each embedded expression.
pub open spec fn interpolated_text(parts: Seq<InterpolatedStringPart>) -> Seq<char>
    decreases parts.len(),
{
    if parts.len() == 0 {
        seq![]
    } else {
        interpolated_text(parts.drop_last()) + match parts.last() {
            InterpolatedStringPart::Text(text) => text@,
            InterpolatedStringPart::Expression(_) => seq!['?'],
        }
    }
}

fn unary_operator(op: &str) -> (result: HirUnaryOperator)
    ensures
        result == unary_operator_of(op@),
{
    if str_eq(op, "-") {
        HirUnaryOperator::Negate
    } else if str_eq(op, "not") {
        HirUnaryOperator::Not
    } else if str_eq(op, "#") {
        HirUnaryOperator::Length
    } else if str_eq(op, "~") {
        HirUnaryOperator::BitwiseNot
    } else {
        HirUnaryOperator::Negate
    }
}

fn binary_operator(op: &str) -> (result: HirBinaryOperator)
    ensures
        result == binary_operator_of(op@),
{
    if str_eq(op, "+") {
        HirBinaryOperator::Add
    } else if str_eq(op, "-") {
        HirBinaryOperator::Subtract
    } else if str_eq(op, "*") {
        HirBinaryOperator::Multiply
    } else if str_eq(op, "/") {
        HirBinaryOperator::Divide
    } else if str_eq(op, "//") {
        HirBinaryOperator::FloorDivide
    } else if str_eq(op, "%") {
        HirBinaryOperator::Modulo
    } else if str_eq(op, "^") {
        HirBinaryOperator::Exponent
    } else if str_eq(op, "==") {
        HirBinaryOperator::Equal
    } else if str_eq(op, "~=") {
        HirBinaryOperator::NotEqual
    } else if str_eq(op, "<") {
        HirBinaryOperator::LessThan
    } else if str_eq(op, "<=") {
        HirBinaryOperator::LessEqual
    } else if str_eq(op, ">") {
        HirBinaryOperator::GreaterThan
    } else if str_eq(op, ">=") {
        HirBinaryOperator::GreaterEqual
    } else if str_eq(op, "and") {
        HirBinaryOperator::And
    } else if str_eq(op, "or") {
        HirBinaryOperator::Or
    } else if str_eq(op, "..") {
        HirBinaryOperator::Concatenate
    } else if str_eq(op, "&") {
        HirBinaryOperator::BitwiseAnd
    } else if str_eq(op, "|") {
        HirBinaryOperator::BitwiseOr
    } else if str_eq(op, "~") {
        HirBinaryOperator::BitwiseXor
    } else if str_eq(op, "<<") {
        HirBinaryOperator::BitwiseShiftLeft
    } else if str_eq(op, ">>") {
        HirBinaryOperator::BitwiseShiftRight
    } else {
        HirBinaryOperator::Add
    }
}

fn annotation_type(t: &TypeExpression) -> (result: HirType)
    ensures
        result == type_of_annotation(*t),
{
    match &t.kind {
        TypeExpressionKind::Named(name) => {
            let name = name.as_str();
            if str_eq(name, "nil") {
                HirType::Nil
            } else if str_eq(name, "boolean") {
                HirType::Boolean
            } else if str_eq(name, "number") {
                HirType::Number
            } else if str_eq(name, "string") {
                HirType::String
            } else if str_eq(name, "table") {
                HirType::Table
            } else if str_eq(name, "function") {
                HirType::Function
            } else if str_eq(name, "any") {
                HirType::Any
            } else {
                HirType::Unknown
            }
        },
        _ => HirType::Unknown,
    }
}

fn unary_result_type(op: HirUnaryOperator, operand: Option<HirType>) -> (result: Option<HirType>)
    ensures
        result == unary_result(op, operand),
{
    match op {
        HirUnaryOperator::Negate => match operand {
            Some(t) => Some(t),
            None => Some(HirType::Number),
        },
        HirUnaryOperator::Not => Some(HirType::Boolean),
        HirUnaryOperator::Length => Some(HirType::Number),
        HirUnaryOperator::BitwiseNot => Some(HirType::Number),
    }
}

fn binary_result_type(op: HirBinaryOperator, left: Option<HirType>, right: Option<HirType>) -> (result: Option<HirType>)
    ensures
        result == binary_result(op, left, right),
{
    match op {
        HirBinaryOperator::Equal | HirBinaryOperator::NotEqual | HirBinaryOperator::LessThan
        | HirBinaryOperator::LessEqual | HirBinaryOperator::GreaterThan | HirBinaryOperator::GreaterEqual
        | HirBinaryOperator::And | HirBinaryOperator::Or => Some(HirType::Boolean),
        HirBinaryOperator::Concatenate => {
            if left == Some(HirType::String) || right == Some(HirType::String) {
                Some(HirType::String)
            } else {
                Some(HirType::Unknown)
            }
        },
        _ => Some(HirType::Number),
    }
}

fn recognize_builtin(name: &str) -> (result: Option<HirBuiltinFunction>)
    ensures
        result == builtin_named(name@),
{
    if str_eq(name, "print") {
        Some(HirBuiltinFunction::Print)
    } else if str_eq(name, "type") {
        Some(HirBuiltinFunction::Type)
    } else if str_eq(name, "tonumber") {
        Some(HirBuiltinFunction::ToNumber)
    } else if str_eq(name, "tostring") {
        Some(HirBuiltinFunction::ToString)
    } else if str_eq(name, "error") {
        Some(HirBuiltinFunction::Error)
    } else if str_eq(name, "pairs") {
        Some(HirBuiltinFunction::Pairs)
    } else if str_eq(name, "ipairs") {
        Some(HirBuiltinFunction::Ipairs)
    } else if str_eq(name, "require") {
        Some(HirBuiltinFunction::Require)
    } else {
        None
    }
}

fn builtin_result_type(f: HirBuiltinFunction) -> (result: Option<HirType>)
    ensures
        result == builtin_result(f),
{
    match f {
        HirBuiltinFunction::Print | HirBuiltinFunction::Error | HirBuiltinFunction::Require => None,
        HirBuiltinFunction::Type | HirBuiltinFunction::ToString => Some(HirType::String),
        HirBuiltinFunction::ToNumber => Some(HirType::Number),
        HirBuiltinFunction::Pairs | HirBuiltinFunction::Ipairs => Some(HirType::Function),
    }
}

/// The text of an interpolated string.
fn interpolated_string(parts: &Vec<InterpolatedStringPart>) -> (result: String)
    ensures
        result@ == interpolated_text(parts@),
{
    let mut out = String::new();
    let mut i: usize = 0;
    while i < parts.len()
        invariant
            i <= parts@.len(),
            out@ == interpolated_text(parts@.subrange(0, i as int)),
        decreases parts.len() - i,
    {
        match &parts[i] {
            InterpolatedStringPart::Text(text) => push_str(&mut out, text.as_str()),
            InterpolatedStringPart::Expression(_) => push_char(&mut out, '?'),
        }
        proof {
            let run = parts@.subrange(0, i + 1);
            assert(run.drop_last() =~= parts@.subrange(0, i as int));
        }
        i = i + 1;
    }
    assert(parts@.subrange(0, parts@.len() as int) =~= parts@);
    out
}

/// How a name lowers: to its variable when it names a local or parameter,
/// otherwise to a global of that name; with the binding's symbol and type
/// when it is bound.
pub open spec fn identifier_lowered(name: Seq<char>, hir: HirExpression, binding: Option<HirBinding>) -> bool {
    match binding {
        Some(b) => {
            &&& hir.expr_type == b.value_type
            &&& hir.symbol_id == Some(b.symbol_id)
            &&& match b.variable_id {
                Some(v) => hir.kind == HirExpressionKind::LocalVariable(v),
                None => hir.kind matches HirExpressionKind::GlobalVariable(n) && n@ == name,
            }
        },
        None => {
            &&& hir.expr_type.is_none()
            &&& hir.symbol_id.is_none()
            &&& hir.kind matches HirExpressionKind::GlobalVariable(n) && n@ == name
        },
    }
}

/// The built-in a callee names, with the symbol it is bound to: a name that
/// is not bound to a variable and names a built-in.
pub open spec fn builtin_callee(callee: Expression, tables: Seq<BindingTable>) -> Option<(HirBuiltinFunction, Option<HirSymbolId>)> {
    match callee.kind {
        ExpressionKind::Identifier(name) => match builtin_named(name@) {
            Some(f) => match lookup(tables, name@) {
                Some(b) => if b.variable_id.is_none() {
                    Some((f, Some(b.symbol_id)))
                } else {
                    None
                },
                None => Some((f, None)),
            },
            None => None,
        },
        _ => None,
    }
}

/// `hir` is `ast` lowered with the names of `tables` in scope.
pub open spec fn expression_lowered(ast: Expression, hir: HirExpression, tables: Seq<BindingTable>) -> bool
    decreases ast,
{
    &&& hir.span == ast.span
    &&& match ast.kind {
        ExpressionKind::Identifier(name) => identifier_lowered(name@, hir, lookup(tables, name@)),
        ExpressionKind::NumberLiteral(text) => {
            &&& hir.kind matches HirExpressionKind::Number(t) && t@ == text@
            &&& hir.expr_type == Some(HirType::Number)
            &&& hir.symbol_id.is_none()
        },
        ExpressionKind::StringLiteral(value) => {
            &&& hir.kind matches HirExpressionKind::String(t) && t@ == value@
            &&& hir.expr_type == Some(HirType::String)
            &&& hir.symbol_id.is_none()
        },
        ExpressionKind::InterpolatedString(parts) => {
            &&& hir.kind matches HirExpressionKind::String(t) && t@ == interpolated_text(parts@)
            &&& hir.expr_type == Some(HirType::String)
            &&& hir.symbol_id.is_none()
        },
        ExpressionKind::BooleanLiteral(b) => {
            &&& hir.kind == HirExpressionKind::Boolean(b)
            &&& hir.expr_type == Some(HirType::Boolean)
            &&& hir.symbol_id.is_none()
        },
        ExpressionKind::Nil => {
            &&& hir.kind is Nil
            &&& hir.expr_type == Some(HirType::Nil)
            &&& hir.symbol_id.is_none()
        },
        ExpressionKind::Unary { operator, operand } => {
            &&& hir.kind matches HirExpressionKind::Unary { operator: op, operand: inner } && op == unary_operator_of(operator@)
                && expression_lowered(*operand, *inner, tables) && hir.expr_type == unary_result(op, inner.expr_type)
            &&& hir.symbol_id.is_none()
        },
        ExpressionKind::Binary { left, operator, right } => {
            &&& hir.kind matches HirExpressionKind::Binary { left: l, operator: op, right: r } && op == binary_operator_of(operator@)
                && expression_lowered(*left, *l, tables) && expression_lowered(*right, *r, tables)
                && hir.expr_type == binary_result(op, l.expr_type, r.expr_type)
            &&& hir.symbol_id.is_none()
        },
        ExpressionKind::Call { callee, arguments } => match builtin_callee(*callee, tables) {
            Some((f, symbol)) => {
                &&& hir.kind matches HirExpressionKind::BuiltinCall { function, arguments: args } && function == f
                    && list_lowered(arguments@, args@, tables)
                &&& hir.expr_type == builtin_result(f)
                &&& hir.symbol_id == symbol
            },
            None => {
                &&& hir.kind matches HirExpressionKind::FunctionCall { callee: c, arguments: args }
                    && expression_lowered(*callee, *c, tables) && list_lowered(arguments@, args@, tables)
                &&& hir.expr_type.is_none()
                &&& hir.symbol_id.is_none()
            },
        },
        ExpressionKind::TableConstructor(fields) => {
            &&& hir.kind matches HirExpressionKind::TableConstructor(hfields) && fields_lowered(fields@, hfields@, tables)
            &&& hir.expr_type == Some(HirType::Table)
            &&& hir.symbol_id.is_none()
        },
        ExpressionKind::MemberAccess { object, property } => {
            &&& hir.kind matches HirExpressionKind::FieldAccess { object: o, field } && field@ == property@
                && expression_lowered(*object, *o, tables)
            &&& hir.expr_type.is_none()
            &&& hir.symbol_id.is_none()
        },
        ExpressionKind::Index { object, index } => {
            &&& hir.kind matches HirExpressionKind::Index { object: o, index: i } && expression_lowered(*object, *o, tables)
                && expression_lowered(*index, *i, tables)
            &&& hir.expr_type.is_none()
            &&& hir.symbol_id.is_none()
        },
        ExpressionKind::MethodCall { receiver, method, arguments } => {
            &&& hir.kind matches HirExpressionKind::MethodCall { receiver: r, method: m, arguments: args } && m@ == method@
                && expression_lowered(*receiver, *r, tables) && list_lowered(arguments@, args@, tables)
            &&& hir.expr_type.is_none()
            &&& hir.symbol_id.is_none()
        },
        ExpressionKind::Error => {
            &&& hir.kind is Error
            &&& hir.expr_type.is_none()
            &&& hir.symbol_id.is_none()
        },
    }
}

/// `hirs` are `asts` lowered one by one.
pub open spec fn list_lowered(asts: Seq<Expression>, hirs: Seq<HirExpression>, tables: Seq<BindingTable>) -> bool
    decreases asts,
{
    &&& asts.len() == hirs.len()
    &&& asts.len() > 0 ==> {
        &&& list_lowered(asts.drop_last(), hirs.drop_last(), tables)
        &&& expression_lowered(asts.last(), hirs.last(), tables)
    }
}

/// `hirs` are the table fields `fields` lowered one by one.
pub open spec fn fields_lowered(fields: Seq<TableField>, hirs: Seq<HirTableField>, tables: Seq<BindingTable>) -> bool
    decreases fields,
{
    &&& fields.len() == hirs.len()
    &&& fields.len() > 0 ==> {
        &&& fields_lowered(fields.drop_last(), hirs.drop_last(), tables)
        &&& match fields.last() {
            TableField::Named { key, value } => hirs.last() matches HirTableField::Named { key: k, value: v } && k@ == key@
                && expression_lowered(value, v, tables),
            TableField::Indexed { key, value } => hirs.last() matches HirTableField::Indexed { key: k, value: v }
                && expression_lowered(key, k, tables) && expression_lowered(value, v, tables),
            TableField::Expression(e) => hirs.last() matches HirTableField::Expression(h) && expression_lowered(e, h, tables),
        }
    }
}

/// The names of one scope, read as characters.
pub open spec fn table_view(t: Seq<(String, HirBinding)>) -> BindingTable {
    t.map_values(|e: (String, HirBinding)| (e.0@, e.1))
}

/// Lowers a syntax tree to the high-level representation, keeping the
/// scopes it opens and the symbols it declares.
pub struct HirBuilder {
    function_counter: usize,
    variable_counter: usize,
    symbol_counter: usize,
    scope_counter: usize,
    scope_ids: Vec<HirScopeId>,
    bindings: Vec<Vec<(String, HirBinding)>>,
    scopes: Vec<HirScope>,
    symbols: Vec<HirSymbol>,
}

impl HirBuilder {
    /// The names in scope, outermost scope first.
    pub closed spec fn tables(self) -> Seq<BindingTable> {
        self.bindings@.map_values(|t: Vec<(String, HirBinding)>| table_view(t@))
    }

    /// What `name` stands for in the current scopes.
    fn resolve_binding(&self, name: &str) -> (result: Option<HirBinding>)
        ensures
            result == lookup(self.tables(), name@),
    {
        let ghost tables = self.tables();
        let mut s = self.bindings.len();
        assert(tables.subrange(0, s as int) =~= tables);
        while s > 0
            invariant
                s <= self.bindings@.len(),
                tables == self.tables(),
                lookup(tables, name@) == lookup(tables.subrange(0, s as int), name@),
            decreases s,
        {
            let table = &self.bindings[s - 1];
            let ghost view = table_view(table@);
            assert(view == tables[s - 1]);
            let mut k = table.len();
            assert(view.subrange(0, k as int) =~= view);
            while k > 0
                invariant
                    k <= table@.len(),
                    view == table_view(table@),
                    0 < s <= self.bindings@.len(),
                    tables == self.tables(),
                    view == tables[s - 1],
                    lookup(tables, name@) == lookup(tables.subrange(0, s as int), name@),
                    lookup_in(view, name@) == lookup_in(view.subrange(0, k as int), name@),
                decreases k,
            {
                let ghost part = view.subrange(0, k as int);
                assert(part.last() == (table@[k - 1].0@, table@[k - 1].1));
                if str_eq(table[k - 1].0.as_str(), name) {
                    proof {
                        let run = tables.subrange(0, s as int);
                        assert(run.last() == view);
                    }
                    return Some(table[k - 1].1);
                }
                assert(part.drop_last() =~= view.subrange(0, k - 1));
                k = k - 1;
            }
            proof {
                let run = tables.subrange(0, s as int);
                assert(run.last() == view);
                assert(run.drop_last() =~= tables.subrange(0, s - 1));
            }
            s = s - 1;
        }
        None
    }

    fn expression(kind: HirExpressionKind, expr_type: Option<HirType>, symbol_id: Option<HirSymbolId>, span: SourceSpan) -> (result: HirExpression)
        ensures
            result == (HirExpression { kind, expr_type, symbol_id, span }),
    {
        HirExpression { kind, expr_type, symbol_id, span }
    }

    /// Lowers an expression with the names now in scope.
    fn lower_expression(&self, expr: &Expression) -> (result: HirExpression)
        ensures
            expression_lowered(*expr, result, self.tables()),
        decreases expr,
    {
        let span = expr.span;
        match &expr.kind {
            ExpressionKind::Identifier(name) => {
                match self.resolve_binding(name.as_str()) {
                    Some(binding) => match binding.variable_id {
                        Some(variable_id) => Self::expression(
                            HirExpressionKind::LocalVariable(variable_id),
                            binding.value_type,
                            Some(binding.symbol_id),
                            span,
                        ),
                        None => Self::expression(
                            HirExpressionKind::GlobalVariable(to_owned_string(name.as_str())),
                            binding.value_type,
                            Some(binding.symbol_id),
                            span,
                        ),
                    },
                    None => Self::expression(HirExpressionKind::GlobalVariable(to_owned_string(name.as_str())), None, None, span),
                }
            },
            ExpressionKind::NumberLiteral(number) => Self::expression(
                HirExpressionKind::Number(to_owned_string(number.as_str())),
                Some(HirType::Number),
                None,
                span,
            ),
            ExpressionKind::StringLiteral(value) => Self::expression(
                HirExpressionKind::String(to_owned_string(value.as_str())),
                Some(HirType::String),
                None,
                span,
            ),
            ExpressionKind::BooleanLiteral(value) => Self::expression(HirExpressionKind::Boolean(*value), Some(HirType::Boolean), None, span),
            ExpressionKind::Nil => Self::expression(HirExpressionKind::Nil, Some(HirType::Nil), None, span),
            ExpressionKind::Unary { operator, operand } => {
                let op = unary_operator(operator.as_str());
                let inner = self.lower_expression(operand);
                let expr_type = unary_result_type(op, inner.expr_type);
                Self::expression(HirExpressionKind::Unary { operator: op, operand: Box::new(inner) }, expr_type, None, span)
            },
            ExpressionKind::Binary { left, operator, right } => {
                let op = binary_operator(operator.as_str());
                let l = self.lower_expression(left);
                let r = self.lower_expression(right);
                let expr_type = binary_result_type(op, l.expr_type, r.expr_type);
                Self::expression(HirExpressionKind::Binary { left: Box::new(l), operator: op, right: Box::new(r) }, expr_type, None, span)
            },
            ExpressionKind::Call { callee, arguments } => {
                let lowered_callee = self.lower_expression(callee);
                let lowered_args = self.lower_list(arguments);
                let builtin = match &lowered_callee.kind {
                    HirExpressionKind::GlobalVariable(name) => recognize_builtin(name.as_str()),
                    _ => None,
                };
                match builtin {
                    Some(function) => {
                        let expr_type = builtin_result_type(function);
                        Self::expression(
                            HirExpressionKind::BuiltinCall { function, arguments: lowered_args },
                            expr_type,
                            lowered_callee.symbol_id,
                            span,
                        )
                    },
                    None => Self::expression(
                        HirExpressionKind::FunctionCall { callee: Box::new(lowered_callee), arguments: lowered_args },
                        None,
                        None,
                        span,
                    ),
                }
            },
            ExpressionKind::TableConstructor(fields) => {
                let lowered = self.lower_fields(fields);
                Self::expression(HirExpressionKind::TableConstructor(lowered), Some(HirType::Table), None, span)
            },
            ExpressionKind::MemberAccess { object, property } => {
                let o = self.lower_expression(object);
                Self::expression(
                    HirExpressionKind::FieldAccess { object: Box::new(o), field: to_owned_string(property.as_str()) },
                    None,
                    None,
                    span,
                )
            },
            ExpressionKind::Index { object, index } => {
                let o = self.lower_expression(object);
                let i = self.lower_expression(index);
                Self::expression(HirExpressionKind::Index { object: Box::new(o), index: Box::new(i) }, None, None, span)
            },
            ExpressionKind::MethodCall { receiver, method, arguments } => {
                let r = self.lower_expression(receiver);
                let args = self.lower_list(arguments);
                Self::expression(
                    HirExpressionKind::MethodCall { receiver: Box::new(r), method: to_owned_string(method.as_str()), arguments: args },
                    None,
                    None,
                    span,
                )
            },
            ExpressionKind::InterpolatedString(parts) => {
                let text = interpolated_string(parts);
                Self::expression(HirExpressionKind::String(text), Some(HirType::String), None, span)
            },
            ExpressionKind::Error => Self::expression(HirExpressionKind::Error, None, None, span),
        }
    }

    /// Lowers a list of expressions, in order.
    fn lower_list(&self, exprs: &Vec<Expression>) -> (result: Vec<HirExpression>)
        ensures
            list_lowered(exprs@, result@, self.tables()),
        decreases exprs,
    {
        let mut out: Vec<HirExpression> = Vec::new();
        let mut i: usize = 0;
        while i < exprs.len()
            invariant
                i <= exprs@.len(),
                list_lowered(exprs@.subrange(0, i as int), out@, self.tables()),
            decreases exprs.len() - i,
        {
            let ghost prev = out@;
            let lowered = self.lower_expression(&exprs[i]);
            out.push(lowered);
            proof {
                let run = exprs@.subrange(0, i + 1);
                assert(run.drop_last() =~= exprs@.subrange(0, i as int));
                assert(out@.drop_last() =~= prev);
            }
            i = i + 1;
        }
        assert(exprs@.subrange(0, exprs@.len() as int) =~= exprs@);
        out
    }

    /// Lowers the fields of a table constructor, in order.
    fn lower_fields(&self, fields: &Vec<TableField>) -> (result: Vec<HirTableField>)
        ensures
            fields_lowered(fields@, result@, self.tables()),
        decreases fields,
    {
        let mut out: Vec<HirTableField> = Vec::new();
        let mut i: usize = 0;
        while i < fields.len()
            invariant
                i <= fields@.len(),
                fields_lowered(fields@.subrange(0, i as int), out@, self.tables()),
            decreases fields.len() - i,
        {
            let ghost prev = out@;
            let lowered = match &fields[i] {
                TableField::Named { key, value } => {
                    proof {
                        assert(decreases_to!(fields => fields[i as int]));
                    }
                    HirTableField::Named { key: to_owned_string(key.as_str()), value: self.lower_expression(value) }
                },
                TableField::Indexed { key, value } => {
                    proof {
                        assert(decreases_to!(fields => fields[i as int]));
                    }
                    HirTableField::Indexed { key: self.lower_expression(key), value: self.lower_expression(value) }
                },
                TableField::Expression(e) => {
                    proof {
                        assert(decreases_to!(fields => fields[i as int]));
                    }
                    HirTableField::Expression(self.lower_expression(e))
                },
            };
            out.push(lowered);
            proof {
                let run = fields@.subrange(0, i + 1);
                assert(run.drop_last() =~= fields@.subrange(0, i as int));
                assert(out@.drop_last() =~= prev);
            }
            i = i + 1;
        }
        assert(fields@.subrange(0, fields@.len() as int) =~= fields@);
        out
    }
}

/// The first position at or after `i` of a scope with id `id` (the length
/// when there is none).
pub open spec fn scope_position(scopes: Seq<HirScope>, id: HirScopeId, i: int) -> int
    decreases scopes.len() - i,
{
    if i < 0 || i >= scopes.len() {
        scopes.len() as int
    } else if scopes[i].id == id {
        i
    } else {
        scope_position(scopes, id, i + 1)
    }
}

/// `after` is `before` with `symbol` listed in the first scope with id `id`.
pub open spec fn scope_listed(before: Seq<HirScope>, after: Seq<HirScope>, id: HirScopeId, symbol: HirSymbolId) -> bool {
    let k = scope_position(before, id, 0);
    &&& after.len() == before.len()
    &&& forall|i: int| 0 <= i < before.len() && i != k ==> #[trigger] after[i] == before[i]
    &&& k < before.len() ==> {
        &&& after[k].id == before[k].id
        &&& after[k].parent == before[k].parent
        &&& after[k].symbols@ == before[k].symbols@.push(symbol)
    }
}

/// The bindings a declaration adds: the symbol, then (for a variable) the
/// variable, under the same name.
pub open spec fn declared_entries(name: Seq<char>, symbol: HirSymbolId, value_type: Option<HirType>, variable: Option<HirVariableId>) -> BindingTable {
    let plain = HirBinding { symbol_id: symbol, variable_id: None, value_type };
    match variable {
        Some(v) => seq![(name, plain), (name, HirBinding { symbol_id: symbol, variable_id: Some(v), value_type })],
        None => seq![(name, plain)],
    }
}

impl HirBuilder {
    /// There is a current scope, and one name table per open scope.
    pub closed spec fn wf(self) -> bool {
        &&& self.scope_ids@.len() >= 1
        &&& self.bindings@.len() == self.scope_ids@.len()
    }

    /// The innermost open scope.
    pub closed spec fn current_scope(self) -> HirScopeId {
        self.scope_ids@.last()
    }

    /// The open scopes, outermost first.
    pub closed spec fn open_scopes(self) -> Seq<HirScopeId> {
        self.scope_ids@
    }

    /// The next function, variable, symbol and scope numbers.
    pub closed spec fn counters(self) -> (usize, usize, usize, usize) {
        (self.function_counter, self.variable_counter, self.symbol_counter, self.scope_counter)
    }

    /// Every scope opened so far, in order.
    pub closed spec fn scope_list(self) -> Seq<HirScope> {
        self.scopes@
    }

    /// Every symbol declared so far, in order.
    pub closed spec fn symbol_list(self) -> Seq<HirSymbol> {
        self.symbols@
    }

    /// `after` is `self` with one symbol declared in the current scope under
    /// `name`, of kind `kind` and type `value_type`, bound (for a variable) to
    /// `variable`.
    pub closed spec fn declares(
        self,
        after: Self,
        name: Seq<char>,
        kind: HirSymbolKind,
        value_type: Option<HirType>,
        span: SourceSpan,
        variable: Option<HirVariableId>,
    ) -> bool {
        let id = HirSymbolId(self.symbol_counter);
        &&& after.symbols@.len() == self.symbols@.len() + 1
        &&& forall|i: int| 0 <= i < self.symbols@.len() ==> #[trigger] after.symbols@[i] == self.symbols@[i]
        &&& after.symbols@.last().id == id
        &&& after.symbols@.last().name@ == name
        &&& after.symbols@.last().kind == kind
        &&& after.symbols@.last().scope_id == self.current_scope()
        &&& after.symbols@.last().value_type == value_type
        &&& after.symbols@.last().span == span
        &&& after.symbol_counter == self.symbol_counter.saturating_add(1)
        &&& scope_listed(self.scopes@, after.scopes@, self.current_scope(), id)
        &&& after.tables() == self.tables().update(
            self.tables().len() - 1,
            self.tables().last() + declared_entries(name, id, value_type, variable),
        )
        &&& after.function_counter == self.function_counter
        &&& after.variable_counter == self.variable_counter
        &&& after.scope_counter == self.scope_counter
        &&& after.scope_ids == self.scope_ids
    }

    pub fn new() -> (result: Self)
        ensures
            result.wf(),
            result.open_scopes() == seq![HirScopeId(0)],
            result.counters() == (0usize, 0usize, 0usize, 1usize),
            result.tables() == seq![Seq::<(Seq<char>, HirBinding)>::empty()],
            result.scope_list().len() == 1,
            result.scope_list()[0].id == HirScopeId(0),
            result.scope_list()[0].parent.is_none(),
            result.scope_list()[0].symbols@.len() == 0,
            result.symbol_list().len() == 0,
    {
        let root_scope = HirScopeId::new(0);
        let result = HirBuilder {
            function_counter: 0,
            variable_counter: 0,
            symbol_counter: 0,
            scope_counter: 1,
            scope_ids: vec![root_scope],
            bindings: vec![Vec::new()],
            scopes: vec![HirScope::new(root_scope, None)],
            symbols: Vec::new(),
        };
        assert(table_view(result.bindings@[0]@) =~= Seq::<(Seq<char>, HirBinding)>::empty());
        assert(result.tables() =~= seq![Seq::<(Seq<char>, HirBinding)>::empty()]);
        assert(result.open_scopes() =~= seq![HirScopeId(0)]);
        result
    }

    fn current_scope_id(&self) -> (result: HirScopeId)
        requires
            self.wf(),
        ensures
            result == self.current_scope(),
    {
        self.scope_ids[self.scope_ids.len() - 1]
    }

    fn next_function_id(&mut self) -> (result: HirFunctionId)
        ensures
            result == HirFunctionId(old(self).function_counter),
            *final(self) == (HirBuilder { function_counter: old(self).function_counter.saturating_add(1), ..*old(self) }),
    {
        let id = HirFunctionId::new(self.function_counter);
        self.function_counter = self.function_counter.saturating_add(1);
        id
    }

    fn next_variable_id(&mut self) -> (result: HirVariableId)
        ensures
            result == HirVariableId(old(self).variable_counter),
            *final(self) == (HirBuilder { variable_counter: old(self).variable_counter.saturating_add(1), ..*old(self) }),
    {
        let id = HirVariableId::new(self.variable_counter);
        self.variable_counter = self.variable_counter.saturating_add(1);
        id
    }

    /// Opens a scope inside the current one.
    fn enter_scope(&mut self) -> (result: HirScopeId)
        requires
            old(self).wf(),
        ensures
            final(self).wf(),
            result == HirScopeId(old(self).scope_counter),
            final(self).scope_counter == old(self).scope_counter.saturating_add(1),
            final(self).scope_ids@ == old(self).scope_ids@.push(result),
            final(self).tables() == old(self).tables().push(Seq::<(Seq<char>, HirBinding)>::empty()),
            final(self).scopes@ == old(self).scopes@.push(HirScope { id: result, parent: Some(old(self).current_scope()), symbols: final(self).scopes@.last().symbols }),
            final(self).scopes@.last().symbols@.len() == 0,
            final(self).symbols == old(self).symbols,
            final(self).function_counter == old(self).function_counter,
            final(self).variable_counter == old(self).variable_counter,
            final(self).symbol_counter == old(self).symbol_counter,
    {
        let parent = self.current_scope_id();
        let scope_id = HirScopeId::new(self.scope_counter);
        self.scope_counter = self.scope_counter.saturating_add(1);
        self.scope_ids.push(scope_id);
        self.bindings.push(Vec::new());
        self.scopes.push(HirScope::new(scope_id, Some(parent)));
        assert(table_view(self.bindings@.last()@) =~= Seq::<(Seq<char>, HirBinding)>::empty());
        assert(self.tables() =~= old(self).tables().push(Seq::<(Seq<char>, HirBinding)>::empty()));
        scope_id
    }

    /// Closes the innermost scope.
    fn exit_scope(&mut self)
        requires
            old(self).wf(),
            old(self).scope_ids@.len() >= 2,
        ensures
            final(self).wf(),
            final(self).scope_ids@ == old(self).scope_ids@.drop_last(),
            final(self).tables() == old(self).tables().drop_last(),
            final(self).scopes == old(self).scopes,
            final(self).symbols == old(self).symbols,
            final(self).counters() == old(self).counters(),
    {
        self.scope_ids.pop();
        self.bindings.pop();
        assert(self.tables() =~= old(self).tables().drop_last());
    }

    /// Lists `symbol` in the first scope with id `id`.
    fn list_in_scope(&mut self, id: HirScopeId, symbol: HirSymbolId)
        ensures
            scope_listed(old(self).scopes@, final(self).scopes@, id, symbol),
            *final(self) == (HirBuilder { scopes: final(self).scopes, ..*old(self) }),
    {
        let ghost before = self.scopes@;
        let mut k: usize = 0;
        while k < self.scopes.len() && self.scopes[k].id != id
            invariant
                k <= self.scopes@.len(),
                self.scopes@ == before,
                scope_position(before, id, 0) == scope_position(before, id, k as int),
            decreases self.scopes.len() - k,
        {
            k = k + 1;
        }
        if k < self.scopes.len() {
            let mut scope = self.scopes.remove(k);
            scope.symbols.push(symbol);
            self.scopes.insert(k, scope);
            assert(self.scopes@ =~= before.update(k as int, scope));
        } else {
            assert(self.scopes@ =~= before);
        }
    }

    /// Adds a binding to the innermost scope.
    fn bind(&mut self, name: String, binding: HirBinding)
        requires
            old(self).wf(),
        ensures
            final(self).wf(),
            final(self).tables() == old(self).tables().update(
                old(self).tables().len() - 1,
                old(self).tables().last().push((name@, binding)),
            ),
            *final(self) == (HirBuilder { bindings: final(self).bindings, ..*old(self) }),
    {
        let mut table = self.bindings.pop().unwrap();
        let ghost before = table@;
        table.push((name, binding));
        self.bindings.push(table);
        proof {
            assert(table_view(table@) =~= table_view(before).push((name@, binding)));
            assert(self.tables() =~= old(self).tables().update(
                old(self).tables().len() - 1,
                old(self).tables().last().push((name@, binding)),
            ));
        }
    }

    /// Declares `name` in the current scope.
    fn declare_symbol(&mut self, name: String, kind: HirSymbolKind, value_type: Option<HirType>, span: SourceSpan) -> (result: HirSymbolId)
        requires
            old(self).wf(),
        ensures
            final(self).wf(),
            result == HirSymbolId(old(self).symbol_counter),
            old(self).declares(*final(self), name@, kind, value_type, span, None),
    {
        let symbol_id = HirSymbolId::new(self.symbol_counter);
        self.symbol_counter = self.symbol_counter.saturating_add(1);
        let scope_id = self.current_scope_id();
        let symbol_name = name.clone();
        self.symbols.push(HirSymbol::new(symbol_id, symbol_name, kind, scope_id, value_type, span));
        self.list_in_scope(scope_id, symbol_id);
        self.bind(name, HirBinding { symbol_id, variable_id: None, value_type });
        assert(declared_entries(name@, symbol_id, value_type, None) =~= seq![(name@, HirBinding { symbol_id, variable_id: None, value_type })]);
        assert(old(self).tables().last().push((name@, HirBinding { symbol_id, variable_id: None, value_type }))
            =~= old(self).tables().last() + declared_entries(name@, symbol_id, value_type, None));
        symbol_id
    }

    /// Declares `name` in the current scope as the variable `variable_id`.
    fn declare_variable_symbol(
        &mut self,
        name: String,
        variable_id: HirVariableId,
        kind: HirSymbolKind,
        value_type: Option<HirType>,
        span: SourceSpan,
    ) -> (result: HirSymbolId)
        requires
            old(self).wf(),
        ensures
            final(self).wf(),
            result == HirSymbolId(old(self).symbol_counter),
            old(self).declares(*final(self), name@, kind, value_type, span, Some(variable_id)),
    {
        let ghost start = *self;
        let symbol_name = name.clone();
        let symbol_id = self.declare_symbol(symbol_name, kind, value_type, span);
        let ghost mid = *self;
        self.bind(name, HirBinding { symbol_id, variable_id: Some(variable_id), value_type });
        proof {
            let plain = HirBinding { symbol_id, variable_id: None, value_type };
            let bound = HirBinding { symbol_id, variable_id: Some(variable_id), value_type };
            assert(declared_entries(name@, symbol_id, value_type, None) =~= seq![(name@, plain)]);
            assert(mid.tables().len() == start.tables().len());
            assert(mid.tables().last() == start.tables().last() + declared_entries(name@, symbol_id, value_type, None));
            let combined = start.tables().last() + declared_entries(name@, symbol_id, value_type, Some(variable_id));
            assert(combined =~= mid.tables().last().push((name@, bound)));
            assert(self.tables() =~= start.tables().update(
                start.tables().len() - 1,
                start.tables().last() + declared_entries(name@, symbol_id, value_type, Some(variable_id)),
            ));
        }
        symbol_id
    }
}

impl HirBuilder {
    /// `self` with the next variable number taken.
    pub closed spec fn with_next_variable(self) -> Self {
        HirBuilder { variable_counter: self.variable_counter.saturating_add(1), ..self }
    }

    /// `self` with the next function number taken.
    pub closed spec fn with_next_function(self) -> Self {
        HirBuilder { function_counter: self.function_counter.saturating_add(1), ..self }
    }

    /// `after` is `self` with a scope opened inside the current one.
    pub closed spec fn enters(self, after: Self) -> bool {
        &&& after.scope_counter == self.scope_counter.saturating_add(1)
        &&& after.scope_ids@ == self.scope_ids@.push(HirScopeId(self.scope_counter))
        &&& after.tables() == self.tables().push(Seq::<(Seq<char>, HirBinding)>::empty())
        &&& after.scopes@.len() == self.scopes@.len() + 1
        &&& forall|i: int| 0 <= i < self.scopes@.len() ==> #[trigger] after.scopes@[i] == self.scopes@[i]
        &&& after.scopes@.last().id == HirScopeId(self.scope_counter)
        &&& after.scopes@.last().parent == Some(self.current_scope())
        &&& after.scopes@.last().symbols@.len() == 0
        &&& after.symbols == self.symbols
        &&& after.function_counter == self.function_counter
        &&& after.variable_counter == self.variable_counter
        &&& after.symbol_counter == self.symbol_counter
    }

    /// `after` is `self` with the innermost scope closed.
    pub closed spec fn exits(self, after: Self) -> bool {
        &&& after.scope_ids@ == self.scope_ids@.drop_last()
        &&& after.tables() == self.tables().drop_last()
        &&& after.scopes == self.scopes
        &&& after.symbols == self.symbols
        &&& after.counters() == self.counters()
    }

    /// How deep the scopes are nested.
    pub closed spec fn depth(self) -> nat {
        self.scope_ids@.len()
    }
}

/// The type an optional annotation names.
pub open spec fn annotated(t: Option<TypeExpression>) -> Option<HirType> {
    match t {
        Some(t) => Some(type_of_annotation(t)),
        None => None,
    }
}

/// How a `local` statement lowers: its first initializer is lowered with the
/// names in scope before it, then a variable is numbered and declared under
/// the first name (`_` without one) with the annotated type, or else the
/// initializer's type.
pub open spec fn local_lowered(
    names: Seq<(String, Option<TypeExpression>)>,
    initializers: Seq<Expression>,
    span: SourceSpan,
    kind: HirStatementKind,
    before: HirBuilder,
    after: HirBuilder,
) -> bool {
    let declared = if names.len() > 0 {
        annotated(names[0].1)
    } else {
        None
    };
    let name = if names.len() > 0 {
        names[0].0@
    } else {
        "_"@
    };
    kind matches HirStatementKind::LocalVariable { variable, initializer } && {
        &&& if initializers.len() > 0 {
            initializer matches Some(h) && expression_lowered(initializers[0], h, before.tables())
        } else {
            initializer.is_none()
        }
        &&& variable.var_type == match declared {
            Some(t) => Some(t),
            None => match initializer {
                Some(h) => h.expr_type,
                None => None,
            },
        }
        &&& variable.id == HirVariableId(before.counters().1)
        &&& variable.symbol_id == HirSymbolId(before.counters().2)
        &&& variable.name@ == name
        &&& variable.scope_id == before.current_scope()
        &&& variable.span == span
        &&& before.with_next_variable().declares(after, name, HirSymbolKind::Local, variable.var_type, span, Some(variable.id))
    }
}

/// How a statement lowers, from builder state `before` to `after`. Only a
/// `local` statement changes the state; a nested function definition
/// becomes an error statement.
pub open spec fn statement_lowered(ast: Statement, hir: HirStatement, before: HirBuilder, after: HirBuilder) -> bool {
    &&& hir.span == ast.span
    &&& match ast.kind {
        StatementKind::Local { names, initializers } => local_lowered(names@, initializers@, ast.span, hir.kind, before, after),
        _ => after == before && match ast.kind {
            StatementKind::Empty => hir.kind matches HirStatementKind::Block(v) && v@.len() == 0,
            StatementKind::Expression(e) => hir.kind matches HirStatementKind::Expression(h) && expression_lowered(e, h, before.tables()),
            StatementKind::Return(exprs) => match exprs {
                Some(es) => hir.kind matches HirStatementKind::Return(Some(hs)) && list_lowered(es@, hs@, before.tables()),
                None => hir.kind matches HirStatementKind::Return(None),
            },
            StatementKind::Assignment { targets, values, .. } => hir.kind matches HirStatementKind::Assignment { targets: t, values: v }
                && list_lowered(targets@, t@, before.tables()) && list_lowered(values@, v@, before.tables()),
            StatementKind::Break => hir.kind is Break,
            StatementKind::Continue => hir.kind is Continue,
            StatementKind::TypeAlias { .. } => hir.kind matches HirStatementKind::Block(v) && v@.len() == 0,
            _ => hir.kind is Error,
        },
    }
}

/// `hirs` are `asts` lowered one after another, through the builder states
/// `states`.
pub open spec fn statements_lowered(asts: Seq<Statement>, hirs: Seq<HirStatement>, states: Seq<HirBuilder>) -> bool {
    &&& hirs.len() == asts.len()
    &&& states.len() == asts.len() + 1
    &&& forall|i: int| 0 <= i < asts.len() ==> statement_lowered(asts[i], #[trigger] hirs[i], states[i], states[i + 1])
}

/// The local variables a statement declares, nested ones included, in order.
pub open spec fn statement_locals(statement: HirStatement) -> Seq<HirLocalVariable>
    decreases statement,
{
    match statement.kind {
        HirStatementKind::LocalVariable { variable, .. } => seq![variable],
        HirStatementKind::Block(statements) => statements_locals(statements@),
        HirStatementKind::If { then_block, else_block, .. } => statements_locals(then_block@) + match else_block {
            Some(e) => statements_locals(e@),
            None => seq![],
        },
        HirStatementKind::While { body, .. } => statements_locals(body@),
        HirStatementKind::RepeatUntil { body, .. } => statements_locals(body@),
        HirStatementKind::ForNumeric { body, .. } => statements_locals(body@),
        HirStatementKind::ForGeneric { body, .. } => statements_locals(body@),
        _ => seq![],
    }
}

/// The local variables a run of statements declares, in order.
pub open spec fn statements_locals(statements: Seq<HirStatement>) -> Seq<HirLocalVariable>
    decreases statements,
{
    if statements.len() == 0 {
        seq![]
    } else {
        statements_locals(statements.drop_last()) + statement_locals(statements.last())
    }
}

/// A statement returns, or holds a statement that does.
pub open spec fn statement_returns(statement: HirStatement) -> bool
    decreases statement,
{
    match statement.kind {
        HirStatementKind::Return(_) => true,
        HirStatementKind::Block(statements) => statements_return(statements@),
        HirStatementKind::If { then_block, else_block, .. } => statements_return(then_block@) || match else_block {
            Some(e) => statements_return(e@),
            None => false,
        },
        HirStatementKind::While { body, .. } => statements_return(body@),
        HirStatementKind::RepeatUntil { body, .. } => statements_return(body@),
        HirStatementKind::ForNumeric { body, .. } => statements_return(body@),
        HirStatementKind::ForGeneric { body, .. } => statements_return(body@),
        _ => false,
    }
}

/// Some statement of a run returns.
pub open spec fn statements_return(statements: Seq<HirStatement>) -> bool
    decreases statements,
{
    if statements.len() == 0 {
        false
    } else {
        statements_return(statements.drop_last()) || statement_returns(statements.last())
    }
}

/// `hirs` are the parameters `params` declared one after another in the
/// scope `scope`, through the builder states `states`.
pub open spec fn parameters_declared(
    params: Seq<(String, Option<TypeExpression>)>,
    hirs: Seq<HirParameter>,
    scope: HirScopeId,
    span: SourceSpan,
    states: Seq<HirBuilder>,
) -> bool {
    &&& hirs.len() == params.len()
    &&& states.len() == params.len() + 1
    &&& forall|i: int| 0 <= i < params.len() ==> {
        let p = #[trigger] hirs[i];
        &&& p.id == HirVariableId(states[i].counters().1)
        &&& p.symbol_id == HirSymbolId(states[i].counters().2)
        &&& p.name@ == params[i].0@
        &&& p.param_type == annotated(params[i].1)
        &&& p.scope_id == scope
        &&& p.span == span
        &&& states[i].with_next_variable().declares(states[i + 1], params[i].0@, HirSymbolKind::Parameter, p.param_type, span, Some(p.id))
    }
}

/// The stages of lowering a function definition: its symbol is declared,
/// a scope is opened, the parameters are declared, the body is lowered, the
/// scope is closed and the function is numbered.
pub open spec fn function_stages(
    name: Seq<char>,
    params: Seq<(String, Option<TypeExpression>)>,
    return_type: Option<TypeExpression>,
    body: Seq<Statement>,
    is_local: bool,
    span: SourceSpan,
    result: HirFunction,
    before: HirBuilder,
    declared: HirBuilder,
    opened: HirBuilder,
    param_states: Seq<HirBuilder>,
    body_states: Seq<HirBuilder>,
    after: HirBuilder,
) -> bool {
    &&& before.declares(declared, name, HirSymbolKind::Function, Some(HirType::Function), span, None)
    &&& declared.enters(opened)
    &&& parameters_declared(params, result.parameters@, result.scope_id, span, param_states)
    &&& param_states[0] == opened
    &&& statements_lowered(body, result.body@, body_states)
    &&& body_states[0] == param_states.last()
    &&& body_states.last().depth() == opened.depth()
    &&& exists|closed: HirBuilder| #[trigger] body_states.last().exits(closed) && after == closed.with_next_function()
        && result.id == HirFunctionId(closed.counters().0)
    &&& result.symbol_id == HirSymbolId(before.counters().2)
    &&& result.name@ == name
    &&& result.return_type == annotated(return_type)
    &&& result.scope_id == HirScopeId(declared.counters().3)
    &&& result.is_local == is_local
    &&& result.span == span
    &&& result.metadata.has_explicit_return == statements_return(result.body@)
    &&& result.local_variables@ == statements_locals(result.body@)
}

/// How a function definition lowers, from builder state `before` to `after`.
pub open spec fn function_lowered(
    name: Seq<char>,
    params: Seq<(String, Option<TypeExpression>)>,
    return_type: Option<TypeExpression>,
    body: Seq<Statement>,
    is_local: bool,
    span: SourceSpan,
    result: HirFunction,
    before: HirBuilder,
    after: HirBuilder,
) -> bool {
    exists|declared: HirBuilder, opened: HirBuilder, param_states: Seq<HirBuilder>, body_states: Seq<HirBuilder>|
        #[trigger] function_stages(name, params, return_type, body, is_local, span, result, before, declared, opened, param_states, body_states, after)
}

fn copy_local(variable: &HirLocalVariable) -> (result: HirLocalVariable)
    ensures
        result == *variable,
{
    HirLocalVariable {
        id: variable.id,
        symbol_id: variable.symbol_id,
        name: variable.name.clone(),
        var_type: variable.var_type,
        scope_id: variable.scope_id,
        span: variable.span,
    }
}

/// Appends the local variables a statement declares.
fn collect_statement_locals(statement: &HirStatement, out: &mut Vec<HirLocalVariable>)
    ensures
        final(out)@ == old(out)@ + statement_locals(*statement),
    decreases statement,
{
    match &statement.kind {
        HirStatementKind::LocalVariable { variable, .. } => {
            out.push(copy_local(variable));
            assert(final(out)@ =~= old(out)@ + statement_locals(*statement));
        },
        HirStatementKind::Block(statements) => collect_locals_into(statements, out),
        HirStatementKind::If { then_block, else_block, .. } => {
            collect_locals_into(then_block, out);
            match else_block {
                Some(e) => collect_locals_into(e, out),
                None => {},
            }
            assert(final(out)@ =~= old(out)@ + statement_locals(*statement));
        },
        HirStatementKind::While { body, .. } => collect_locals_into(body, out),
        HirStatementKind::RepeatUntil { body, .. } => collect_locals_into(body, out),
        HirStatementKind::ForNumeric { body, .. } => collect_locals_into(body, out),
        HirStatementKind::ForGeneric { body, .. } => collect_locals_into(body, out),
        _ => {
            assert(final(out)@ =~= old(out)@ + statement_locals(*statement));
        },
    }
}

/// Appends the local variables a run of statements declares.
fn collect_locals_into(statements: &Vec<HirStatement>, out: &mut Vec<HirLocalVariable>)
    ensures
        final(out)@ == old(out)@ + statements_locals(statements@),
    decreases statements,
{
    let ghost start = out@;
    let mut i: usize = 0;
    while i < statements.len()
        invariant
            i <= statements@.len(),
            out@ == start + statements_locals(statements@.subrange(0, i as int)),
        decreases statements.len() - i,
    {
        collect_statement_locals(&statements[i], out);
        proof {
            let run = statements@.subrange(0, i + 1);
            assert(run.drop_last() =~= statements@.subrange(0, i as int));
            assert(out@ =~= start + statements_locals(run));
        }
        i = i + 1;
    }
    assert(statements@.subrange(0, statements@.len() as int) =~= statements@);
}

/// The local variables a run of statements declares.
pub(crate) fn collect_local_variables(statements: &Vec<HirStatement>) -> (result: Vec<HirLocalVariable>)
    ensures
        result@ == statements_locals(statements@),
{
    let mut out: Vec<HirLocalVariable> = Vec::new();
    collect_locals_into(statements, &mut out);
    assert(out@ =~= statements_locals(statements@));
    out
}

/// Whether a statement returns, or holds a statement that does.
fn statement_contains_return(statement: &HirStatement) -> (result: bool)
    ensures
        result == statement_returns(*statement),
    decreases statement,
{
    match &statement.kind {
        HirStatementKind::Return(_) => true,
        HirStatementKind::Block(statements) => any_returns(statements),
        HirStatementKind::If { then_block, else_block, .. } => {
            if any_returns(then_block) {
                true
            } else {
                match else_block {
                    Some(e) => any_returns(e),
                    None => false,
                }
            }
        },
        HirStatementKind::While { body, .. } => any_returns(body),
        HirStatementKind::RepeatUntil { body, .. } => any_returns(body),
        HirStatementKind::ForNumeric { body, .. } => any_returns(body),
        HirStatementKind::ForGeneric { body, .. } => any_returns(body),
        _ => false,
    }
}

/// Whether some statement of a run returns.
pub(crate) fn any_returns(statements: &Vec<HirStatement>) -> (result: bool)
    ensures
        result == statements_return(statements@),
    decreases statements,
{
    let mut found = false;
    let mut i: usize = 0;
    while i < statements.len()
        invariant
            i <= statements@.len(),
            found == statements_return(statements@.subrange(0, i as int)),
        decreases statements.len() - i,
    {
        let r = statement_contains_return(&statements[i]);
        proof {
            let run = statements@.subrange(0, i + 1);
            assert(run.drop_last() =~= statements@.subrange(0, i as int));
        }
        found = found || r;
        i = i + 1;
    }
    assert(statements@.subrange(0, statements@.len() as int) =~= statements@);
    found
}

impl HirBuilder {
    /// Lowers one statement.
    fn lower_statement(&mut self, stmt: &Statement) -> (result: HirStatement)
        requires
            old(self).wf(),
        ensures
            final(self).wf(),
            final(self).depth() == old(self).depth(),
            statement_lowered(*stmt, result, *old(self), *final(self)),
    {
        let span = stmt.span;
        let kind = match &stmt.kind {
            StatementKind::Empty => HirStatementKind::Block(Vec::new()),
            StatementKind::Expression(e) => HirStatementKind::Expression(self.lower_expression(e)),
            StatementKind::Return(exprs) => match exprs {
                Some(es) => HirStatementKind::Return(Some(self.lower_list(es))),
                None => HirStatementKind::Return(None),
            },
            StatementKind::Break => HirStatementKind::Break,
            StatementKind::Continue => HirStatementKind::Continue,
            StatementKind::Local { names, initializers } => self.lower_local(names, initializers, span),
            StatementKind::Assignment { targets, values, .. } => {
                let t = self.lower_list(targets);
                let v = self.lower_list(values);
                HirStatementKind::Assignment { targets: t, values: v }
            },
            StatementKind::Function { .. } => HirStatementKind::Error,
            StatementKind::TypeAlias { .. } => HirStatementKind::Block(Vec::new()),
            StatementKind::Error => HirStatementKind::Error,
        };
        HirStatement { kind, span }
    }

    /// Lowers a `local` statement: its first initializer, then its first
    /// name declared as a new variable.
    fn lower_local(&mut self, names: &Vec<(String, Option<TypeExpression>)>, initializers: &Vec<Expression>, span: SourceSpan) -> (result: HirStatementKind)
        requires
            old(self).wf(),
        ensures
            final(self).wf(),
            final(self).depth() == old(self).depth(),
            local_lowered(names@, initializers@, span, result, *old(self), *final(self)),
    {
        let initializer = if initializers.len() > 0 {
            Some(self.lower_expression(&initializers[0]))
        } else {
            None
        };
        let declared_type = if names.len() > 0 {
            match &names[0].1 {
                Some(t) => Some(annotation_type(t)),
                None => None,
            }
        } else {
            None
        };
        let inferred_type = match declared_type {
            Some(t) => Some(t),
            None => match &initializer {
                Some(e) => e.expr_type,
                None => None,
            },
        };
        let variable_id = self.next_variable_id();
        let name = if names.len() > 0 {
            names[0].0.clone()
        } else {
            to_owned_string("_")
        };
        let symbol_id = self.declare_variable_symbol(name.clone(), variable_id, HirSymbolKind::Local, inferred_type, span);
        let scope_id = self.current_scope_id();
        let variable = HirLocalVariable { id: variable_id, symbol_id, name, var_type: inferred_type, scope_id, span };
        HirStatementKind::LocalVariable { variable, initializer }
    }

    /// Lowers statements one after another; gives back the builder states
    /// between them.
    fn lower_statements(&mut self, statements: &Vec<Statement>) -> (result: (Vec<HirStatement>, Ghost<Seq<HirBuilder>>))
        requires
            old(self).wf(),
        ensures
            final(self).wf(),
            final(self).depth() == old(self).depth(),
            statements_lowered(statements@, result.0@, result.1@),
            result.1@[0] == *old(self),
            result.1@.last() == *final(self),
    {
        let ghost mut states: Seq<HirBuilder> = seq![*self];
        let mut out: Vec<HirStatement> = Vec::new();
        let mut i: usize = 0;
        while i < statements.len()
            invariant
                i <= statements@.len(),
                self.wf(),
                self.depth() == old(self).depth(),
                states.len() == i + 1,
                states[0] == *old(self),
                states.last() == *self,
                statements_lowered(statements@.subrange(0, i as int), out@, states),
            decreases statements.len() - i,
        {
            let ghost before = *self;
            let lowered = self.lower_statement(&statements[i]);
            let ghost prev_states = states;
            let ghost prev_out = out@;
            out.push(lowered);
            proof {
                states = states.push(*self);
                let run = statements@.subrange(0, i + 1);
                assert forall|k: int| 0 <= k < run.len() implies statement_lowered(run[k], #[trigger] out@[k], states[k], states[k + 1]) by {
                    if k < i {
                        assert(out@[k] == prev_out[k]);
                        assert(statements@.subrange(0, i as int)[k] == run[k]);
                        assert(statement_lowered(statements@.subrange(0, i as int)[k], prev_out[k], prev_states[k], prev_states[k + 1]));
                    }
                }
            }
            i = i + 1;
        }
        assert(statements@.subrange(0, statements@.len() as int) =~= statements@);
        (out, Ghost(states))
    }

    /// Declares the parameters of a function in its scope `scope`; gives back
    /// the builder states between them.
    fn lower_parameters(&mut self, params: &Vec<(String, Option<TypeExpression>)>, scope: HirScopeId, span: SourceSpan) -> (result: (Vec<HirParameter>, Ghost<Seq<HirBuilder>>))
        requires
            old(self).wf(),
        ensures
            final(self).wf(),
            final(self).depth() == old(self).depth(),
            parameters_declared(params@, result.0@, scope, span, result.1@),
            result.1@[0] == *old(self),
            result.1@.last() == *final(self),
    {
        let ghost mut states: Seq<HirBuilder> = seq![*self];
        let mut out: Vec<HirParameter> = Vec::new();
        let mut i: usize = 0;
        while i < params.len()
            invariant
                i <= params@.len(),
                self.wf(),
                self.depth() == old(self).depth(),
                states.len() == i + 1,
                states[0] == *old(self),
                states.last() == *self,
                parameters_declared(params@.subrange(0, i as int), out@, scope, span, states),
            decreases params.len() - i,
        {
            let ghost before = *self;
            let param_type = match &params[i].1 {
                Some(t) => Some(annotation_type(t)),
                None => None,
            };
            let variable_id = self.next_variable_id();
            let symbol_id = self.declare_variable_symbol(params[i].0.clone(), variable_id, HirSymbolKind::Parameter, param_type, span);
            let ghost prev_states = states;
            let ghost prev_out = out@;
            out.push(HirParameter { id: variable_id, symbol_id, name: params[i].0.clone(), param_type, scope_id: scope, span });
            proof {
                states = states.push(*self);
                let run = params@.subrange(0, i + 1);
                assert forall|k: int| 0 <= k < run.len() implies {
                    let p = #[trigger] out@[k];
                    &&& p.id == HirVariableId(states[k].counters().1)
                    &&& p.symbol_id == HirSymbolId(states[k].counters().2)
                    &&& p.name@ == run[k].0@
                    &&& p.param_type == annotated(run[k].1)
                    &&& p.scope_id == scope
                    &&& p.span == span
                    &&& states[k].with_next_variable().declares(states[k + 1], run[k].0@, HirSymbolKind::Parameter, p.param_type, span, Some(p.id))
                } by {
                    if k < i {
                        assert(out@[k] == prev_out[k]);
                        assert(params@.subrange(0, i as int)[k] == run[k]);
                    }
                }
            }
            i = i + 1;
        }
        assert(params@.subrange(0, params@.len() as int) =~= params@);
        (out, Ghost(states))
    }

    /// Lowers a function definition: declares it, opens its scope, declares
    /// its parameters, lowers its body and closes the scope.
    fn lower_function(
        &mut self,
        name: &str,
        params: &Vec<(String, Option<TypeExpression>)>,
        return_type: &Option<TypeExpression>,
        body: &Vec<Statement>,
        is_local: bool,
        span: SourceSpan,
    ) -> (result: HirFunction)
        requires
            old(self).wf(),
        ensures
            final(self).wf(),
            final(self).depth() == old(self).depth(),
            function_lowered(name@, params@, *return_type, body@, is_local, span, result, *old(self), *final(self)),
    {
        let lowered_return = match return_type {
            Some(t) => Some(annotation_type(t)),
            None => None,
        };
        let ghost before = *self;
        let function_symbol = self.declare_symbol(to_owned_string(name), HirSymbolKind::Function, Some(HirType::Function), span);
        let ghost declared = *self;
        let function_scope = self.enter_scope();
        let ghost opened = *self;
        let (parameters, param_states) = self.lower_parameters(params, function_scope, span);
        let (function_body, body_states) = self.lower_statements(body);
        self.exit_scope();
        let ghost closed = *self;
        let has_explicit_return = any_returns(&function_body);
        let local_variables = collect_local_variables(&function_body);
        let id = self.next_function_id();
        let result = HirFunction {
            id,
            symbol_id: function_symbol,
            name: to_owned_string(name),
            parameters,
            local_variables,
            body: function_body,
            return_type: lowered_return,
            scope_id: function_scope,
            is_local,
            metadata: HirFunctionMetadata { has_explicit_return },
            span,
        };
        proof {
            assert(body_states@.last().exits(closed));
            assert(function_stages(name@, params@, *return_type, body@, is_local, span, result, before, declared, opened, param_states@, body_states@, *self));
        }
        result
    }
}

/// One top-level statement after lowering: a function, or a statement.
pub type LoweredItem = (Option<HirFunction>, Option<HirStatement>);

/// How a top-level statement lowers: a function definition to a function,
/// anything else to a statement.
pub open spec fn item_lowered(ast: Statement, item: LoweredItem, before: HirBuilder, after: HirBuilder) -> bool {
    match ast.kind {
        StatementKind::Function { name, params, return_type, body, is_local, .. } => {
            &&& item.1.is_none()
            &&& item.0 matches Some(f) && function_lowered(name@, params@, return_type, body@, is_local, ast.span, f, before, after)
        },
        _ => {
            &&& item.0.is_none()
            &&& item.1 matches Some(st) && statement_lowered(ast, st, before, after)
        },
    }
}

/// `items` are the top-level statements `asts` lowered one after another,
/// through the builder states `states`.
pub open spec fn items_lowered(asts: Seq<Statement>, items: Seq<LoweredItem>, states: Seq<HirBuilder>) -> bool {
    &&& items.len() == asts.len()
    &&& states.len() == asts.len() + 1
    &&& forall|i: int| 0 <= i < asts.len() ==> item_lowered(asts[i], #[trigger] items[i], states[i], states[i + 1])
}

/// The functions among the items, in order.
pub open spec fn item_functions(items: Seq<LoweredItem>) -> Seq<HirFunction>
    decreases items.len(),
{
    if items.len() == 0 {
        seq![]
    } else {
        item_functions(items.drop_last()) + match items.last().0 {
            Some(f) => seq![f],
            None => seq![],
        }
    }
}

/// A statement that does nothing: an empty block.
pub open spec fn is_empty_block(statement: HirStatement) -> bool {
    statement.kind matches HirStatementKind::Block(v) && v@.len() == 0
}

/// The statements among the items that do something, in order.
pub open spec fn item_entries(items: Seq<LoweredItem>) -> Seq<HirStatement>
    decreases items.len(),
{
    if items.len() == 0 {
        seq![]
    } else {
        item_entries(items.drop_last()) + match items.last().1 {
            Some(st) => if is_empty_block(st) {
                seq![]
            } else {
                seq![st]
            },
            None => seq![],
        }
    }
}

/// Some function is called `main`.
pub open spec fn has_main(functions: Seq<HirFunction>) -> bool {
    exists|i: int| 0 <= i < functions.len() && (#[trigger] functions[i]).name@ == "main"@
}

/// The function made of the top-level statements: `main`, numbered and
/// declared after everything else, without parameters, in the root scope.
pub open spec fn entry_function(f: HirFunction, entry: Seq<HirStatement>, last: HirBuilder, declared: HirBuilder, span: SourceSpan) -> bool {
    &&& f.id == HirFunctionId(declared.counters().0)
    &&& f.symbol_id == HirSymbolId(last.counters().2)
    &&& f.name@ == "main"@
    &&& f.parameters@.len() == 0
    &&& f.local_variables@ == statements_locals(entry)
    &&& f.body@ == entry
    &&& f.return_type.is_none()
    &&& f.scope_id == declared.current_scope()
    &&& !f.is_local
    &&& !f.metadata.has_explicit_return
    &&& f.span == span
}

/// `copy` lists the same scopes as `scopes`.
pub open spec fn scopes_copied(copy: Seq<HirScope>, scopes: Seq<HirScope>) -> bool {
    &&& copy.len() == scopes.len()
    &&& forall|i: int| 0 <= i < scopes.len() ==> {
        &&& (#[trigger] copy[i]).id == scopes[i].id
        &&& copy[i].parent == scopes[i].parent
        &&& copy[i].symbols@ == scopes[i].symbols@
    }
}

/// The stages of lowering a program: the top-level statements one after
/// another; then, when some statement does something and no function is
/// called `main`, a `main` function made of those statements; then the
/// scopes and symbols copied into the module.
pub open spec fn program_stages(
    program: Program,
    module: HirModule,
    before: HirBuilder,
    after: HirBuilder,
    items: Seq<LoweredItem>,
    states: Seq<HirBuilder>,
) -> bool {
    let functions = item_functions(items);
    let entry = item_entries(items);
    let last = states.last();
    &&& items_lowered(program.statements@, items, states)
    &&& states[0] == before
    &&& module.name@ == "main"@
    &&& module.span == program.span
    &&& module.metadata.root_scope == Some(before.current_scope())
    &&& module.global_variables@.len() == 0
    &&& module.type_aliases@.len() == 0
    &&& if entry.len() > 0 && !has_main(functions) {
        &&& module.functions@.len() == functions.len() + 1
        &&& module.functions@.drop_last() == functions
        &&& exists|declared: HirBuilder| #[trigger] last.declares(declared, "main"@, HirSymbolKind::Function, None, program.span, None)
            && after == declared.with_next_function() && entry_function(module.functions@.last(), entry, last, declared, program.span)
    } else {
        &&& after == last
        &&& module.functions@ == functions
    }
    &&& scopes_copied(module.scopes@, after.scope_list())
    &&& module.symbols@ == after.symbol_list()
}

/// How a program lowers to a module, from builder state `before` to
/// `after`.
pub open spec fn program_lowered(program: Program, module: HirModule, before: HirBuilder, after: HirBuilder) -> bool {
    exists|items: Seq<LoweredItem>, states: Seq<HirBuilder>| #[trigger] program_stages(program, module, before, after, items, states)
}

fn copy_symbol(symbol: &HirSymbol) -> (result: HirSymbol)
    ensures
        result == *symbol,
{
    HirSymbol {
        id: symbol.id,
        name: symbol.name.clone(),
        kind: symbol.kind,
        scope_id: symbol.scope_id,
        value_type: symbol.value_type,
        span: symbol.span,
    }
}

fn copy_symbols(symbols: &Vec<HirSymbol>) -> (result: Vec<HirSymbol>)
    ensures
        result@ == symbols@,
{
    let mut out: Vec<HirSymbol> = Vec::new();
    let mut i: usize = 0;
    while i < symbols.len()
        invariant
            i <= symbols@.len(),
            out@ == symbols@.subrange(0, i as int),
        decreases symbols.len() - i,
    {
        out.push(copy_symbol(&symbols[i]));
        i = i + 1;
        assert(out@ =~= symbols@.subrange(0, i as int));
    }
    assert(symbols@.subrange(0, symbols@.len() as int) =~= symbols@);
    out
}

fn copy_symbol_ids(ids: &Vec<HirSymbolId>) -> (result: Vec<HirSymbolId>)
    ensures
        result@ == ids@,
{
    let mut out: Vec<HirSymbolId> = Vec::new();
    let mut i: usize = 0;
    while i < ids.len()
        invariant
            i <= ids@.len(),
            out@ == ids@.subrange(0, i as int),
        decreases ids.len() - i,
    {
        out.push(ids[i]);
        i = i + 1;
        assert(out@ =~= ids@.subrange(0, i as int));
    }
    assert(ids@.subrange(0, ids@.len() as int) =~= ids@);
    out
}

fn copy_scopes(scopes: &Vec<HirScope>) -> (result: Vec<HirScope>)
    ensures
        scopes_copied(result@, scopes@),
{
    let mut out: Vec<HirScope> = Vec::new();
    let mut i: usize = 0;
    while i < scopes.len()
        invariant
            i <= scopes@.len(),
            scopes_copied(out@, scopes@.subrange(0, i as int)),
        decreases scopes.len() - i,
    {
        let scope = HirScope { id: scopes[i].id, parent: scopes[i].parent, symbols: copy_symbol_ids(&scopes[i].symbols) };
        out.push(scope);
        i = i + 1;
        proof {
            assert forall|k: int| 0 <= k < i implies {
                &&& (#[trigger] out@[k]).id == scopes@.subrange(0, i as int)[k].id
                &&& out@[k].parent == scopes@.subrange(0, i as int)[k].parent
                &&& out@[k].symbols@ == scopes@.subrange(0, i as int)[k].symbols@
            } by {
                if k < i - 1 {
                    assert(scopes@.subrange(0, i - 1)[k] == scopes@.subrange(0, i as int)[k]);
                }
            }
        }
    }
    assert(scopes@.subrange(0, scopes@.len() as int) =~= scopes@);
    out
}

/// Whether some function is called `main`.
fn has_main_function(functions: &Vec<HirFunction>) -> (result: bool)
    ensures
        result == has_main(functions@),
{
    let mut i: usize = 0;
    while i < functions.len()
        invariant
            i <= functions@.len(),
            forall|k: int| 0 <= k < i ==> (#[trigger] functions@[k]).name@ != "main"@,
        decreases functions.len() - i,
    {
        if str_eq(functions[i].name.as_str(), "main") {
            return true;
        }
        i = i + 1;
    }
    false
}

impl HirBuilder {
    /// Lowers the top-level statements of a program into a module.
    fn lower_program(&mut self, program: &Program) -> (result: HirModule)
        requires
            old(self).wf(),
        ensures
            final(self).wf(),
            final(self).depth() == old(self).depth(),
            program_lowered(*program, result, *old(self), *final(self)),
    {
        let mut module = HirModule::new(to_owned_string("main"), program.span);
        module.metadata.root_scope = Some(self.current_scope_id());
        let mut functions: Vec<HirFunction> = Vec::new();
        let mut entry: Vec<HirStatement> = Vec::new();
        let ghost mut items: Seq<LoweredItem> = seq![];
        let ghost mut states: Seq<HirBuilder> = seq![*self];
        let statements = &program.statements;
        let mut i: usize = 0;
        while i < statements.len()
            invariant
                i <= statements@.len(),
                statements@ == program.statements@,
                self.wf(),
                self.depth() == old(self).depth(),
                states.len() == i + 1,
                states[0] == *old(self),
                states.last() == *self,
                items_lowered(statements@.subrange(0, i as int), items, states),
                functions@ == item_functions(items),
                entry@ == item_entries(items),
                module.name@ == "main"@,
                module.span == program.span,
                module.metadata.root_scope == Some(old(self).current_scope()),
                module.global_variables@.len() == 0,
                module.type_aliases@.len() == 0,
            decreases statements.len() - i,
        {
            let statement = &statements[i];
            let ghost prev_items = items;
            let ghost prev_states = states;
            let ghost item: LoweredItem;
            match &statement.kind {
                StatementKind::Function { name, params, return_type, body, is_local, .. } => {
                    let f = self.lower_function(name.as_str(), params, return_type, body, *is_local, statement.span);
                    proof {
                        item = (Some(f), None);
                    }
                    functions.push(f);
                },
                _ => {
                    let lowered = self.lower_statement(statement);
                    let empty = match &lowered.kind {
                        HirStatementKind::Block(v) => v.len() == 0,
                        _ => false,
                    };
                    proof {
                        item = (None, Some(lowered));
                    }
                    if !empty {
                        entry.push(lowered);
                    }
                },
            }
            proof {
                items = items.push(item);
                states = states.push(*self);
                assert(items.drop_last() =~= prev_items);
                let run = statements@.subrange(0, i + 1);
                assert forall|k: int| 0 <= k < run.len() implies item_lowered(run[k], #[trigger] items[k], states[k], states[k + 1]) by {
                    if k < i {
                        assert(items[k] == prev_items[k]);
                        assert(statements@.subrange(0, i as int)[k] == run[k]);
                        assert(item_lowered(statements@.subrange(0, i as int)[k], prev_items[k], prev_states[k], prev_states[k + 1]));
                    }
                }
                assert(functions@ =~= item_functions(items));
                assert(entry@ =~= item_entries(items));
            }
            i = i + 1;
        }
        assert(statements@.subrange(0, statements@.len() as int) =~= statements@);
        let ghost last = *self;
        let ghost listed = functions@;
        let ghost entry_view = entry@;
        if entry.len() > 0 && !has_main_function(&functions) {
            let main_symbol = self.declare_symbol(to_owned_string("main"), HirSymbolKind::Function, None, program.span);
            let ghost declared = *self;
            let id = self.next_function_id();
            let local_variables = collect_local_variables(&entry);
            let scope_id = self.current_scope_id();
            let main = HirFunction {
                id,
                symbol_id: main_symbol,
                name: to_owned_string("main"),
                parameters: Vec::new(),
                local_variables,
                body: entry,
                return_type: None,
                scope_id,
                is_local: false,
                metadata: HirFunctionMetadata { has_explicit_return: false },
                span: program.span,
            };
            proof {
                assert(entry_function(main, entry_view, last, declared, program.span));
            }
            functions.push(main);
            assert(functions@.drop_last() =~= listed);
        }
        module.functions = functions;
        module.scopes = copy_scopes(&self.scopes);
        module.symbols = copy_symbols(&self.symbols);
        proof {
            assert(program_stages(*program, module, *old(self), *self, items, states));
        }
        module
    }

    /// Lowers a program; anything but a program is refused.
    pub fn build(&mut self, ast: &AstNode) -> (result: Result<HirModule, HirError>)
        requires
            old(self).wf(),
        ensures
            final(self).wf(),
            match ast {
                AstNode::Program(program) => result matches Ok(module) && program_lowered(*program, module, *old(self), *final(self)),
                _ => result matches Err(HirError::InvalidInput(message)) && message@ == "Expected program node"@
                    && *final(self) == *old(self),
            },
    {
        match ast {
            AstNode::Program(program) => Ok(self.lower_program(program)),
            _ => Err(HirError::InvalidInput(to_owned_string("Expected program node"))),
        }
    }
}

} // verus!
