//! Expressions of the high-level representation.
use vstd::prelude::*;

use crate::hir::ids::{HirSymbolId, HirVariableId};
use crate::hir::types::{HirBinaryOperator, HirBuiltinFunction, HirType, HirUnaryOperator};
use crate::source::SourceSpan;

verus! {

/// An expression with its type (when known), the symbol it names (when it
/// names one) and its source position.
#[derive(Debug)]
pub struct HirExpression {
    pub kind: HirExpressionKind,
    pub expr_type: Option<HirType>,
    pub symbol_id: Option<HirSymbolId>,
    pub span: SourceSpan,
}

/// What an expression computes. A number is kept as the text of its
/// literal; its value as a double is read from that text where it is
/// needed.
#[derive(Debug)]
pub enum HirExpressionKind {
    Nil,
    Boolean(bool),
    Number(String),
    String(String),
    LocalVariable(HirVariableId),
    GlobalVariable(String),
    Unary { operator: HirUnaryOperator, operand: Box<HirExpression> },
    Binary { left: Box<HirExpression>, operator: HirBinaryOperator, right: Box<HirExpression> },
    TableConstructor(Vec<HirTableField>),
    Index { object: Box<HirExpression>, index: Box<HirExpression> },
    FieldAccess { object: Box<HirExpression>, field: String },
    FunctionCall { callee: Box<HirExpression>, arguments: Vec<HirExpression> },
    MethodCall { receiver: Box<HirExpression>, method: String, arguments: Vec<HirExpression> },
    ClosurePlaceholder,
    BuiltinCall { function: HirBuiltinFunction, arguments: Vec<HirExpression> },
    Error,
}

/// One entry of a table constructor.
#[derive(Debug)]
pub enum HirTableField {
    Named { key: String, value: HirExpression },
    Indexed { key: HirExpression, value: HirExpression },
    Expression(HirExpression),
}

} // verus!
