//! The syntax tree built by the parser.
use vstd::prelude::*;

use crate::source::SourceSpan;

verus! {

/// A whole source file.
#[derive(Debug, PartialEq, Eq)]
pub struct Program {
    pub statements: Vec<Statement>,
    pub span: SourceSpan,
}

#[derive(Debug, PartialEq, Eq)]
pub struct Statement {
    pub kind: StatementKind,
    pub span: SourceSpan,
}

#[derive(Debug, PartialEq, Eq)]
pub enum StatementKind {
    Empty,
    Expression(Expression),
    Return(Option<Vec<Expression>>),
    Local { names: Vec<(String, Option<TypeExpression>)>, initializers: Vec<Expression> },
    Assignment { targets: Vec<Expression>, values: Vec<Expression>, operator: String },
    Function {
        name: String,
        receiver: Option<String>,
        params: Vec<(String, Option<TypeExpression>)>,
        return_type: Option<TypeExpression>,
        body: Vec<Statement>,
        is_local: bool,
    },
    TypeAlias { name: String, alias: TypeExpression },
    Break,
    Continue,
    Error,
}

#[derive(Debug, PartialEq, Eq)]
pub struct Expression {
    pub kind: ExpressionKind,
    pub span: SourceSpan,
}

#[derive(Debug, PartialEq, Eq)]
pub enum ExpressionKind {
    Identifier(String),
    NumberLiteral(String),
    StringLiteral(String),
    InterpolatedString(Vec<InterpolatedStringPart>),
    BooleanLiteral(bool),
    Nil,
    Unary { operator: String, operand: Box<Expression> },
    Binary { left: Box<Expression>, operator: String, right: Box<Expression> },
    Call { callee: Box<Expression>, arguments: Vec<Expression> },
    MethodCall { receiver: Box<Expression>, method: String, arguments: Vec<Expression> },
    MemberAccess { object: Box<Expression>, property: String },
    Index { object: Box<Expression>, index: Box<Expression> },
    TableConstructor(Vec<TableField>),
    Error,
}

/// A piece of an interpolated string: literal text or an embedded expression.
#[derive(Debug, PartialEq, Eq)]
pub enum InterpolatedStringPart {
    Text(String),
    Expression(Expression),
}

/// One entry of a table constructor.
#[derive(Debug, PartialEq, Eq)]
pub enum TableField {
    Named { key: String, value: Expression },
    Indexed { key: Expression, value: Expression },
    Expression(Expression),
}

/// A type annotation.
#[derive(Debug, PartialEq, Eq)]
pub struct TypeExpression {
    pub kind: TypeExpressionKind,
    pub span: SourceSpan,
}

#[derive(Debug, PartialEq, Eq)]
pub enum TypeExpressionKind {
    Named(String),
    Union(Vec<TypeExpression>),
    Intersection(Vec<TypeExpression>),
    Optional(Box<TypeExpression>),
    Parenthesized(Box<TypeExpression>),
    Tuple(Vec<TypeExpression>),
    Function { params: Vec<TypeExpression>, return_type: Box<TypeExpression> },
    Table(Vec<(String, TypeExpression, SourceSpan)>),
    Array(Box<TypeExpression>),
    Variadic(Box<TypeExpression>),
}

#[derive(Debug, PartialEq, Eq)]
pub enum AstNode {
    Program(Program),
    Statement(Statement),
    Expression(Expression),
    Error,
}

pub fn make_program(statements: Vec<Statement>, span: SourceSpan) -> (result: AstNode)
    ensures
        result == AstNode::Program(Program { statements, span }),
{
    AstNode::Program(Program { statements, span })
}

} // verus!
