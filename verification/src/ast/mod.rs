//! Placeholder syntax nodes that stand for parts of a program that failed
//! to parse.
use vstd::prelude::*;

verus! {

#[derive(Debug, Default)]
pub struct AstStage;

#[derive(Debug, Clone, PartialEq, Eq)]
pub enum Expression {
    Error(ErrorExpression),
}

#[derive(Debug, Clone, PartialEq, Eq)]
pub enum Statement {
    Error(ErrorStatement),
}

#[derive(Debug, Clone, Copy, PartialEq, Eq, Structural)]
pub struct ErrorExpression;

#[derive(Debug, Clone, Copy, PartialEq, Eq, Structural)]
pub struct ErrorStatement;

} // verus!
