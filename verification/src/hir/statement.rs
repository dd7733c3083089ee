//! Statements of the high-level representation.
use vstd::prelude::*;

use crate::hir::expression::HirExpression;
use crate::hir::function::HirFunction;
use crate::hir::ids::{HirScopeId, HirSymbolId, HirVariableId};
use crate::hir::types::HirType;
use crate::source::SourceSpan;

verus! {

/// A statement with its source position.
#[derive(Debug)]
pub struct HirStatement {
    pub kind: HirStatementKind,
    pub span: SourceSpan,
}

/// What a statement does.
#[derive(Debug)]
pub enum HirStatementKind {
    LocalVariable { variable: HirLocalVariable, initializer: Option<HirExpression> },
    Assignment { targets: Vec<HirExpression>, values: Vec<HirExpression> },
    Expression(HirExpression),
    Return(Option<Vec<HirExpression>>),
    Block(Vec<HirStatement>),
    If { condition: HirExpression, then_block: Vec<HirStatement>, else_block: Option<Vec<HirStatement>> },
    While { condition: HirExpression, body: Vec<HirStatement> },
    RepeatUntil { body: Vec<HirStatement>, condition: HirExpression },
    ForNumeric {
        variable: HirLocalVariable,
        start: HirExpression,
        end: HirExpression,
        step: Option<HirExpression>,
        body: Vec<HirStatement>,
    },
    ForGeneric { variables: Vec<HirLocalVariable>, iterables: Vec<HirExpression>, body: Vec<HirStatement> },
    Break,
    Continue,
    Function { function: HirFunction },
    Error,
}

/// A local variable: its id, the symbol that declares it, its name, its type
/// (when known), its scope and where it was declared.
#[derive(Debug, Clone)]
pub struct HirLocalVariable {
    pub id: HirVariableId,
    pub symbol_id: HirSymbolId,
    pub name: String,
    pub var_type: Option<HirType>,
    pub scope_id: HirScopeId,
    pub span: SourceSpan,
}

} // verus!
