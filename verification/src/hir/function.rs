//! Functions of the high-level representation.
use vstd::prelude::*;

use crate::hir::ids::{HirFunctionId, HirScopeId, HirSymbolId, HirVariableId};
use crate::hir::statement::{HirLocalVariable, HirStatement};
use crate::hir::types::HirType;
use crate::source::SourceSpan;

verus! {

/// A function: its parameters, the local variables its body declares, its
/// body, and the scope it opens.
#[derive(Debug)]
pub struct HirFunction {
    pub id: HirFunctionId,
    pub symbol_id: HirSymbolId,
    pub name: String,
    pub parameters: Vec<HirParameter>,
    pub local_variables: Vec<HirLocalVariable>,
    pub body: Vec<HirStatement>,
    pub return_type: Option<HirType>,
    pub scope_id: HirScopeId,
    pub is_local: bool,
    pub metadata: HirFunctionMetadata,
    pub span: SourceSpan,
}

/// A parameter of a function.
#[derive(Debug, Clone)]
pub struct HirParameter {
    pub id: HirVariableId,
    pub symbol_id: HirSymbolId,
    pub name: String,
    pub param_type: Option<HirType>,
    pub scope_id: HirScopeId,
    pub span: SourceSpan,
}

/// What is known of a function beyond its signature.
#[derive(Debug, Clone, Copy, PartialEq, Eq, Structural)]
pub struct HirFunctionMetadata {
    pub has_explicit_return: bool,
}

impl Default for HirFunctionMetadata {
    fn default() -> (result: Self)
        ensures
            !result.has_explicit_return,
    {
        HirFunctionMetadata { has_explicit_return: false }
    }
}

} // verus!
