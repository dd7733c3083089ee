//! Modules of the high-level representation.
use vstd::prelude::*;

use crate::hir::expression::HirExpression;
use crate::hir::function::HirFunction;
use crate::hir::ids::{HirScopeId, HirSymbolId};
use crate::hir::symbol::{HirScope, HirSymbol};
use crate::hir::types::HirType;
use crate::source::SourceSpan;

verus! {

/// A lowered program: its functions, globals, type aliases, scopes and
/// symbols.
#[derive(Debug)]
pub struct HirModule {
    pub name: String,
    pub functions: Vec<HirFunction>,
    pub global_variables: Vec<HirGlobalVariable>,
    pub type_aliases: Vec<HirTypeAlias>,
    pub scopes: Vec<HirScope>,
    pub symbols: Vec<HirSymbol>,
    pub metadata: HirModuleMetadata,
    pub span: SourceSpan,
}

impl HirModule {
    pub fn new(name: String, span: SourceSpan) -> (result: Self)
        ensures
            result.name == name,
            result.span == span,
            result.functions@.len() == 0,
            result.global_variables@.len() == 0,
            result.type_aliases@.len() == 0,
            result.scopes@.len() == 0,
            result.symbols@.len() == 0,
            result.metadata.root_scope.is_none(),
    {
        HirModule {
            name,
            functions: Vec::new(),
            global_variables: Vec::new(),
            type_aliases: Vec::new(),
            scopes: Vec::new(),
            symbols: Vec::new(),
            metadata: HirModuleMetadata::default(),
            span,
        }
    }
}

/// A global variable.
#[derive(Debug)]
pub struct HirGlobalVariable {
    pub symbol_id: HirSymbolId,
    pub name: String,
    pub var_type: Option<HirType>,
    pub initializer: Option<HirExpression>,
    pub scope_id: HirScopeId,
    pub span: SourceSpan,
}

/// A named type.
#[derive(Debug, Clone)]
pub struct HirTypeAlias {
    pub symbol_id: HirSymbolId,
    pub name: String,
    pub alias: HirType,
    pub scope_id: HirScopeId,
    pub span: SourceSpan,
}

/// What is known of a module beyond its items.
#[derive(Debug, Clone, Copy, PartialEq, Eq, Structural)]
pub struct HirModuleMetadata {
    pub root_scope: Option<HirScopeId>,
}

impl Default for HirModuleMetadata {
    fn default() -> (result: Self)
        ensures
            result.root_scope.is_none(),
    {
        HirModuleMetadata { root_scope: None }
    }
}

} // verus!
