//! Declared names and the scopes that hold them.
use vstd::prelude::*;

use crate::hir::ids::{HirScopeId, HirSymbolId};
use crate::hir::types::HirType;
use crate::source::SourceSpan;

verus! {

/// What a name was declared as.
#[derive(Debug, Clone, Copy, PartialEq, Eq, Structural)]
pub enum HirSymbolKind {
    BuiltinFunction,
    Constant,
    Function,
    Global,
    Local,
    Module,
    NativeFunction,
    Parameter,
    Type,
}

/// One declared name.
#[derive(Debug, Clone)]
pub struct HirSymbol {
    pub id: HirSymbolId,
    pub name: String,
    pub kind: HirSymbolKind,
    pub scope_id: HirScopeId,
    pub value_type: Option<HirType>,
    pub span: SourceSpan,
}

impl HirSymbol {
    pub fn new(
        id: HirSymbolId,
        name: String,
        kind: HirSymbolKind,
        scope_id: HirScopeId,
        value_type: Option<HirType>,
        span: SourceSpan,
    ) -> (result: Self)
        ensures
            result.id == id,
            result.name == name,
            result.kind == kind,
            result.scope_id == scope_id,
            result.value_type == value_type,
            result.span == span,
    {
        HirSymbol { id, name, kind, scope_id, value_type, span }
    }
}

/// A lexical scope: its parent and the symbols declared in it, in order.
#[derive(Debug, Clone)]
pub struct HirScope {
    pub id: HirScopeId,
    pub parent: Option<HirScopeId>,
    pub symbols: Vec<HirSymbolId>,
}

impl HirScope {
    pub fn new(id: HirScopeId, parent: Option<HirScopeId>) -> (result: Self)
        ensures
            result.id == id,
            result.parent == parent,
            result.symbols@.len() == 0,
    {
        HirScope { id, parent, symbols: Vec::new() }
    }
}

} // verus!
