//! Identifiers of the high-level representation.
use vstd::prelude::*;

verus! {

/// Names one function of a module.
#[derive(Debug, Clone, Copy, PartialEq, Eq, Hash, Structural)]
pub struct HirFunctionId(pub usize);

impl HirFunctionId {
    pub fn new(id: usize) -> (result: Self)
        ensures
            result.0 == id,
    {
        HirFunctionId(id)
    }
}

/// Names one local variable or parameter.
#[derive(Debug, Clone, Copy, PartialEq, Eq, Hash, Structural)]
pub struct HirVariableId(pub usize);

impl HirVariableId {
    pub fn new(id: usize) -> (result: Self)
        ensures
            result.0 == id,
    {
        HirVariableId(id)
    }
}

/// Names one declared symbol.
#[derive(Debug, Clone, Copy, PartialEq, Eq, Hash, Structural)]
pub struct HirSymbolId(pub usize);

impl HirSymbolId {
    pub fn new(id: usize) -> (result: Self)
        ensures
            result.0 == id,
    {
        HirSymbolId(id)
    }
}

/// Names one lexical scope.
#[derive(Debug, Clone, Copy, PartialEq, Eq, Hash, Structural)]
pub struct HirScopeId(pub usize);

impl HirScopeId {
    pub fn new(id: usize) -> (result: Self)
        ensures
            result.0 == id,
    {
        HirScopeId(id)
    }
}

} // verus!
