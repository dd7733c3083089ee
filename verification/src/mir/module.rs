//! Modules of the mid-level representation.
use vstd::prelude::*;

use crate::mir::function::MirFunction;
use crate::mir::value::{MirConstant, MirGlobal};
use crate::source::SourceSpan;

verus! {

/// A compiled module: its functions, globals and constants.
#[derive(Debug, Clone)]
pub struct MirModule {
    pub name: String,
    pub functions: Vec<MirFunction>,
    pub globals: Vec<MirGlobal>,
    pub constants: Vec<MirConstant>,
    pub metadata: MirModuleMetadata,
}

#[derive(Debug, Clone)]
pub struct MirModuleMetadata {
    pub span: Option<SourceSpan>,
    pub root_scope: Option<usize>,
}

impl Default for MirModuleMetadata {
    fn default() -> (result: Self)
        ensures
            result.span.is_none(),
            result.root_scope.is_none(),
    {
        MirModuleMetadata { span: None, root_scope: None }
    }
}

impl MirModule {
    pub fn new(name: String) -> (result: Self)
        ensures
            result.name == name,
            result.functions@.len() == 0,
            result.globals@.len() == 0,
            result.constants@.len() == 0,
            result.metadata.span.is_none(),
            result.metadata.root_scope.is_none(),
    {
        MirModule {
            name,
            functions: Vec::new(),
            globals: Vec::new(),
            constants: Vec::new(),
            metadata: MirModuleMetadata::default(),
        }
    }

    pub fn add_function(&mut self, function: MirFunction)
        ensures
            final(self).name == old(self).name,
            final(self).functions@ == old(self).functions@.push(function),
            final(self).globals@ == old(self).globals@,
            final(self).constants@ == old(self).constants@,
            final(self).metadata == old(self).metadata,
    {
        self.functions.push(function);
    }

    pub fn add_global(&mut self, global: MirGlobal)
        ensures
            final(self).name == old(self).name,
            final(self).functions@ == old(self).functions@,
            final(self).globals@ == old(self).globals@.push(global),
            final(self).constants@ == old(self).constants@,
            final(self).metadata == old(self).metadata,
    {
        self.globals.push(global);
    }

    pub fn add_constant(&mut self, constant: MirConstant)
        ensures
            final(self).name == old(self).name,
            final(self).functions@ == old(self).functions@,
            final(self).globals@ == old(self).globals@,
            final(self).constants@ == old(self).constants@.push(constant),
            final(self).metadata == old(self).metadata,
    {
        self.constants.push(constant);
    }
}

} // verus!
