//! What a value id stands for.
use vstd::prelude::*;

use crate::mir::types::{MirFunctionId, MirType, MirValue, MirValueId};
use crate::source::SourceSpan;

verus! {

/// Where a value comes from.
#[derive(Debug, Clone, PartialEq, Eq)]
pub enum MirValueKind {
    Constant,
    Parameter { index: usize, storage: String, symbol_id: Option<usize> },
    Local { storage: String, symbol_id: Option<usize> },
    Temporary,
    Global { name: String, symbol_id: Option<usize> },
    FunctionReference { function: MirFunctionId, name: String },
}

/// A value of a function with its type and origin.
#[derive(Debug, Clone)]
pub struct MirValueData {
    pub id: MirValueId,
    pub value_type: MirType,
    pub kind: MirValueKind,
    pub span: Option<SourceSpan>,
}

impl MirValueData {
    pub fn new(id: MirValueId, value_type: MirType, kind: MirValueKind, span: Option<SourceSpan>) -> (result: Self)
        ensures
            result.id == id,
            result.value_type == value_type,
            result.kind == kind,
            result.span == span,
    {
        MirValueData { id, value_type, kind, span }
    }
}

/// A parameter of a function and the slot that holds it.
#[derive(Debug, Clone)]
pub struct MirParameter {
    pub name: String,
    pub storage: String,
    pub value_id: MirValueId,
    pub value_type: MirType,
    pub symbol_id: Option<usize>,
    pub span: Option<SourceSpan>,
}

/// A local slot of a function.
#[derive(Debug, Clone)]
pub struct MirLocal {
    pub storage: String,
    pub value_id: MirValueId,
    pub value_type: MirType,
    pub symbol_id: Option<usize>,
    pub span: Option<SourceSpan>,
}

/// A module-level variable.
#[derive(Debug, Clone)]
pub struct MirGlobal {
    pub name: String,
    pub storage: String,
    pub value_id: MirValueId,
    pub value_type: MirType,
    pub symbol_id: Option<usize>,
    pub span: Option<SourceSpan>,
}

/// A module-level constant.
#[derive(Debug, Clone)]
pub struct MirConstant {
    pub value_id: MirValueId,
    pub value: MirValue,
    pub value_type: MirType,
    pub span: Option<SourceSpan>,
}

} // verus!
