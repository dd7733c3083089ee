//! Instructions of the mid-level representation and how a basic block ends.
use vstd::prelude::*;

use crate::mir::types::{MirBlockId, MirCompareOperator, MirType, MirValue, MirValueId};
use crate::source::SourceSpan;

verus! {

/// One instruction with its result type and source position.
#[derive(Debug, Clone)]
pub struct MirInstruction {
    pub kind: MirInstructionKind,
    pub result_type: Option<MirType>,
    pub span: Option<SourceSpan>,
}

/// What an instruction does.
#[derive(Debug, Clone)]
pub enum MirInstructionKind {
    Const { result: MirValueId, value: MirValue },
    Add { result: MirValueId, left: MirValueId, right: MirValueId },
    Subtract { result: MirValueId, left: MirValueId, right: MirValueId },
    Multiply { result: MirValueId, left: MirValueId, right: MirValueId },
    Divide { result: MirValueId, left: MirValueId, right: MirValueId },
    Modulo { result: MirValueId, left: MirValueId, right: MirValueId },
    Equal { result: MirValueId, left: MirValueId, right: MirValueId },
    NotEqual { result: MirValueId, left: MirValueId, right: MirValueId },
    LessThan { result: MirValueId, left: MirValueId, right: MirValueId },
    LessEqual { result: MirValueId, left: MirValueId, right: MirValueId },
    GreaterThan { result: MirValueId, left: MirValueId, right: MirValueId },
    GreaterEqual { result: MirValueId, left: MirValueId, right: MirValueId },
    And { result: MirValueId, left: MirValueId, right: MirValueId },
    Or { result: MirValueId, left: MirValueId, right: MirValueId },
    Not { result: MirValueId, operand: MirValueId },
    Load { result: MirValueId, name: String },
    Store { name: String, value: MirValueId },
    Move { result: MirValueId, value: MirValueId },
    AllocateLocal { local: MirValueId, name: String },
    Branch { condition: MirValueId, true_block: MirBlockId, false_block: MirBlockId },
    Jump { target: MirBlockId },
    Unreachable,
    Call { result: Option<MirValueId>, function: String, arguments: Vec<MirValueId> },
    Compare { result: MirValueId, operator: MirCompareOperator, left: MirValueId, right: MirValueId },
    Return { value: Option<MirValueId> },
    TableNew { result: MirValueId },
    TableSet { table: MirValueId, key: MirValueId, value: MirValueId },
    TableGet { result: MirValueId, table: MirValueId, key: MirValueId },
    Error,
}

/// The instruction that ends a basic block.
#[derive(Debug, Clone, Copy, PartialEq, Eq, Structural)]
pub enum MirTerminator {
    Return { value: Option<MirValueId> },
    Jump { target: MirBlockId },
    Branch { condition: MirValueId, true_block: MirBlockId, false_block: MirBlockId },
    Unreachable,
}

/// The terminator an instruction kind stands for: returns, jumps, branches
/// and `Unreachable` end a block; nothing else does.
pub open spec fn kind_terminator(kind: MirInstructionKind) -> Option<MirTerminator> {
    match kind {
        MirInstructionKind::Return { value } => Some(MirTerminator::Return { value }),
        MirInstructionKind::Jump { target } => Some(MirTerminator::Jump { target }),
        MirInstructionKind::Branch { condition, true_block, false_block } => Some(
            MirTerminator::Branch { condition, true_block, false_block },
        ),
        MirInstructionKind::Unreachable => Some(MirTerminator::Unreachable),
        _ => None,
    }
}

/// The blocks control may pass to after `t`, in order: the target of a jump,
/// or the true block then the false block of a branch.
pub open spec fn terminator_successors(t: MirTerminator) -> Seq<MirBlockId> {
    match t {
        MirTerminator::Return { .. } => seq![],
        MirTerminator::Unreachable => seq![],
        MirTerminator::Jump { target } => seq![target],
        MirTerminator::Branch { true_block, false_block, .. } => seq![true_block, false_block],
    }
}

impl MirInstruction {
    pub fn new(kind: MirInstructionKind, result_type: Option<MirType>, span: Option<SourceSpan>) -> (result: Self)
        ensures
            result.kind == kind,
            result.result_type == result_type,
            result.span == span,
    {
        MirInstruction { kind, result_type, span }
    }

    pub fn terminator(&self) -> (result: Option<MirTerminator>)
        ensures
            result == kind_terminator(self.kind),
    {
        MirTerminator::from_instruction_kind(&self.kind)
    }

    pub fn is_terminator(&self) -> (result: bool)
        ensures
            result == kind_terminator(self.kind).is_some(),
    {
        self.terminator().is_some()
    }
}

impl MirTerminator {
    pub fn from_instruction_kind(kind: &MirInstructionKind) -> (result: Option<Self>)
        ensures
            result == kind_terminator(*kind),
    {
        match kind {
            MirInstructionKind::Return { value } => Some(MirTerminator::Return { value: *value }),
            MirInstructionKind::Jump { target } => Some(MirTerminator::Jump { target: *target }),
            MirInstructionKind::Branch { condition, true_block, false_block } => Some(
                MirTerminator::Branch { condition: *condition, true_block: *true_block, false_block: *false_block },
            ),
            MirInstructionKind::Unreachable => Some(MirTerminator::Unreachable),
            _ => None,
        }
    }

    pub fn successors(&self) -> (result: Vec<MirBlockId>)
        ensures
            result@ == terminator_successors(*self),
    {
        match self {
            MirTerminator::Return { .. } | MirTerminator::Unreachable => Vec::new(),
            MirTerminator::Jump { target } => vec![*target],
            MirTerminator::Branch { true_block, false_block, .. } => vec![*true_block, *false_block],
        }
    }
}

} // verus!
