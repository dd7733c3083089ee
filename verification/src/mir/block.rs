//! Basic blocks.
use vstd::prelude::*;

use crate::mir::instruction::{kind_terminator, terminator_successors, MirInstruction, MirTerminator};
use crate::mir::types::MirBlockId;

verus! {

/// A straight-line run of instructions that ends in at most one terminator.
#[derive(Debug, Clone)]
pub struct MirBasicBlock {
    pub id: MirBlockId,
    pub instructions: Vec<MirInstruction>,
    pub terminator: Option<MirTerminator>,
    pub predecessors: Vec<MirBlockId>,
    pub successors: Vec<MirBlockId>,
    pub is_entry: bool,
    pub is_exit: bool,
}

impl MirBasicBlock {
    /// An empty block with no neighbours.
    pub open spec fn is_empty_block(self, id: MirBlockId) -> bool {
        &&& self.id == id
        &&& self.instructions@.len() == 0
        &&& self.terminator.is_none()
        &&& self.predecessors@.len() == 0
        &&& self.successors@.len() == 0
    }

    pub fn new(id: MirBlockId) -> (result: Self)
        ensures
            result.is_empty_block(id),
            !result.is_entry,
            !result.is_exit,
    {
        MirBasicBlock {
            id,
            instructions: Vec::new(),
            terminator: None,
            predecessors: Vec::new(),
            successors: Vec::new(),
            is_entry: false,
            is_exit: false,
        }
    }

    pub fn with_entry(id: MirBlockId) -> (result: Self)
        ensures
            result.is_empty_block(id),
            result.is_entry,
            !result.is_exit,
    {
        let mut block = Self::new(id);
        block.is_entry = true;
        block
    }

    pub fn with_exit(id: MirBlockId) -> (result: Self)
        ensures
            result.is_empty_block(id),
            !result.is_entry,
            result.is_exit,
    {
        let mut block = Self::new(id);
        block.is_exit = true;
        block
    }

    /// Appends an instruction; a terminator also becomes the block's
    /// terminator and sets its successors.
    pub fn add_instruction(&mut self, instruction: MirInstruction)
        ensures
            final(self).id == old(self).id,
            final(self).instructions@ == old(self).instructions@.push(instruction),
            final(self).predecessors@ == old(self).predecessors@,
            final(self).is_entry == old(self).is_entry,
            final(self).is_exit == old(self).is_exit,
            match kind_terminator(instruction.kind) {
                Some(t) => final(self).terminator == Some(t) && final(self).successors@ == terminator_successors(t),
                None => final(self).terminator == old(self).terminator && final(self).successors@ == old(self).successors@,
            },
    {
        if instruction.is_terminator() {
            self.add_terminator(instruction);
            return;
        }
        self.instructions.push(instruction);
    }

    /// Appends an instruction, recording it as the terminator when it is one.
    pub fn add_terminator(&mut self, instruction: MirInstruction)
        ensures
            final(self).id == old(self).id,
            final(self).instructions@ == old(self).instructions@.push(instruction),
            final(self).predecessors@ == old(self).predecessors@,
            final(self).is_entry == old(self).is_entry,
            final(self).is_exit == old(self).is_exit,
            match kind_terminator(instruction.kind) {
                Some(t) => final(self).terminator == Some(t) && final(self).successors@ == terminator_successors(t),
                None => final(self).terminator == old(self).terminator && final(self).successors@ == old(self).successors@,
            },
    {
        if let Some(terminator) = instruction.terminator() {
            self.successors = terminator.successors();
            self.terminator = Some(terminator);
        }
        self.instructions.push(instruction);
    }

    pub fn is_terminated(&self) -> (result: bool)
        ensures
            result == self.terminator.is_some(),
    {
        self.terminator.is_some()
    }
}

} // verus!
