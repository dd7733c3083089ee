//! Functions of the mid-level representation.
use vstd::prelude::*;

use crate::mir::block::MirBasicBlock;
use crate::mir::cfg::{contains_block, copy_blocks};
use crate::mir::instruction::{kind_terminator, terminator_successors, MirInstruction};
use crate::mir::types::{MirBlockId, MirFunctionId, MirType};
use crate::mir::value::{MirLocal, MirParameter, MirValueData};
use crate::source::SourceSpan;
use crate::text::{str_eq, to_owned_string};

verus! {

/// A function: its slots and values, and its basic blocks.
#[derive(Debug, Clone)]
pub struct MirFunction {
    pub id: MirFunctionId,
    pub name: String,
    pub parameters: Vec<String>,
    pub parameter_data: Vec<MirParameter>,
    pub locals: Vec<MirLocal>,
    pub values: Vec<MirValueData>,
    pub return_type: Option<MirType>,
    pub blocks: Vec<MirBasicBlock>,
    pub entry_block: Option<usize>,
    pub exit_blocks: Vec<usize>,
    pub metadata: MirFunctionMetadata,
}

#[derive(Debug, Clone)]
pub struct MirFunctionMetadata {
    pub span: Option<SourceSpan>,
    pub has_explicit_return: bool,
}

impl Default for MirFunctionMetadata {
    fn default() -> (result: Self)
        ensures
            result.span.is_none(),
            !result.has_explicit_return,
    {
        MirFunctionMetadata { span: None, has_explicit_return: false }
    }
}

/// No block before position `j` has the id of block `j`.
pub open spec fn first_with_id(blocks: Seq<MirBasicBlock>, j: int) -> bool {
    forall|k: int| 0 <= k < j ==> blocks[k].id != blocks[j].id
}

/// Some block with id `p` lists `id` among its successors.
pub open spec fn has_edge(blocks: Seq<MirBasicBlock>, p: MirBlockId, id: MirBlockId) -> bool {
    exists|k: int| 0 <= k < blocks.len() && #[trigger] blocks[k].id == p && blocks[k].successors@.contains(id)
}

/// `after` is `before` with only the predecessor lists changed.
pub open spec fn same_but_predecessors(before: Seq<MirBasicBlock>, after: Seq<MirBasicBlock>) -> bool {
    &&& before.len() == after.len()
    &&& forall|i: int| 0 <= i < before.len() ==> {
        &&& (#[trigger] after[i]).id == before[i].id
        &&& after[i].instructions == before[i].instructions
        &&& after[i].terminator == before[i].terminator
        &&& after[i].successors == before[i].successors
        &&& after[i].is_entry == before[i].is_entry
        &&& after[i].is_exit == before[i].is_exit
    }
}

/// `a` and `b` agree on everything but their blocks.
pub open spec fn same_header(a: MirFunction, b: MirFunction) -> bool {
    &&& a.id == b.id
    &&& a.name == b.name
    &&& a.parameters == b.parameters
    &&& a.parameter_data == b.parameter_data
    &&& a.locals == b.locals
    &&& a.values == b.values
    &&& a.return_type == b.return_type
    &&& a.entry_block == b.entry_block
    &&& a.exit_blocks == b.exit_blocks
    &&& a.metadata == b.metadata
}

/// `after` is `before` with every predecessor list recomputed from the
/// successor lists: each predecessor once, on the first block that carries
/// the successor's id.
/// Everything but the values and blocks is the same.
pub open spec fn same_outline(a: MirFunction, b: MirFunction) -> bool {
    &&& a.id == b.id
    &&& a.name == b.name
    &&& a.parameters == b.parameters
    &&& a.parameter_data == b.parameter_data
    &&& a.locals == b.locals
    &&& a.return_type == b.return_type
    &&& a.entry_block == b.entry_block
    &&& a.exit_blocks == b.exit_blocks
    &&& a.metadata == b.metadata
}

pub open spec fn predecessors_rebuilt(before: MirFunction, after: MirFunction) -> bool {
    &&& same_but_predecessors(before.blocks@, after.blocks@)
    &&& same_header(before, after)
    &&& forall|j: int| 0 <= j < after.blocks@.len() ==> (#[trigger] after.blocks@[j]).predecessors@.no_duplicates()
    &&& forall|j: int, p: MirBlockId| 0 <= j < after.blocks@.len() ==>
        (#[trigger] after.blocks@[j].predecessors@.contains(p) <==>
            (first_with_id(after.blocks@, j) && has_edge(after.blocks@, p, after.blocks@[j].id)))
}

impl MirFunction {
    pub fn new(id: MirFunctionId, name: String) -> (result: Self)
        ensures
            result.id == id,
            result.name == name,
            result.parameters@.len() == 0,
            result.parameter_data@.len() == 0,
            result.locals@.len() == 0,
            result.values@.len() == 0,
            result.return_type.is_none(),
            result.blocks@.len() == 0,
            result.entry_block.is_none(),
            result.exit_blocks@.len() == 0,
            result.metadata.span.is_none(),
            !result.metadata.has_explicit_return,
    {
        MirFunction {
            id,
            name,
            parameters: Vec::new(),
            parameter_data: Vec::new(),
            locals: Vec::new(),
            values: Vec::new(),
            return_type: None,
            blocks: Vec::new(),
            entry_block: None,
            exit_blocks: Vec::new(),
            metadata: MirFunctionMetadata::default(),
        }
    }

    pub fn add_block(&mut self, block: MirBasicBlock)
        ensures
            final(self).blocks@ == old(self).blocks@.push(block),
            final(self).entry_block == old(self).entry_block,
            final(self).values == old(self).values,
            same_outline(*old(self), *final(self)),
    {
        self.blocks.push(block);
    }

    /// Appends an instruction to the block at `block_index`; does nothing when
    /// there is no such block.
    pub fn add_instruction(&mut self, block_index: usize, instruction: MirInstruction)
        ensures
            final(self).blocks@.len() == old(self).blocks@.len(),
            final(self).entry_block == old(self).entry_block,
            final(self).values == old(self).values,
            same_outline(*old(self), *final(self)),
            forall|i: int| 0 <= i < old(self).blocks@.len() && i != block_index ==> #[trigger] final(self).blocks@[i] == old(self).blocks@[i],
            block_index < old(self).blocks@.len() ==> {
                let before = old(self).blocks@[block_index as int];
                let after = final(self).blocks@[block_index as int];
                &&& after.id == before.id
                &&& after.instructions@ == before.instructions@.push(instruction)
                &&& after.predecessors@ == before.predecessors@
                &&& after.is_entry == before.is_entry
                &&& after.is_exit == before.is_exit
                &&& match kind_terminator(instruction.kind) {
                    Some(t) => after.terminator == Some(t) && after.successors@ == terminator_successors(t),
                    None => after.terminator == before.terminator && after.successors@ == before.successors@,
                }
            },
    {
        if block_index < self.blocks.len() {
            let mut block = self.blocks.remove(block_index);
            block.add_instruction(instruction);
            self.blocks.insert(block_index, block);
        }
    }

    pub fn add_value(&mut self, value: MirValueData)
        ensures
            final(self).values@ == old(self).values@.push(value),
            final(self).blocks == old(self).blocks,
            same_outline(*old(self), *final(self)),
    {
        self.values.push(value);
    }

    /// Records a parameter and the name of its slot.
    pub fn add_parameter(&mut self, parameter: MirParameter)
        ensures
            final(self).parameters@.len() == old(self).parameters@.len() + 1,
            final(self).parameters@.drop_last() == old(self).parameters@,
            final(self).parameters@.last()@ == parameter.storage@,
            final(self).parameter_data@ == old(self).parameter_data@.push(parameter),
            final(self).blocks == old(self).blocks,
            final(self).values == old(self).values,
            final(self).locals == old(self).locals,
            final(self).id == old(self).id,
            final(self).name == old(self).name,
            final(self).return_type == old(self).return_type,
            final(self).entry_block == old(self).entry_block,
            final(self).exit_blocks == old(self).exit_blocks,
            final(self).metadata == old(self).metadata,
    {
        let storage = to_owned_string(parameter.storage.as_str());
        self.parameters.push(storage);
        self.parameter_data.push(parameter);
    }

    /// Records a local slot unless one with the same storage name exists.
    pub fn add_local(&mut self, local: MirLocal)
        ensures
            final(self).blocks == old(self).blocks,
            final(self).values == old(self).values,
            final(self).parameters == old(self).parameters,
            final(self).parameter_data == old(self).parameter_data,
            final(self).id == old(self).id,
            final(self).name == old(self).name,
            final(self).return_type == old(self).return_type,
            final(self).entry_block == old(self).entry_block,
            final(self).exit_blocks == old(self).exit_blocks,
            final(self).metadata == old(self).metadata,
            (exists|i: int| 0 <= i < old(self).locals@.len() && #[trigger] old(self).locals@[i].storage@ == local.storage@)
                ==> final(self).locals@ == old(self).locals@,
            !(exists|i: int| 0 <= i < old(self).locals@.len() && #[trigger] old(self).locals@[i].storage@ == local.storage@)
                ==> final(self).locals@ == old(self).locals@.push(local),
    {
        let mut i: usize = 0;
        while i < self.locals.len()
            invariant
                i <= self.locals@.len(),
                forall|k: int| 0 <= k < i ==> #[trigger] self.locals@[k].storage@ != local.storage@,
            decreases self.locals.len() - i,
        {
            if str_eq(self.locals[i].storage.as_str(), local.storage.as_str()) {
                return;
            }
            i = i + 1;
        }
        self.locals.push(local);
    }

    /// Whether the block at `block_index` has a terminator; a missing block
    /// counts as terminated.
    pub fn is_block_terminated(&self, block_index: usize) -> (result: bool)
        ensures
            result == (block_index >= self.blocks@.len() || self.blocks@[block_index as int].terminator.is_some()),
    {
        if block_index < self.blocks.len() {
            self.blocks[block_index].is_terminated()
        } else {
            true
        }
    }

    /// Recomputes every predecessor list from the successor lists. Each
    /// predecessor is recorded once, on the first block that carries the
    /// successor's id.
    pub fn rebuild_cfg(&mut self)
        ensures
            predecessors_rebuilt(*old(self), *final(self)),
    {
        let ghost b0 = self.blocks@;
        let mut i: usize = 0;
        while i < self.blocks.len()
            invariant
                i <= self.blocks@.len(),
                same_but_predecessors(b0, self.blocks@),
                self.entry_block == old(self).entry_block,
                same_header(*old(self), *self),
                b0 == old(self).blocks@,
                forall|j: int| 0 <= j < i ==> (#[trigger] self.blocks@[j]).predecessors@.len() == 0,
            decreases self.blocks.len() - i,
        {
            let ghost before = self.blocks@;
            let mut block = self.blocks.remove(i);
            block.predecessors = Vec::new();
            self.blocks.insert(i, block);
            proof {
                assert(self.blocks@ =~= before.update(i as int, block));
            }
            i = i + 1;
        }
        let mut edges: Vec<(MirBlockId, Vec<MirBlockId>)> = Vec::new();
        let mut k: usize = 0;
        while k < self.blocks.len()
            invariant
                k <= self.blocks@.len(),
                edges@.len() == k,
                forall|m: int| 0 <= m < k ==> (#[trigger] edges@[m]).0 == self.blocks@[m].id
                    && edges@[m].1@ == self.blocks@[m].successors@,
            decreases self.blocks.len() - k,
        {
            let succs = copy_blocks(&self.blocks[k].successors);
            edges.push((self.blocks[k].id, succs));
            k = k + 1;
        }
        let ghost b1 = self.blocks@;
        let mut k: usize = 0;
        while k < edges.len()
            invariant
                k <= edges@.len(),
                edges@.len() == b1.len(),
                forall|m: int| 0 <= m < b1.len() ==> (#[trigger] edges@[m]).0 == b1[m].id && edges@[m].1@ == b1[m].successors@,
                same_but_predecessors(b0, b1),
                same_but_predecessors(b1, self.blocks@),
                self.entry_block == old(self).entry_block,
                same_header(*old(self), *self),
                b0 == old(self).blocks@,
                forall|j: int| 0 <= j < self.blocks@.len() ==> (#[trigger] self.blocks@[j]).predecessors@.no_duplicates(),
                forall|j: int, p: MirBlockId| 0 <= j < self.blocks@.len() ==>
                    (#[trigger] self.blocks@[j].predecessors@.contains(p) <==>
                        (first_with_id(b1, j) && exists|m: int| 0 <= m < k && #[trigger] b1[m].id == p
                            && b1[m].successors@.contains(b1[j].id))),
            decreases edges.len() - k,
        {
            let source = edges[k].0;
            let succs = &edges[k].1;
            let mut s: usize = 0;
            while s < succs.len()
                invariant
                    k < edges@.len(),
                    edges@.len() == b1.len(),
                    source == b1[k as int].id,
                    succs@ == b1[k as int].successors@,
                    s <= succs@.len(),
                    same_but_predecessors(b1, self.blocks@),
                    self.entry_block == old(self).entry_block,
                    same_header(*old(self), *self),
                    forall|j: int| 0 <= j < self.blocks@.len() ==> (#[trigger] self.blocks@[j]).predecessors@.no_duplicates(),
                    forall|j: int, p: MirBlockId| 0 <= j < self.blocks@.len() ==>
                        (#[trigger] self.blocks@[j].predecessors@.contains(p) <==>
                            (first_with_id(b1, j) && ((exists|m: int| 0 <= m < k && #[trigger] b1[m].id == p
                                && b1[m].successors@.contains(b1[j].id))
                                || (p == source && succs@.subrange(0, s as int).contains(b1[j].id))))),
                decreases succs.len() - s,
            {
                let target = succs[s];
                // the first block that carries the target id
                let mut t: usize = 0;
                while t < self.blocks.len() && self.blocks[t].id != target
                    invariant
                        t <= self.blocks@.len(),
                        forall|m: int| 0 <= m < t ==> self.blocks@[m].id != target,
                    decreases self.blocks.len() - t,
                {
                    t = t + 1;
                }
                let ghost before = self.blocks@;
                if t < self.blocks.len() {
                    proof {
                        assert(first_with_id(b1, t as int)) by {
                            assert forall|m: int| 0 <= m < t implies b1[m].id != b1[t as int].id by {
                                assert(before[m].id == b1[m].id);
                            }
                        }
                    }
                    if !contains_block(&self.blocks[t].predecessors, source) {
                        let mut block = self.blocks.remove(t);
                        let ghost old_preds = block.predecessors@;
                        block.predecessors.push(source);
                        self.blocks.insert(t, block);
                        proof {
                            assert(self.blocks@ =~= before.update(t as int, block));
                            assert(block.predecessors@ == old_preds.push(source));
                            assert(block.predecessors@.no_duplicates()) by {
                                assert forall|a: int, c: int| 0 <= a < block.predecessors@.len() && 0 <= c < block.predecessors@.len() && a != c
                                    implies block.predecessors@[a] != block.predecessors@[c] by {
                                    if a < old_preds.len() && c < old_preds.len() {
                                        assert(old_preds[a] != old_preds[c]);
                                    } else if a < old_preds.len() {
                                        assert(old_preds.contains(old_preds[a]));
                                    } else if c < old_preds.len() {
                                        assert(old_preds.contains(old_preds[c]));
                                    }
                                }
                            }
                        }
                    }
                }
                proof {
                    let nxt = succs@.subrange(0, s + 1);
                    assert(nxt =~= succs@.subrange(0, s as int).push(target));
                    assert forall|j: int, p: MirBlockId| 0 <= j < self.blocks@.len() implies
                        (#[trigger] self.blocks@[j].predecessors@.contains(p) <==>
                            (first_with_id(b1, j) && ((exists|m: int| 0 <= m < k && #[trigger] b1[m].id == p
                                && b1[m].successors@.contains(b1[j].id))
                                || (p == source && nxt.contains(b1[j].id))))) by {
                        assert(nxt.contains(b1[j].id) <==> (succs@.subrange(0, s as int).contains(b1[j].id) || b1[j].id == target)) by {
                            if nxt.contains(b1[j].id) && b1[j].id != target {
                                let q = choose|q: int| 0 <= q < nxt.len() && nxt[q] == b1[j].id;
                                assert(succs@.subrange(0, s as int)[q] == b1[j].id);
                            }
                            if succs@.subrange(0, s as int).contains(b1[j].id) {
                                let q = choose|q: int| 0 <= q < s && succs@.subrange(0, s as int)[q] == b1[j].id;
                                assert(nxt[q] == b1[j].id);
                            }
                            if b1[j].id == target {
                                assert(nxt[s as int] == target);
                            }
                        }
                        if t < self.blocks@.len() && j == t {
                            let bp = self.blocks@[j].predecessors@;
                            if bp.contains(p) && p != source {
                                let q = choose|q: int| 0 <= q < bp.len() && bp[q] == p;
                                if q < before[j].predecessors@.len() {
                                    assert(before[j].predecessors@[q] == p);
                                }
                            }
                            if before[j].predecessors@.contains(p) {
                                let q = choose|q: int| 0 <= q < before[j].predecessors@.len() && before[j].predecessors@[q] == p;
                                assert(bp[q] == p);
                            }
                            if p == source && !before[j].predecessors@.contains(p) {
                                assert(bp[bp.len() - 1] == p);
                            }
                        } else if t < self.blocks@.len() {
                            assert(self.blocks@[j] == before[j]);
                            if b1[j].id == target {
                                assert(!first_with_id(b1, j)) by {
                                    if j > t {
                                        assert(b1[t as int].id == target);
                                    } else {
                                        assert(before[j].id == target);
                                    }
                                }
                            }
                        } else {
                            assert(self.blocks@[j] == before[j]);
                            assert(b1[j].id != target) by {
                                assert(before[j].id == b1[j].id);
                            }
                        }
                    }
                }
                s = s + 1;
            }
            proof {
                assert(succs@.subrange(0, succs@.len() as int) =~= succs@);
                assert forall|j: int, p: MirBlockId| 0 <= j < self.blocks@.len() implies
                    (#[trigger] self.blocks@[j].predecessors@.contains(p) <==>
                        (first_with_id(b1, j) && exists|m: int| 0 <= m < k + 1 && #[trigger] b1[m].id == p
                            && b1[m].successors@.contains(b1[j].id))) by {
                    if first_with_id(b1, j) && p == source && succs@.contains(b1[j].id) {
                        assert(b1[k as int].id == p && b1[k as int].successors@.contains(b1[j].id));
                    }
                    if exists|m: int| 0 <= m < k + 1 && #[trigger] b1[m].id == p && b1[m].successors@.contains(b1[j].id) {
                        let m = choose|m: int| 0 <= m < k + 1 && #[trigger] b1[m].id == p && b1[m].successors@.contains(b1[j].id);
                        if m == k {
                            assert(p == source);
                        }
                    }
                }
            }
            k = k + 1;
        }
        proof {
            let b = self.blocks@;
            assert forall|j: int, p: MirBlockId| 0 <= j < b.len() implies
                (#[trigger] b[j].predecessors@.contains(p) <==> (first_with_id(b, j) && has_edge(b, p, b[j].id))) by {
                assert(first_with_id(b, j) <==> first_with_id(b1, j)) by {
                    assert forall|m: int| 0 <= m < j implies (b[m].id == b1[m].id) by {}
                }
                if has_edge(b, p, b[j].id) {
                    let m = choose|m: int| 0 <= m < b.len() && #[trigger] b[m].id == p && b[m].successors@.contains(b[j].id);
                    assert(b1[m].id == p && b1[m].successors@.contains(b1[j].id));
                }
                if exists|m: int| 0 <= m < b1.len() && #[trigger] b1[m].id == p && b1[m].successors@.contains(b1[j].id) {
                    let m = choose|m: int| 0 <= m < b1.len() && #[trigger] b1[m].id == p && b1[m].successors@.contains(b1[j].id);
                    assert(b[m].id == p && b[m].successors@.contains(b[j].id));
                }
            }
        }
    }
}

} // verus!
