//! Clean-up passes over the mid-level representation: copy propagation,
//! constant folding of integer and boolean operations, removal of pure
//! instructions whose result nobody uses, and removal of blocks the entry
//! cannot reach.
use vstd::prelude::*;

use std::collections::HashMap;

use crate::mir::block::MirBasicBlock;
use crate::mir::cfg::{
    block_ids, block_successors, built_from, contains_block, lemma_distinct_len_bound, lemma_sorted_distinct, lemma_sorted_unique,
    reachable_ids, strictly_sorted, MirControlFlowGraph,
};
use crate::mir::function::{predecessors_rebuilt, same_header, MirFunction};
use crate::mir::module::MirModule;
use crate::mir::instruction::{kind_terminator, MirInstruction, MirInstructionKind, MirTerminator};
use crate::mir::types::{MirBlockId, MirValue, MirValueId};
use crate::mir::value::{MirValueData, MirValueKind};

verus! {

broadcast use vstd::std_specs::hash::group_hash_axioms;

/// How much each pass changed.
#[derive(Debug, Clone, Copy, PartialEq, Eq, Structural)]
pub struct MirOptimizationStats {
    pub constants_folded: usize,
    pub copies_propagated: usize,
    pub dead_instructions_removed: usize,
    pub unreachable_blocks_removed: usize,
}

impl Default for MirOptimizationStats {
    fn default() -> (result: Self)
        ensures
            result.constants_folded == 0,
            result.copies_propagated == 0,
            result.dead_instructions_removed == 0,
            result.unreachable_blocks_removed == 0,
    {
        MirOptimizationStats { constants_folded: 0, copies_propagated: 0, dead_instructions_removed: 0, unreachable_blocks_removed: 0 }
    }
}

/// The optimized module and what was changed.
#[derive(Debug, Clone)]
pub struct MirOptimizationResult {
    pub module: MirModule,
    pub stats: MirOptimizationStats,
}

/// `a + n`, or the largest `usize` when that does not fit.
pub open spec fn saturating(a: usize, n: nat) -> usize {
    if a + n > usize::MAX {
        usize::MAX
    } else {
        (a + n) as usize
    }
}

/// Nothing changed yet.
pub open spec fn zero_stats() -> MirOptimizationStats {
    MirOptimizationStats { constants_folded: 0, copies_propagated: 0, dead_instructions_removed: 0, unreachable_blocks_removed: 0 }
}

/// `stats` with `n` more copies propagated.
pub open spec fn counted_copies(stats: MirOptimizationStats, n: nat) -> MirOptimizationStats {
    MirOptimizationStats { copies_propagated: saturating(stats.copies_propagated, n), ..stats }
}

/// `stats` with `n` more constants folded.
pub open spec fn counted_folds(stats: MirOptimizationStats, n: nat) -> MirOptimizationStats {
    MirOptimizationStats { constants_folded: saturating(stats.constants_folded, n), ..stats }
}

/// `stats` with `n` more dead instructions removed.
pub open spec fn counted_dead(stats: MirOptimizationStats, n: nat) -> MirOptimizationStats {
    MirOptimizationStats { dead_instructions_removed: saturating(stats.dead_instructions_removed, n), ..stats }
}

/// `stats` with `n` more unreachable blocks removed.
pub open spec fn counted_unreachable(stats: MirOptimizationStats, n: nat) -> MirOptimizationStats {
    MirOptimizationStats { unreachable_blocks_removed: saturating(stats.unreachable_blocks_removed, n), ..stats }
}

pub proof fn lemma_saturating_twice(a: usize, n: nat, k: nat)
    ensures
        saturating(saturating(a, n), k) == saturating(a, n + k),
{
}

// ---------------------------------------------------------------------------
// Copy propagation

/// Where a chain of copies starting at `value` ends: the replacements `m`
/// are followed until a value without one, or until a value comes round
/// again (the value reached then is the end).
pub open spec fn resolve_from(m: Map<usize, usize>, value: usize, seen: Seq<usize>) -> usize
    decreases m.dom().len() - seen.len(),
{
    if !m.contains_key(value) || seen.contains(value) || seen.len() >= m.dom().len() {
        value
    } else {
        resolve_from(m, m[value], seen.push(value))
    }
}

/// The value that stands for `v` once the copies `m` are propagated.
pub open spec fn resolved(m: Map<usize, usize>, v: MirValueId) -> MirValueId {
    MirValueId(resolve_from(m, v.0, Seq::empty()))
}

/// The replacements after one more instruction: a move records that its
/// result stands for what its source stands for.
pub open spec fn move_step(m: Map<usize, usize>, kind: MirInstructionKind) -> Map<usize, usize> {
    match kind {
        MirInstructionKind::Move { result, value } => m.insert(result.0, resolve_from(m, value.0, Seq::empty())),
        _ => m,
    }
}

/// The replacements after a run of instructions.
pub open spec fn moves_in(m: Map<usize, usize>, s: Seq<MirInstruction>) -> Map<usize, usize>
    decreases s.len(),
{
    if s.len() == 0 {
        m
    } else {
        move_step(moves_in(m, s.drop_last()), s.last().kind)
    }
}

/// The replacements after a run of blocks.
pub open spec fn moves_in_blocks(m: Map<usize, usize>, blocks: Seq<MirBasicBlock>) -> Map<usize, usize>
    decreases blocks.len(),
{
    if blocks.len() == 0 {
        m
    } else {
        moves_in(moves_in_blocks(m, blocks.drop_last()), blocks.last().instructions@)
    }
}

/// The copies of a function, gathered block by block in order.
pub open spec fn replacements_of(blocks: Seq<MirBasicBlock>) -> Map<usize, usize> {
    moves_in_blocks(Map::empty(), blocks)
}

/// `b` is `a` with each value it reads replaced as `m` says. Results,
/// names, blocks and constants stay.
pub open spec fn kind_replaced(a: MirInstructionKind, b: MirInstructionKind, m: Map<usize, usize>) -> bool {
    match a {
        MirInstructionKind::Add { result, left, right } => b == MirInstructionKind::Add { result, left: resolved(m, left), right: resolved(m, right) },
        MirInstructionKind::Subtract { result, left, right } => b == MirInstructionKind::Subtract { result, left: resolved(m, left), right: resolved(m, right) },
        MirInstructionKind::Multiply { result, left, right } => b == MirInstructionKind::Multiply { result, left: resolved(m, left), right: resolved(m, right) },
        MirInstructionKind::Divide { result, left, right } => b == MirInstructionKind::Divide { result, left: resolved(m, left), right: resolved(m, right) },
        MirInstructionKind::Modulo { result, left, right } => b == MirInstructionKind::Modulo { result, left: resolved(m, left), right: resolved(m, right) },
        MirInstructionKind::Equal { result, left, right } => b == MirInstructionKind::Equal { result, left: resolved(m, left), right: resolved(m, right) },
        MirInstructionKind::NotEqual { result, left, right } => b == MirInstructionKind::NotEqual { result, left: resolved(m, left), right: resolved(m, right) },
        MirInstructionKind::LessThan { result, left, right } => b == MirInstructionKind::LessThan { result, left: resolved(m, left), right: resolved(m, right) },
        MirInstructionKind::LessEqual { result, left, right } => b == MirInstructionKind::LessEqual { result, left: resolved(m, left), right: resolved(m, right) },
        MirInstructionKind::GreaterThan { result, left, right } => b == MirInstructionKind::GreaterThan { result, left: resolved(m, left), right: resolved(m, right) },
        MirInstructionKind::GreaterEqual { result, left, right } => b == MirInstructionKind::GreaterEqual { result, left: resolved(m, left), right: resolved(m, right) },
        MirInstructionKind::And { result, left, right } => b == MirInstructionKind::And { result, left: resolved(m, left), right: resolved(m, right) },
        MirInstructionKind::Or { result, left, right } => b == MirInstructionKind::Or { result, left: resolved(m, left), right: resolved(m, right) },
        MirInstructionKind::Compare { result, operator, left, right } => b == MirInstructionKind::Compare {
            result,
            operator,
            left: resolved(m, left),
            right: resolved(m, right),
        },
        MirInstructionKind::Not { result, operand } => b == MirInstructionKind::Not { result, operand: resolved(m, operand) },
        MirInstructionKind::Move { result, value } => b == MirInstructionKind::Move { result, value: resolved(m, value) },
        MirInstructionKind::Store { name, value } => b == MirInstructionKind::Store { name, value: resolved(m, value) },
        MirInstructionKind::Branch { condition, true_block, false_block } => b == MirInstructionKind::Branch {
            condition: resolved(m, condition),
            true_block,
            false_block,
        },
        MirInstructionKind::Call { result, function, arguments } => b matches MirInstructionKind::Call { result: r2, function: f2, arguments: a2 }
            && r2 == result && f2 == function && a2@ == arguments@.map_values(|v: MirValueId| resolved(m, v)),
        MirInstructionKind::Return { value } => b == MirInstructionKind::Return {
            value: match value {
                Some(v) => Some(resolved(m, v)),
                None => None,
            },
        },
        MirInstructionKind::TableSet { table, key, value } => b == MirInstructionKind::TableSet {
            table: resolved(m, table),
            key: resolved(m, key),
            value: resolved(m, value),
        },
        MirInstructionKind::TableGet { result, table, key } => b == MirInstructionKind::TableGet {
            result,
            table: resolved(m, table),
            key: resolved(m, key),
        },
        _ => b == a,
    }
}

/// `b` is `a` with the values it reads replaced as `m` says.
pub open spec fn instruction_replaced(a: MirInstruction, b: MirInstruction, m: Map<usize, usize>) -> bool {
    &&& b.result_type == a.result_type
    &&& b.span == a.span
    &&& kind_replaced(a.kind, b.kind, m)
}

/// A move whose result has a replacement: propagation removes it.
pub open spec fn is_copy(instruction: MirInstruction, m: Map<usize, usize>) -> bool {
    instruction.kind matches MirInstructionKind::Move { result, .. } && m.contains_key(result.0)
}

/// `after` is `before` without its copies and with the values read by the
/// rest replaced as `m` says.
pub open spec fn propagated(before: Seq<MirInstruction>, after: Seq<MirInstruction>, m: Map<usize, usize>) -> bool
    decreases before.len(),
{
    if before.len() == 0 {
        after.len() == 0
    } else if is_copy(before.last(), m) {
        propagated(before.drop_last(), after, m)
    } else {
        &&& after.len() > 0
        &&& instruction_replaced(before.last(), after.last(), m)
        &&& propagated(before.drop_last(), after.drop_last(), m)
    }
}

/// How many copies a run of instructions holds.
pub open spec fn copies_in(s: Seq<MirInstruction>, m: Map<usize, usize>) -> nat
    decreases s.len(),
{
    if s.len() == 0 {
        0
    } else {
        copies_in(s.drop_last(), m) + (if is_copy(s.last(), m) {
            1nat
        } else {
            0nat
        })
    }
}

/// How many copies a run of blocks holds.
pub open spec fn copies_in_blocks(blocks: Seq<MirBasicBlock>, m: Map<usize, usize>) -> nat
    decreases blocks.len(),
{
    if blocks.len() == 0 {
        0
    } else {
        copies_in_blocks(blocks.drop_last(), m) + copies_in(blocks.last().instructions@, m)
    }
}

/// The values whose id has no replacement, in order.
pub open spec fn values_without(values: Seq<MirValueData>, m: Map<usize, usize>) -> Seq<MirValueData>
    decreases values.len(),
{
    if values.len() == 0 {
        seq![]
    } else {
        values_without(values.drop_last(), m) + (if m.contains_key(values.last().id.0) {
            seq![]
        } else {
            seq![values.last()]
        })
    }
}

/// `b` is `a` with other instructions: same id, terminator, neighbours and
/// entry and exit marks.
pub open spec fn same_shell(a: MirBasicBlock, b: MirBasicBlock) -> bool {
    &&& b.id == a.id
    &&& b.terminator == a.terminator
    &&& b.predecessors == a.predecessors
    &&& b.successors == a.successors
    &&& b.is_entry == a.is_entry
    &&& b.is_exit == a.is_exit
}

/// What copy propagation makes of a function: nothing changes when it has
/// no move; otherwise every move goes, every value read is replaced by the
/// end of its copy chain, and the values the moves defined are dropped.
pub open spec fn copies_propagated(before: MirFunction, after: MirFunction) -> bool {
    let m = replacements_of(before.blocks@);
    if m.is_empty() {
        after == before
    } else {
        &&& after.blocks@.len() == before.blocks@.len()
        &&& forall|i: int| 0 <= i < before.blocks@.len() ==> {
            &&& same_shell(before.blocks@[i], #[trigger] after.blocks@[i])
            &&& propagated(before.blocks@[i].instructions@, after.blocks@[i].instructions@, m)
        }
        &&& after.values@ == values_without(before.values@, m)
        &&& after.id == before.id
        &&& after.name == before.name
        &&& after.parameters == before.parameters
        &&& after.parameter_data == before.parameter_data
        &&& after.locals == before.locals
        &&& after.return_type == before.return_type
        &&& after.entry_block == before.entry_block
        &&& after.exit_blocks == before.exit_blocks
        &&& after.metadata == before.metadata
    }
}

/// Whether `x` occurs in `s`.
fn contains_index(s: &Vec<usize>, x: usize) -> (result: bool)
    ensures
        result == s@.contains(x),
{
    let mut i: usize = 0;
    while i < s.len()
        invariant
            i <= s@.len(),
            forall|k: int| 0 <= k < i ==> s@[k] != x,
        decreases s.len() - i,
    {
        if s[i] == x {
            return true;
        }
        i = i + 1;
    }
    false
}

proof fn lemma_distinct_within(s: Seq<usize>, d: Set<usize>)
    requires
        s.no_duplicates(),
        d.finite(),
        forall|k: int| 0 <= k < s.len() ==> d.contains(s[k]),
    ensures
        s.len() <= d.len(),
{
    s.unique_seq_to_set();
    assert(s.to_set().subset_of(d)) by {
        assert forall|x: usize| s.to_set().contains(x) implies d.contains(x) by {
            let k = choose|k: int| 0 <= k < s.len() && s[k] == x;
            assert(d.contains(s[k]));
        }
    }
    vstd::set_lib::lemma_len_subset(s.to_set(), d);
}

/// The end of the copy chain that starts at `value_id`.
fn resolve_replacement(value_id: MirValueId, replacements: &HashMap<usize, usize>) -> (result: MirValueId)
    ensures
        result == resolved(replacements@, value_id),
{
    let ghost m = replacements@;
    let mut current: usize = value_id.0;
    let mut seen: Vec<usize> = Vec::new();
    loop
        invariant
            m == replacements@,
            m.dom().finite(),
            seen@.no_duplicates(),
            forall|k: int| 0 <= k < seen@.len() ==> m.contains_key(seen@[k]),
            resolve_from(m, current, seen@) == resolve_from(m, value_id.0, Seq::empty()),
        ensures
            resolve_from(m, current, seen@) == current,
            resolve_from(m, current, seen@) == resolve_from(m, value_id.0, Seq::empty()),
        decreases m.dom().len() - seen@.len(),
    {
        match replacements.get(&current) {
            Some(next) => {
                if contains_index(&seen, current) {
                    break;
                }
                proof {
                    let grown = seen@.push(current);
                    assert(grown.no_duplicates()) by {
                        assert forall|a: int, b: int| 0 <= a < grown.len() && 0 <= b < grown.len() && a != b implies grown[a] != grown[b] by {
                            if a < seen@.len() && b < seen@.len() {
                            } else if a < seen@.len() {
                                assert(seen@.contains(seen@[a]));
                            } else if b < seen@.len() {
                                assert(seen@.contains(seen@[b]));
                            }
                        }
                    }
                    lemma_distinct_within(grown, m.dom());
                }
                seen.push(current);
                current = *next;
            },
            None => {
                break;
            },
        }
    }
    MirValueId(current)
}

/// Copies a list of values, each replaced by the end of its copy chain.
fn resolve_all(values: &Vec<MirValueId>, replacements: &HashMap<usize, usize>) -> (result: Vec<MirValueId>)
    ensures
        result@ == values@.map_values(|v: MirValueId| resolved(replacements@, v)),
{
    let mut out: Vec<MirValueId> = Vec::new();
    let mut i: usize = 0;
    while i < values.len()
        invariant
            i <= values@.len(),
            out@ == values@.subrange(0, i as int).map_values(|v: MirValueId| resolved(replacements@, v)),
        decreases values.len() - i,
    {
        out.push(resolve_replacement(values[i], replacements));
        i = i + 1;
        assert(out@ =~= values@.subrange(0, i as int).map_values(|v: MirValueId| resolved(replacements@, v)));
    }
    assert(values@.subrange(0, values@.len() as int) =~= values@);
    out
}

/// Replaces the values an instruction reads by the ends of their copy
/// chains.
#[verifier::spinoff_prover]
fn replace_instruction_uses(instruction: MirInstruction, replacements: &HashMap<usize, usize>) -> (result: MirInstruction)
    ensures
        instruction_replaced(instruction, result, replacements@),
{
    let ghost m = replacements@;
    let MirInstruction { kind, result_type, span } = instruction;
    let kind = match kind {
        MirInstructionKind::Add { result, left, right } => MirInstructionKind::Add {
            result,
            left: resolve_replacement(left, replacements),
            right: resolve_replacement(right, replacements),
        },
        MirInstructionKind::Subtract { result, left, right } => MirInstructionKind::Subtract {
            result,
            left: resolve_replacement(left, replacements),
            right: resolve_replacement(right, replacements),
        },
        MirInstructionKind::Multiply { result, left, right } => MirInstructionKind::Multiply {
            result,
            left: resolve_replacement(left, replacements),
            right: resolve_replacement(right, replacements),
        },
        MirInstructionKind::Divide { result, left, right } => MirInstructionKind::Divide {
            result,
            left: resolve_replacement(left, replacements),
            right: resolve_replacement(right, replacements),
        },
        MirInstructionKind::Modulo { result, left, right } => MirInstructionKind::Modulo {
            result,
            left: resolve_replacement(left, replacements),
            right: resolve_replacement(right, replacements),
        },
        MirInstructionKind::Equal { result, left, right } => MirInstructionKind::Equal {
            result,
            left: resolve_replacement(left, replacements),
            right: resolve_replacement(right, replacements),
        },
        MirInstructionKind::NotEqual { result, left, right } => MirInstructionKind::NotEqual {
            result,
            left: resolve_replacement(left, replacements),
            right: resolve_replacement(right, replacements),
        },
        MirInstructionKind::LessThan { result, left, right } => MirInstructionKind::LessThan {
            result,
            left: resolve_replacement(left, replacements),
            right: resolve_replacement(right, replacements),
        },
        MirInstructionKind::LessEqual { result, left, right } => MirInstructionKind::LessEqual {
            result,
            left: resolve_replacement(left, replacements),
            right: resolve_replacement(right, replacements),
        },
        MirInstructionKind::GreaterThan { result, left, right } => MirInstructionKind::GreaterThan {
            result,
            left: resolve_replacement(left, replacements),
            right: resolve_replacement(right, replacements),
        },
        MirInstructionKind::GreaterEqual { result, left, right } => MirInstructionKind::GreaterEqual {
            result,
            left: resolve_replacement(left, replacements),
            right: resolve_replacement(right, replacements),
        },
        MirInstructionKind::And { result, left, right } => MirInstructionKind::And {
            result,
            left: resolve_replacement(left, replacements),
            right: resolve_replacement(right, replacements),
        },
        MirInstructionKind::Or { result, left, right } => MirInstructionKind::Or {
            result,
            left: resolve_replacement(left, replacements),
            right: resolve_replacement(right, replacements),
        },
        MirInstructionKind::Compare { result, operator, left, right } => MirInstructionKind::Compare {
            result,
            operator,
            left: resolve_replacement(left, replacements),
            right: resolve_replacement(right, replacements),
        },
        MirInstructionKind::Not { result, operand } => MirInstructionKind::Not {
            result,
            operand: resolve_replacement(operand, replacements),
        },
        MirInstructionKind::Move { result, value } => MirInstructionKind::Move {
            result,
            value: resolve_replacement(value, replacements),
        },
        MirInstructionKind::Store { name, value } => MirInstructionKind::Store {
            name,
            value: resolve_replacement(value, replacements),
        },
        MirInstructionKind::Branch { condition, true_block, false_block } => MirInstructionKind::Branch {
            condition: resolve_replacement(condition, replacements),
            true_block,
            false_block,
        },
        MirInstructionKind::Call { result, function, arguments } => MirInstructionKind::Call {
            result,
            function,
            arguments: resolve_all(&arguments, replacements),
        },
        MirInstructionKind::Return { value } => MirInstructionKind::Return {
            value: match value {
                Some(v) => Some(resolve_replacement(v, replacements)),
                None => None,
            },
        },
        MirInstructionKind::TableSet { table, key, value } => MirInstructionKind::TableSet {
            table: resolve_replacement(table, replacements),
            key: resolve_replacement(key, replacements),
            value: resolve_replacement(value, replacements),
        },
        MirInstructionKind::TableGet { result, table, key } => MirInstructionKind::TableGet {
            result,
            table: resolve_replacement(table, replacements),
            key: resolve_replacement(key, replacements),
        },
        other => other,
    };
    MirInstruction { kind, result_type, span }
}

/// The instructions of a block after copy propagation, and how many copies
/// went.
fn propagate_instructions(instructions: Vec<MirInstruction>, replacements: &HashMap<usize, usize>) -> (result: (Vec<MirInstruction>, usize))
    ensures
        propagated(instructions@, result.0@, replacements@),
        result.1 == copies_in(instructions@, replacements@),
{
    let ghost m = replacements@;
    let ghost orig = instructions@;
    let mut rest = instructions;
    let mut out: Vec<MirInstruction> = Vec::new();
    let mut removed: usize = 0;
    let n = rest.len();
    let mut j: usize = 0;
    while j < n
        invariant
            n == orig.len(),
            j <= n,
            rest@ == orig.subrange(j as int, n as int),
            propagated(orig.subrange(0, j as int), out@, m),
            removed == copies_in(orig.subrange(0, j as int), m),
            removed <= j,
            m == replacements@,
        decreases n - j,
    {
        let ins = rest.remove(0);
        let ghost prev = out@;
        let copy = match &ins.kind {
            MirInstructionKind::Move { result, .. } => replacements.contains_key(&result.0),
            _ => false,
        };
        if copy {
            removed = removed + 1;
        } else {
            out.push(replace_instruction_uses(ins, replacements));
        }
        proof {
            let run = orig.subrange(0, j + 1);
            assert(run.drop_last() =~= orig.subrange(0, j as int));
            assert(run.last() == ins);
            assert(rest@ =~= orig.subrange(j + 1, n as int));
            if !copy {
                assert(out@.drop_last() =~= prev);
            }
        }
        j = j + 1;
    }
    assert(orig.subrange(0, n as int) =~= orig);
    (out, removed)
}

/// The values whose id has no replacement.
fn drop_replaced_values(values: Vec<MirValueData>, replacements: &HashMap<usize, usize>) -> (result: Vec<MirValueData>)
    ensures
        result@ == values_without(values@, replacements@),
{
    let ghost m = replacements@;
    let ghost orig = values@;
    let mut rest = values;
    let mut out: Vec<MirValueData> = Vec::new();
    let n = rest.len();
    let mut j: usize = 0;
    while j < n
        invariant
            n == orig.len(),
            j <= n,
            rest@ == orig.subrange(j as int, n as int),
            out@ == values_without(orig.subrange(0, j as int), m),
            m == replacements@,
        decreases n - j,
    {
        let value = rest.remove(0);
        let replaced = replacements.contains_key(&value.id.0);
        let ghost prev = out@;
        if !replaced {
            out.push(value);
        }
        proof {
            let run = orig.subrange(0, j + 1);
            assert(run.drop_last() =~= orig.subrange(0, j as int));
            assert(rest@ =~= orig.subrange(j + 1, n as int));
            assert(out@ =~= values_without(run, m));
        }
        j = j + 1;
    }
    assert(orig.subrange(0, n as int) =~= orig);
    out
}

/// The copies of a function, gathered block by block in order.
fn collect_replacements(function: &MirFunction) -> (result: HashMap<usize, usize>)
    ensures
        result@ == replacements_of(function.blocks@),
{
    let mut replacements: HashMap<usize, usize> = HashMap::new();
    let mut b: usize = 0;
    while b < function.blocks.len()
        invariant
            b <= function.blocks@.len(),
            replacements@ == moves_in_blocks(Map::empty(), function.blocks@.subrange(0, b as int)),
        decreases function.blocks.len() - b,
    {
        let instructions = &function.blocks[b].instructions;
        let ghost start = replacements@;
        let mut j: usize = 0;
        while j < instructions.len()
            invariant
                j <= instructions@.len(),
                replacements@ == moves_in(start, instructions@.subrange(0, j as int)),
            decreases instructions.len() - j,
        {
            if let MirInstructionKind::Move { result, value } = &instructions[j].kind {
                let target = resolve_replacement(*value, &replacements);
                replacements.insert(result.0, target.0);
            }
            proof {
                let run = instructions@.subrange(0, j + 1);
                assert(run.drop_last() =~= instructions@.subrange(0, j as int));
            }
            j = j + 1;
        }
        proof {
            assert(instructions@.subrange(0, instructions@.len() as int) =~= instructions@);
            let run = function.blocks@.subrange(0, b + 1);
            assert(run.drop_last() =~= function.blocks@.subrange(0, b as int));
        }
        b = b + 1;
    }
    assert(function.blocks@.subrange(0, function.blocks@.len() as int) =~= function.blocks@);
    replacements
}

/// Runs the passes over every function of a module and counts what they
/// changed.
pub struct MirOptimizer {
    stats: MirOptimizationStats,
}

impl MirOptimizer {
    /// What the last run changed.
    pub closed spec fn current_stats(self) -> MirOptimizationStats {
        self.stats
    }

    pub fn new() -> (result: Self)
        ensures
            result.current_stats() == zero_stats(),
    {
        MirOptimizer { stats: MirOptimizationStats::default() }
    }

    pub fn stats(&self) -> (result: &MirOptimizationStats)
        ensures
            *result == self.current_stats(),
    {
        &self.stats
    }

    /// Runs the passes over every function of the module, in order, and
    /// reports what they changed in this run.
    #[verifier::spinoff_prover]
    #[verifier::rlimit(40)]
    pub fn optimize(&mut self, module: MirModule) -> (result: MirOptimizationResult)
        ensures
            result.module.name == module.name,
            result.module.globals == module.globals,
            result.module.constants == module.constants,
            result.module.metadata == module.metadata,
            result.module.functions@.len() == module.functions@.len(),
            exists|counts: Seq<PassCounts>| {
                &&& counts.len() == module.functions@.len()
                &&& forall|i: int| 0 <= i < counts.len() ==> function_optimized(
                    module.functions@[i],
                    result.module.functions@[i],
                    #[trigger] counts[i],
                )
                &&& result.stats == stats_of(total_counts(counts))
            },
            final(self).current_stats() == result.stats,
    {
        self.stats = MirOptimizationStats::default();
        let mut optimized = module;
        let mut functions: Vec<MirFunction> = Vec::new();
        std::mem::swap(&mut functions, &mut optimized.functions);
        let ghost orig = functions@;
        let ghost mut counts: Seq<PassCounts> = Seq::empty();
        let mut out: Vec<MirFunction> = Vec::new();
        let n = functions.len();
        let mut i: usize = 0;
        while i < n
            invariant
                n == orig.len(),
                orig == module.functions@,
                i <= n,
                functions@ == orig.subrange(i as int, n as int),
                out@.len() == i,
                counts.len() == i,
                forall|k: int| 0 <= k < i ==> function_optimized(orig[k], out@[k], #[trigger] counts[k]),
                self.stats == stats_of(total_counts(counts)),
                optimized.name == module.name,
                optimized.globals == module.globals,
                optimized.constants == module.constants,
                optimized.metadata == module.metadata,
            decreases n - i,
        {
            let mut function = functions.remove(0);
            let ghost f0 = function;
            let ghost s0 = self.stats;
            self.copy_propagation(&mut function);
            let ghost f1 = function;
            let ghost s1 = self.stats;
            self.constant_folding(&mut function);
            let ghost f2 = function;
            let ghost s2 = self.stats;
            self.dead_code_elimination(&mut function);
            let ghost f3 = function;
            let ghost s3 = self.stats;
            self.remove_unreachable_blocks(&mut function);
            let ghost f5 = function;
            let ghost s5 = self.stats;
            Self::refresh_block_terminators(&mut function);
            let ghost f6 = function;
            function.rebuild_cfg();
            proof {
                let c = lemma_stages(f0, f1, f2, f3, f5, f6, function, s3, s5);
                let prev = counts;
                counts = counts.push(c);
                assert(counts.drop_last() =~= prev);
                let t = total_counts(prev);
                lemma_saturating_twice(0, t.0, c.0);
                lemma_saturating_twice(0, t.1, c.1);
                lemma_saturating_twice(0, t.2, c.2);
                lemma_saturating_twice(0, t.3, c.3);
                assert(f0 == orig[i as int]);
                assert(functions@ =~= orig.subrange(i + 1, n as int));
            }
            out.push(function);
            i = i + 1;
        }
        optimized.functions = out;
        MirOptimizationResult { module: optimized, stats: self.stats }
    }

    /// Replaces each value read by the end of its copy chain and removes the
    /// moves.
    fn copy_propagation(&mut self, function: &mut MirFunction)
        ensures
            copies_propagated(*old(function), *final(function)),
            final(self).stats == counted_copies(old(self).stats, copies_in_blocks(old(function).blocks@, replacements_of(old(function).blocks@))),
    {
        let ghost before = *function;
        let replacements = collect_replacements(function);
        let ghost m = replacements@;
        if replacements.is_empty() {
            proof {
                lemma_no_copies(before.blocks@, m);
            }
            return;
        }
        let ghost stats0 = self.stats;
        let mut blocks: Vec<MirBasicBlock> = Vec::new();
        std::mem::swap(&mut blocks, &mut function.blocks);
        let mut out: Vec<MirBasicBlock> = Vec::new();
        let n = blocks.len();
        let mut i: usize = 0;
        while i < n
            invariant
                n == before.blocks@.len(),
                i <= n,
                blocks@ == before.blocks@.subrange(i as int, n as int),
                out@.len() == i,
                forall|k: int| 0 <= k < i ==> {
                    &&& same_shell(before.blocks@[k], #[trigger] out@[k])
                    &&& propagated(before.blocks@[k].instructions@, out@[k].instructions@, m)
                },
                self.stats == counted_copies(stats0, copies_in_blocks(before.blocks@.subrange(0, i as int), m)),
                same_header(before, *function),
                m == replacements@,
            decreases n - i,
        {
            let mut block = blocks.remove(0);
            let ghost original = block;
            let mut instructions: Vec<MirInstruction> = Vec::new();
            std::mem::swap(&mut instructions, &mut block.instructions);
            let (kept, removed) = propagate_instructions(instructions, &replacements);
            block.instructions = kept;
            self.stats.copies_propagated = self.stats.copies_propagated.saturating_add(removed);
            out.push(block);
            proof {
                assert(original == before.blocks@[i as int]);
                let run = before.blocks@.subrange(0, i + 1);
                assert(run.drop_last() =~= before.blocks@.subrange(0, i as int));
                lemma_saturating_twice(stats0.copies_propagated, copies_in_blocks(run.drop_last(), m), copies_in(original.instructions@, m));
                assert(blocks@ =~= before.blocks@.subrange(i + 1, n as int));
            }
            i = i + 1;
        }
        assert(before.blocks@.subrange(0, n as int) =~= before.blocks@);
        function.blocks = out;
        let mut values: Vec<MirValueData> = Vec::new();
        std::mem::swap(&mut values, &mut function.values);
        function.values = drop_replaced_values(values, &replacements);
    }

    /// Folds integer and boolean operations on known constants, walking the
    /// blocks in order.
    fn constant_folding(&mut self, function: &mut MirFunction)
        ensures
            constants_folded(*old(function), *final(function)),
            final(self).stats == counted_folds(old(self).stats, fold_blocks_count(Map::empty(), old(function).blocks@)),
    {
        let ghost before = *function;
        let ghost stats0 = self.stats;
        let mut constants: HashMap<usize, KnownConstant> = HashMap::new();
        let mut blocks: Vec<MirBasicBlock> = Vec::new();
        std::mem::swap(&mut blocks, &mut function.blocks);
        let mut out: Vec<MirBasicBlock> = Vec::new();
        let n = blocks.len();
        let mut i: usize = 0;
        while i < n
            invariant
                n == before.blocks@.len(),
                i <= n,
                blocks@ == before.blocks@.subrange(i as int, n as int),
                out@.len() == i,
                forall|k: int| 0 <= k < i ==> {
                    &&& same_shell(before.blocks@[k], #[trigger] out@[k])
                    &&& out@[k].instructions@ == fold_run(
                        fold_blocks_state(Map::empty(), before.blocks@.subrange(0, k)),
                        before.blocks@[k].instructions@,
                    )
                },
                constants@ == fold_blocks_state(Map::empty(), before.blocks@.subrange(0, i as int)),
                self.stats == counted_folds(stats0, fold_blocks_count(Map::empty(), before.blocks@.subrange(0, i as int))),
                same_header(before, *function),
            decreases n - i,
        {
            let mut block = blocks.remove(0);
            let ghost original = block;
            let mut instructions: Vec<MirInstruction> = Vec::new();
            std::mem::swap(&mut instructions, &mut block.instructions);
            let (folded, count) = fold_instructions(instructions, &mut constants);
            block.instructions = folded;
            self.stats.constants_folded = self.stats.constants_folded.saturating_add(count);
            out.push(block);
            proof {
                assert(original == before.blocks@[i as int]);
                let run = before.blocks@.subrange(0, i + 1);
                assert(run.drop_last() =~= before.blocks@.subrange(0, i as int));
                lemma_saturating_twice(
                    stats0.constants_folded,
                    fold_blocks_count(Map::empty(), run.drop_last()),
                    fold_run_count(fold_blocks_state(Map::empty(), run.drop_last()), original.instructions@),
                );
                assert(blocks@ =~= before.blocks@.subrange(i + 1, n as int));
            }
            i = i + 1;
        }
        assert(before.blocks@.subrange(0, n as int) =~= before.blocks@);
        function.blocks = out;
    }

    /// Removes pure instructions whose result is neither protected nor read,
    /// and the values they defined.
    fn dead_code_elimination(&mut self, function: &mut MirFunction)
        ensures
            dead_code_removed(*old(function), *final(function)),
            final(self).stats == counted_dead(old(self).stats, dead_count_blocks(old(function).blocks@, old(function).blocks@, old(function).values@)),
    {
        let ghost before = *function;
        let ghost all_blocks = function.blocks@;
        let ghost all_values = function.values@;
        let ghost stats0 = self.stats;
        let used = collect_used(function);
        let protected = collect_protected(&function.values);
        let mut removed: HashMap<usize, bool> = HashMap::new();
        let mut blocks: Vec<MirBasicBlock> = Vec::new();
        std::mem::swap(&mut blocks, &mut function.blocks);
        let mut out: Vec<MirBasicBlock> = Vec::new();
        let n = blocks.len();
        let mut i: usize = 0;
        while i < n
            invariant
                n == all_blocks.len(),
                all_blocks == before.blocks@,
                all_values == before.values@,
                i <= n,
                blocks@ == all_blocks.subrange(i as int, n as int),
                out@.len() == i,
                forall|k: int| 0 <= k < i ==> {
                    &&& same_shell(all_blocks[k], #[trigger] out@[k])
                    &&& out@[k].instructions@ == without_dead(all_blocks[k].instructions@, all_blocks, all_values)
                },
                forall|v: MirValueId| #[trigger] used@.contains_key(v.0) <==> used_in_blocks(all_blocks, v),
                forall|v: MirValueId| #[trigger] protected@.contains_key(v.0) <==> protected_value(all_values, v),
                forall|v: MirValueId| #[trigger] removed@.contains_key(v.0) <==> defined_by_dead(all_blocks.subrange(0, i as int), all_blocks, all_values, v),
                self.stats == counted_dead(stats0, dead_count_blocks(all_blocks.subrange(0, i as int), all_blocks, all_values)),
                same_header(before, *function),
            decreases n - i,
        {
            let mut block = blocks.remove(0);
            let ghost original = block;
            let mut instructions: Vec<MirInstruction> = Vec::new();
            std::mem::swap(&mut instructions, &mut block.instructions);
            let (live, count) = remove_dead_instructions(instructions, &used, &protected, &mut removed, Ghost(all_blocks), Ghost(all_values));
            block.instructions = live;
            self.stats.dead_instructions_removed = self.stats.dead_instructions_removed.saturating_add(count);
            out.push(block);
            proof {
                assert(original == all_blocks[i as int]);
                let run = all_blocks.subrange(0, i + 1);
                let head = all_blocks.subrange(0, i as int);
                assert(run.drop_last() =~= head);
                lemma_saturating_twice(
                    stats0.dead_instructions_removed,
                    dead_count_blocks(head, all_blocks, all_values),
                    dead_count(original.instructions@, all_blocks, all_values),
                );
                assert(blocks@ =~= all_blocks.subrange(i + 1, n as int));
                assert forall|v: MirValueId| #[trigger] removed@.contains_key(v.0) <==> defined_by_dead(run, all_blocks, all_values, v) by {
                    if defined_by_dead(run, all_blocks, all_values, v) {
                        let (a, c) = choose|a: int, c: int| 0 <= a < run.len() && 0 <= c < run[a].instructions@.len()
                            && dead_in(#[trigger] run[a].instructions@[c], all_blocks, all_values)
                            && instruction_result(run[a].instructions@[c].kind) == Some(v);
                        if a < i {
                            assert(head[a] == run[a]);
                            assert(defined_by_dead(head, all_blocks, all_values, v));
                        } else {
                            assert(run[a] == original);
                            assert(dead_defines(original.instructions@, all_blocks, all_values, v));
                        }
                    }
                    if defined_by_dead(head, all_blocks, all_values, v) {
                        let (a, c) = choose|a: int, c: int| 0 <= a < head.len() && 0 <= c < head[a].instructions@.len()
                            && dead_in(#[trigger] head[a].instructions@[c], all_blocks, all_values)
                            && instruction_result(head[a].instructions@[c].kind) == Some(v);
                        assert(run[a] == head[a]);
                    }
                    if dead_defines(original.instructions@, all_blocks, all_values, v) {
                        let c = choose|c: int| 0 <= c < original.instructions@.len()
                            && dead_in(#[trigger] original.instructions@[c], all_blocks, all_values)
                            && instruction_result(original.instructions@[c].kind) == Some(v);
                        assert(run[i as int] == original);
                        assert(run[i as int].instructions@[c] == original.instructions@[c]);
                    }
                }
            }
            i = i + 1;
        }
        assert(all_blocks.subrange(0, n as int) =~= all_blocks);
        function.blocks = out;
        let mut values: Vec<MirValueData> = Vec::new();
        std::mem::swap(&mut values, &mut function.values);
        function.values = drop_dead_values(values, &removed, Ghost(all_blocks), Ghost(all_values));
    }

    /// Rebuilds the predecessor lists, then drops the blocks the entry cannot
    /// reach.
    fn remove_unreachable_blocks(&mut self, function: &mut MirFunction)
        ensures
            exists|mid: MirFunction, cfg: Option<MirControlFlowGraph>, removed: nat| {
                &&& predecessors_rebuilt(*old(function), mid)
                &&& built_from(mid, cfg)
                &&& unreachable_removed(mid, cfg, *final(function), removed)
                &&& final(self).stats == counted_unreachable(old(self).stats, removed)
            },
    {
        let ghost stats0 = self.stats;
        function.rebuild_cfg();
        let ghost mid = *function;
        let built = MirControlFlowGraph::build(function);
        let ghost g = built;
        let cfg = match built {
            None => {
                assert(unreachable_removed(mid, g, *function, 0));
                return;
            },
            Some(cfg) => cfg,
        };
        let reachable = cfg.reachable_blocks();
        proof {
            lemma_sorted_unique(reachable@, reachable_ids(cfg));
        }
        if reachable.len() == function.blocks.len() {
            assert(unreachable_removed(mid, g, *function, 0));
            return;
        }
        let mut blocks: Vec<MirBasicBlock> = Vec::new();
        std::mem::swap(&mut blocks, &mut function.blocks);
        let mut kept: Vec<MirBasicBlock> = Vec::new();
        let n = blocks.len();
        let mut dropped: usize = 0;
        let mut i: usize = 0;
        while i < n
            invariant
                n == mid.blocks@.len(),
                i <= n,
                blocks@ == mid.blocks@.subrange(i as int, n as int),
                kept@ == reachable_only(mid.blocks@.subrange(0, i as int), cfg),
                dropped + kept@.len() == i,
                forall|x: MirBlockId| reachable@.contains(x) <==> cfg.marked_reachable(x),
            decreases n - i,
        {
            let block = blocks.remove(0);
            let ghost original = block;
            if contains_block(&reachable, block.id) {
                kept.push(block);
            } else {
                dropped = dropped + 1;
            }
            proof {
                let run = mid.blocks@.subrange(0, i + 1);
                assert(run.drop_last() =~= mid.blocks@.subrange(0, i as int));
                assert(run.last() == original);
                assert(kept@ =~= reachable_only(run, cfg));
                assert(blocks@ =~= mid.blocks@.subrange(i + 1, n as int));
            }
            i = i + 1;
        }
        assert(mid.blocks@.subrange(0, n as int) =~= mid.blocks@);
        let ghost kept_view = kept@;
        let live = ids_of_blocks(&kept);
        let mut out: Vec<MirBasicBlock> = Vec::new();
        let m = kept.len();
        let mut k: usize = 0;
        while k < m
            invariant
                m == kept_view.len(),
                k <= m,
                kept@ == kept_view.subrange(k as int, m as int),
                live@ == block_ids(kept_view),
                out@.len() == k,
                forall|j: int| 0 <= j < k ==> {
                    &&& (#[trigger] out@[j]).id == kept_view[j].id
                    &&& out@[j].instructions == kept_view[j].instructions
                    &&& out@[j].terminator == kept_view[j].terminator
                    &&& out@[j].is_entry == kept_view[j].is_entry
                    &&& out@[j].is_exit == kept_view[j].is_exit
                    &&& out@[j].predecessors@ == ids_within(kept_view[j].predecessors@, live@)
                    &&& out@[j].successors@ == ids_within(kept_view[j].successors@, live@)
                },
            decreases m - k,
        {
            let mut block = kept.remove(0);
            let ghost original = block;
            let predecessors = keep_live_ids(&block.predecessors, &live);
            let successors = keep_live_ids(&block.successors, &live);
            block.predecessors = predecessors;
            block.successors = successors;
            out.push(block);
            proof {
                assert(original == kept_view[k as int]);
                assert(kept@ =~= kept_view.subrange(k + 1, m as int));
            }
            k = k + 1;
        }
        function.blocks = out;
        let entry = find_entry(&function.blocks);
        if entry.is_some() {
            function.entry_block = entry;
        }
        function.exit_blocks = find_exits(&function.blocks);
        self.stats.unreachable_blocks_removed = self.stats.unreachable_blocks_removed.saturating_add(dropped);
        assert(unreachable_removed(mid, g, *function, dropped as nat));
    }

    /// Sets every block's terminator and successors from its last instruction.
    fn refresh_block_terminators(function: &mut MirFunction)
        ensures
            terminators_refreshed(*old(function), *final(function)),
    {
        let ghost before = *function;
        let mut blocks: Vec<MirBasicBlock> = Vec::new();
        std::mem::swap(&mut blocks, &mut function.blocks);
        let mut out: Vec<MirBasicBlock> = Vec::new();
        let n = blocks.len();
        let mut i: usize = 0;
        while i < n
            invariant
                n == before.blocks@.len(),
                i <= n,
                blocks@ == before.blocks@.subrange(i as int, n as int),
                out@.len() == i,
                forall|k: int| 0 <= k < i ==> {
                    let b = before.blocks@[k];
                    let a = #[trigger] out@[k];
                    &&& a.id == b.id
                    &&& a.instructions == b.instructions
                    &&& a.predecessors == b.predecessors
                    &&& a.is_entry == b.is_entry
                    &&& a.is_exit == b.is_exit
                    &&& a.terminator == last_terminator(b.instructions@)
                    &&& a.successors@ == block_successors(a.terminator)
                },
                same_header(before, *function),
            decreases n - i,
        {
            let mut block = blocks.remove(0);
            let ghost original = block;
            let count = block.instructions.len();
            let terminator = if count > 0 {
                block.instructions[count - 1].terminator()
            } else {
                None
            };
            block.terminator = terminator;
            block.successors = match terminator {
                Some(t) => t.successors(),
                None => Vec::new(),
            };
            out.push(block);
            proof {
                assert(original == before.blocks@[i as int]);
                assert(blocks@ =~= before.blocks@.subrange(i + 1, n as int));
            }
            i = i + 1;
        }
        function.blocks = out;
    }
}

/// Without copies nothing is counted.
proof fn lemma_no_copies(blocks: Seq<MirBasicBlock>, m: Map<usize, usize>)
    requires
        m.is_empty(),
    ensures
        copies_in_blocks(blocks, m) == 0,
    decreases blocks.len(),
{
    if blocks.len() > 0 {
        lemma_no_copies(blocks.drop_last(), m);
        lemma_no_copies_in(blocks.last().instructions@, m);
    }
}

proof fn lemma_no_copies_in(s: Seq<MirInstruction>, m: Map<usize, usize>)
    requires
        m.is_empty(),
    ensures
        copies_in(s, m) == 0,
    decreases s.len(),
{
    if s.len() > 0 {
        lemma_no_copies_in(s.drop_last(), m);
        if let MirInstructionKind::Move { result, .. } = s.last().kind {
            assert(!m.dom().contains(result.0));
        }
    }
}

// ---------------------------------------------------------------------------
// Constant folding

/// What constant folding knows of a value defined by a constant.
#[derive(Debug, Clone, Copy, PartialEq, Eq, Structural)]
pub enum KnownConstant {
    Integer(i64),
    Boolean(bool),
    Other,
}

/// What folding keeps of a constant: integers and booleans; anything else
/// only that it is constant.
pub open spec fn known_of(value: MirValue) -> KnownConstant {
    match value {
        MirValue::Integer(n) => KnownConstant::Integer(n),
        MirValue::Boolean(b) => KnownConstant::Boolean(b),
        _ => KnownConstant::Other,
    }
}

/// The integers two values are known to hold.
pub open spec fn integer_operands(c: Map<usize, KnownConstant>, left: MirValueId, right: MirValueId) -> Option<(i64, i64)> {
    if c.contains_key(left.0) && c.contains_key(right.0) {
        match (c[left.0], c[right.0]) {
            (KnownConstant::Integer(a), KnownConstant::Integer(b)) => Some((a, b)),
            _ => None,
        }
    } else {
        None
    }
}

/// The booleans two values are known to hold.
pub open spec fn boolean_operands(c: Map<usize, KnownConstant>, left: MirValueId, right: MirValueId) -> Option<(bool, bool)> {
    if c.contains_key(left.0) && c.contains_key(right.0) {
        match (c[left.0], c[right.0]) {
            (KnownConstant::Boolean(a), KnownConstant::Boolean(b)) => Some((a, b)),
            _ => None,
        }
    } else {
        None
    }
}

/// An integer result, when the operation gave one.
pub open spec fn integer_result(result: MirValueId, value: Option<i64>) -> Option<(MirValueId, MirValue)> {
    match value {
        Some(v) => Some((result, MirValue::Integer(v))),
        None => None,
    }
}

/// The constant an instruction computes when the constants `c` are known:
/// integer arithmetic that stays within `i64` and has no zero divisor,
/// integer comparisons, and `and`, `or` and `not` of booleans.
pub open spec fn fold_kind(kind: MirInstructionKind, c: Map<usize, KnownConstant>) -> Option<(MirValueId, MirValue)> {
    match kind {
        MirInstructionKind::Add { result, left, right } => match integer_operands(c, left, right) {
            Some((a, b)) => integer_result(result, a.checked_add(b)),
            None => None,
        },
        MirInstructionKind::Subtract { result, left, right } => match integer_operands(c, left, right) {
            Some((a, b)) => integer_result(result, a.checked_sub(b)),
            None => None,
        },
        MirInstructionKind::Multiply { result, left, right } => match integer_operands(c, left, right) {
            Some((a, b)) => integer_result(result, a.checked_mul(b)),
            None => None,
        },
        MirInstructionKind::Divide { result, left, right } => match integer_operands(c, left, right) {
            Some((a, b)) => integer_result(result, a.checked_div(b)),
            None => None,
        },
        MirInstructionKind::Modulo { result, left, right } => match integer_operands(c, left, right) {
            Some((a, b)) => integer_result(result, a.checked_rem(b)),
            None => None,
        },
        MirInstructionKind::Equal { result, left, right } => match integer_operands(c, left, right) {
            Some((a, b)) => Some((result, MirValue::Boolean(a == b))),
            None => None,
        },
        MirInstructionKind::NotEqual { result, left, right } => match integer_operands(c, left, right) {
            Some((a, b)) => Some((result, MirValue::Boolean(a != b))),
            None => None,
        },
        MirInstructionKind::LessThan { result, left, right } => match integer_operands(c, left, right) {
            Some((a, b)) => Some((result, MirValue::Boolean(a < b))),
            None => None,
        },
        MirInstructionKind::LessEqual { result, left, right } => match integer_operands(c, left, right) {
            Some((a, b)) => Some((result, MirValue::Boolean(a <= b))),
            None => None,
        },
        MirInstructionKind::GreaterThan { result, left, right } => match integer_operands(c, left, right) {
            Some((a, b)) => Some((result, MirValue::Boolean(a > b))),
            None => None,
        },
        MirInstructionKind::GreaterEqual { result, left, right } => match integer_operands(c, left, right) {
            Some((a, b)) => Some((result, MirValue::Boolean(a >= b))),
            None => None,
        },
        MirInstructionKind::And { result, left, right } => match boolean_operands(c, left, right) {
            Some((a, b)) => Some((result, MirValue::Boolean(a && b))),
            None => None,
        },
        MirInstructionKind::Or { result, left, right } => match boolean_operands(c, left, right) {
            Some((a, b)) => Some((result, MirValue::Boolean(a || b))),
            None => None,
        },
        MirInstructionKind::Not { result, operand } => if c.contains_key(operand.0) {
            match c[operand.0] {
                KnownConstant::Boolean(v) => Some((result, MirValue::Boolean(!v))),
                _ => None,
            }
        } else {
            None
        },
        _ => None,
    }
}

/// An instruction after folding with the constants `c` known.
pub open spec fn fold_one(c: Map<usize, KnownConstant>, instruction: MirInstruction) -> MirInstruction {
    if instruction.kind is Const {
        instruction
    } else {
        match fold_kind(instruction.kind, c) {
            Some((result, value)) => MirInstruction {
                kind: MirInstructionKind::Const { result, value },
                result_type: instruction.result_type,
                span: instruction.span,
            },
            None => instruction,
        }
    }
}

/// The constants known after one more instruction.
pub open spec fn fold_state(c: Map<usize, KnownConstant>, instruction: MirInstruction) -> Map<usize, KnownConstant> {
    match instruction.kind {
        MirInstructionKind::Const { result, value } => c.insert(result.0, known_of(value)),
        _ => match fold_kind(instruction.kind, c) {
            Some((result, value)) => c.insert(result.0, known_of(value)),
            None => c,
        },
    }
}

/// Whether one more instruction is folded.
pub open spec fn fold_counts(c: Map<usize, KnownConstant>, instruction: MirInstruction) -> nat {
    if !(instruction.kind is Const) && fold_kind(instruction.kind, c).is_some() {
        1
    } else {
        0
    }
}

/// The constants known after a run of instructions.
pub open spec fn fold_run_state(c: Map<usize, KnownConstant>, s: Seq<MirInstruction>) -> Map<usize, KnownConstant>
    decreases s.len(),
{
    if s.len() == 0 {
        c
    } else {
        fold_state(fold_run_state(c, s.drop_last()), s.last())
    }
}

/// A run of instructions after folding.
pub open spec fn fold_run(c: Map<usize, KnownConstant>, s: Seq<MirInstruction>) -> Seq<MirInstruction>
    decreases s.len(),
{
    if s.len() == 0 {
        seq![]
    } else {
        fold_run(c, s.drop_last()).push(fold_one(fold_run_state(c, s.drop_last()), s.last()))
    }
}

/// How many instructions of a run are folded.
pub open spec fn fold_run_count(c: Map<usize, KnownConstant>, s: Seq<MirInstruction>) -> nat
    decreases s.len(),
{
    if s.len() == 0 {
        0
    } else {
        fold_run_count(c, s.drop_last()) + fold_counts(fold_run_state(c, s.drop_last()), s.last())
    }
}

/// The constants known after a run of blocks.
pub open spec fn fold_blocks_state(c: Map<usize, KnownConstant>, blocks: Seq<MirBasicBlock>) -> Map<usize, KnownConstant>
    decreases blocks.len(),
{
    if blocks.len() == 0 {
        c
    } else {
        fold_run_state(fold_blocks_state(c, blocks.drop_last()), blocks.last().instructions@)
    }
}

/// How many instructions of a run of blocks are folded.
pub open spec fn fold_blocks_count(c: Map<usize, KnownConstant>, blocks: Seq<MirBasicBlock>) -> nat
    decreases blocks.len(),
{
    if blocks.len() == 0 {
        0
    } else {
        fold_blocks_count(c, blocks.drop_last()) + fold_run_count(fold_blocks_state(c, blocks.drop_last()), blocks.last().instructions@)
    }
}

/// What constant folding makes of a function: the blocks are walked in
/// order with the constants defined so far, and each foldable instruction
/// becomes the constant it computes.
pub open spec fn constants_folded(before: MirFunction, after: MirFunction) -> bool {
    &&& same_header(before, after)
    &&& after.blocks@.len() == before.blocks@.len()
    &&& forall|i: int| 0 <= i < before.blocks@.len() ==> {
        &&& same_shell(before.blocks@[i], #[trigger] after.blocks@[i])
        &&& after.blocks@[i].instructions@ == fold_run(
            fold_blocks_state(Map::empty(), before.blocks@.subrange(0, i)),
            before.blocks@[i].instructions@,
        )
    }
}

fn known_value(value: &MirValue) -> (result: KnownConstant)
    ensures
        result == known_of(*value),
{
    match value {
        MirValue::Integer(n) => KnownConstant::Integer(*n),
        MirValue::Boolean(b) => KnownConstant::Boolean(*b),
        _ => KnownConstant::Other,
    }
}

fn known_integers(c: &HashMap<usize, KnownConstant>, left: MirValueId, right: MirValueId) -> (result: Option<(i64, i64)>)
    ensures
        result == integer_operands(c@, left, right),
{
    match (c.get(&left.0), c.get(&right.0)) {
        (Some(KnownConstant::Integer(a)), Some(KnownConstant::Integer(b))) => Some((*a, *b)),
        _ => None,
    }
}

fn known_booleans(c: &HashMap<usize, KnownConstant>, left: MirValueId, right: MirValueId) -> (result: Option<(bool, bool)>)
    ensures
        result == boolean_operands(c@, left, right),
{
    match (c.get(&left.0), c.get(&right.0)) {
        (Some(KnownConstant::Boolean(a)), Some(KnownConstant::Boolean(b))) => Some((*a, *b)),
        _ => None,
    }
}

fn integer_fold(result: MirValueId, value: Option<i64>) -> (r: Option<(MirValueId, MirValue)>)
    ensures
        r == integer_result(result, value),
{
    match value {
        Some(v) => Some((result, MirValue::Integer(v))),
        None => None,
    }
}

/// The constant an instruction computes, if the known constants decide it.
#[verifier::spinoff_prover]
fn fold_instruction(kind: &MirInstructionKind, constants: &HashMap<usize, KnownConstant>) -> (result: Option<(MirValueId, MirValue)>)
    ensures
        result == fold_kind(*kind, constants@),
{
    match kind {
        MirInstructionKind::Add { result, left, right } => match known_integers(constants, *left, *right) {
            Some((a, b)) => integer_fold(*result, a.checked_add(b)),
            None => None,
        },
        MirInstructionKind::Subtract { result, left, right } => match known_integers(constants, *left, *right) {
            Some((a, b)) => integer_fold(*result, a.checked_sub(b)),
            None => None,
        },
        MirInstructionKind::Multiply { result, left, right } => match known_integers(constants, *left, *right) {
            Some((a, b)) => integer_fold(*result, a.checked_mul(b)),
            None => None,
        },
        MirInstructionKind::Divide { result, left, right } => match known_integers(constants, *left, *right) {
            Some((a, b)) => integer_fold(*result, a.checked_div(b)),
            None => None,
        },
        MirInstructionKind::Modulo { result, left, right } => match known_integers(constants, *left, *right) {
            Some((a, b)) => integer_fold(*result, a.checked_rem(b)),
            None => None,
        },
        MirInstructionKind::Equal { result, left, right } => match known_integers(constants, *left, *right) {
            Some((a, b)) => Some((*result, MirValue::Boolean(a == b))),
            None => None,
        },
        MirInstructionKind::NotEqual { result, left, right } => match known_integers(constants, *left, *right) {
            Some((a, b)) => Some((*result, MirValue::Boolean(a != b))),
            None => None,
        },
        MirInstructionKind::LessThan { result, left, right } => match known_integers(constants, *left, *right) {
            Some((a, b)) => Some((*result, MirValue::Boolean(a < b))),
            None => None,
        },
        MirInstructionKind::LessEqual { result, left, right } => match known_integers(constants, *left, *right) {
            Some((a, b)) => Some((*result, MirValue::Boolean(a <= b))),
            None => None,
        },
        MirInstructionKind::GreaterThan { result, left, right } => match known_integers(constants, *left, *right) {
            Some((a, b)) => Some((*result, MirValue::Boolean(a > b))),
            None => None,
        },
        MirInstructionKind::GreaterEqual { result, left, right } => match known_integers(constants, *left, *right) {
            Some((a, b)) => Some((*result, MirValue::Boolean(a >= b))),
            None => None,
        },
        MirInstructionKind::And { result, left, right } => match known_booleans(constants, *left, *right) {
            Some((a, b)) => Some((*result, MirValue::Boolean(a && b))),
            None => None,
        },
        MirInstructionKind::Or { result, left, right } => match known_booleans(constants, *left, *right) {
            Some((a, b)) => Some((*result, MirValue::Boolean(a || b))),
            None => None,
        },
        MirInstructionKind::Not { result, operand } => match constants.get(&operand.0) {
            Some(KnownConstant::Boolean(v)) => Some((*result, MirValue::Boolean(!*v))),
            _ => None,
        },
        _ => None,
    }
}

/// Folds a block's instructions with the constants known so far, and
/// counts the folds.
fn fold_instructions(instructions: Vec<MirInstruction>, constants: &mut HashMap<usize, KnownConstant>) -> (result: (Vec<MirInstruction>, usize))
    ensures
        result.0@ == fold_run(old(constants)@, instructions@),
        final(constants)@ == fold_run_state(old(constants)@, instructions@),
        result.1 == fold_run_count(old(constants)@, instructions@),
{
    let ghost c0 = constants@;
    let ghost orig = instructions@;
    let mut rest = instructions;
    let mut out: Vec<MirInstruction> = Vec::new();
    let mut folded: usize = 0;
    let n = rest.len();
    let mut j: usize = 0;
    while j < n
        invariant
            n == orig.len(),
            j <= n,
            rest@ == orig.subrange(j as int, n as int),
            out@ == fold_run(c0, orig.subrange(0, j as int)),
            constants@ == fold_run_state(c0, orig.subrange(0, j as int)),
            folded == fold_run_count(c0, orig.subrange(0, j as int)),
            folded <= j,
        decreases n - j,
    {
        let ins = rest.remove(0);
        let ghost c = constants@;
        let ghost prev = out@;
        let is_const = match &ins.kind {
            MirInstructionKind::Const { result, value } => {
                let known = known_value(value);
                constants.insert(result.0, known);
                true
            },
            _ => false,
        };
        if is_const {
            out.push(ins);
        } else {
            match fold_instruction(&ins.kind, constants) {
                Some((result, value)) => {
                    let known = known_value(&value);
                    out.push(MirInstruction { kind: MirInstructionKind::Const { result, value }, result_type: ins.result_type, span: ins.span });
                    constants.insert(result.0, known);
                    folded = folded + 1;
                },
                None => {
                    out.push(ins);
                },
            }
        }
        proof {
            let run = orig.subrange(0, j + 1);
            assert(run.drop_last() =~= orig.subrange(0, j as int));
            assert(run.last() == ins);
            assert(rest@ =~= orig.subrange(j + 1, n as int));
            assert(out@ =~= prev.push(fold_one(c, ins)));
        }
        j = j + 1;
    }
    assert(orig.subrange(0, n as int) =~= orig);
    (out, folded)
}

// ---------------------------------------------------------------------------
// Dead-code elimination

/// The values an instruction reads, in order.
pub open spec fn instruction_uses(kind: MirInstructionKind) -> Seq<MirValueId> {
    match kind {
        MirInstructionKind::Add { left, right, .. } => seq![left, right],
        MirInstructionKind::Subtract { left, right, .. } => seq![left, right],
        MirInstructionKind::Multiply { left, right, .. } => seq![left, right],
        MirInstructionKind::Divide { left, right, .. } => seq![left, right],
        MirInstructionKind::Modulo { left, right, .. } => seq![left, right],
        MirInstructionKind::Equal { left, right, .. } => seq![left, right],
        MirInstructionKind::NotEqual { left, right, .. } => seq![left, right],
        MirInstructionKind::LessThan { left, right, .. } => seq![left, right],
        MirInstructionKind::LessEqual { left, right, .. } => seq![left, right],
        MirInstructionKind::GreaterThan { left, right, .. } => seq![left, right],
        MirInstructionKind::GreaterEqual { left, right, .. } => seq![left, right],
        MirInstructionKind::And { left, right, .. } => seq![left, right],
        MirInstructionKind::Or { left, right, .. } => seq![left, right],
        MirInstructionKind::Compare { left, right, .. } => seq![left, right],
        MirInstructionKind::Not { operand, .. } => seq![operand],
        MirInstructionKind::Move { value, .. } => seq![value],
        MirInstructionKind::Store { value, .. } => seq![value],
        MirInstructionKind::Branch { condition, .. } => seq![condition],
        MirInstructionKind::Call { arguments, .. } => arguments@,
        MirInstructionKind::Return { value } => match value {
            Some(v) => seq![v],
            None => seq![],
        },
        MirInstructionKind::TableSet { table, key, value } => seq![table, key, value],
        MirInstructionKind::TableGet { table, key, .. } => seq![table, key],
        _ => seq![],
    }
}

/// The value an instruction defines, if any.
pub open spec fn instruction_result(kind: MirInstructionKind) -> Option<MirValueId> {
    match kind {
        MirInstructionKind::Const { result, .. } => Some(result),
        MirInstructionKind::Add { result, .. } => Some(result),
        MirInstructionKind::Subtract { result, .. } => Some(result),
        MirInstructionKind::Multiply { result, .. } => Some(result),
        MirInstructionKind::Divide { result, .. } => Some(result),
        MirInstructionKind::Modulo { result, .. } => Some(result),
        MirInstructionKind::Equal { result, .. } => Some(result),
        MirInstructionKind::NotEqual { result, .. } => Some(result),
        MirInstructionKind::LessThan { result, .. } => Some(result),
        MirInstructionKind::LessEqual { result, .. } => Some(result),
        MirInstructionKind::GreaterThan { result, .. } => Some(result),
        MirInstructionKind::GreaterEqual { result, .. } => Some(result),
        MirInstructionKind::And { result, .. } => Some(result),
        MirInstructionKind::Or { result, .. } => Some(result),
        MirInstructionKind::Not { result, .. } => Some(result),
        MirInstructionKind::Load { result, .. } => Some(result),
        MirInstructionKind::Move { result, .. } => Some(result),
        MirInstructionKind::Call { result, .. } => result,
        MirInstructionKind::Compare { result, .. } => Some(result),
        MirInstructionKind::TableNew { result } => Some(result),
        MirInstructionKind::TableGet { result, .. } => Some(result),
        MirInstructionKind::AllocateLocal { local, .. } => Some(local),
        _ => None,
    }
}

/// An instruction with no effect but its result.
pub open spec fn is_pure(kind: MirInstructionKind) -> bool {
    match kind {
        MirInstructionKind::Const { .. } | MirInstructionKind::Add { .. } | MirInstructionKind::Subtract { .. }
        | MirInstructionKind::Multiply { .. } | MirInstructionKind::Divide { .. } | MirInstructionKind::Modulo { .. }
        | MirInstructionKind::Equal { .. } | MirInstructionKind::NotEqual { .. } | MirInstructionKind::LessThan { .. }
        | MirInstructionKind::LessEqual { .. } | MirInstructionKind::GreaterThan { .. }
        | MirInstructionKind::GreaterEqual { .. } | MirInstructionKind::And { .. } | MirInstructionKind::Or { .. }
        | MirInstructionKind::Not { .. } | MirInstructionKind::Load { .. } | MirInstructionKind::Move { .. }
        | MirInstructionKind::Compare { .. } => true,
        _ => false,
    }
}

/// Some instruction of a run reads `v`.
pub open spec fn used_in(s: Seq<MirInstruction>, v: MirValueId) -> bool {
    exists|j: int| 0 <= j < s.len() && #[trigger] instruction_uses(s[j].kind).contains(v)
}

/// Some instruction of a run of blocks reads `v`.
pub open spec fn used_in_blocks(blocks: Seq<MirBasicBlock>, v: MirValueId) -> bool {
    exists|i: int| 0 <= i < blocks.len() && used_in(#[trigger] blocks[i].instructions@, v)
}

/// Values that stand for storage or names outside the function: their
/// definitions always stay.
pub open spec fn protected_kind(kind: MirValueKind) -> bool {
    match kind {
        MirValueKind::Local { .. } | MirValueKind::Parameter { .. } | MirValueKind::Global { .. }
        | MirValueKind::FunctionReference { .. } => true,
        _ => false,
    }
}

/// Some value with id `v` is protected.
pub open spec fn protected_value(values: Seq<MirValueData>, v: MirValueId) -> bool {
    exists|i: int| 0 <= i < values.len() && (#[trigger] values[i]).id == v && protected_kind(values[i].kind)
}

/// An instruction of a function with blocks `blocks` and values `values`
/// is dead: it is pure, defines a value that is not protected, and nothing
/// reads that value.
pub open spec fn dead_in(instruction: MirInstruction, blocks: Seq<MirBasicBlock>, values: Seq<MirValueData>) -> bool {
    match instruction_result(instruction.kind) {
        Some(r) => !protected_value(values, r) && is_pure(instruction.kind) && !used_in_blocks(blocks, r),
        None => false,
    }
}

/// A run of instructions without the dead ones.
pub open spec fn without_dead(s: Seq<MirInstruction>, blocks: Seq<MirBasicBlock>, values: Seq<MirValueData>) -> Seq<MirInstruction>
    decreases s.len(),
{
    if s.len() == 0 {
        seq![]
    } else {
        without_dead(s.drop_last(), blocks, values) + (if dead_in(s.last(), blocks, values) {
            seq![]
        } else {
            seq![s.last()]
        })
    }
}

/// How many instructions of a run are dead.
pub open spec fn dead_count(s: Seq<MirInstruction>, blocks: Seq<MirBasicBlock>, values: Seq<MirValueData>) -> nat
    decreases s.len(),
{
    if s.len() == 0 {
        0
    } else {
        dead_count(s.drop_last(), blocks, values) + (if dead_in(s.last(), blocks, values) {
            1nat
        } else {
            0nat
        })
    }
}

/// How many instructions of the first blocks of `run` are dead.
pub open spec fn dead_count_blocks(run: Seq<MirBasicBlock>, blocks: Seq<MirBasicBlock>, values: Seq<MirValueData>) -> nat
    decreases run.len(),
{
    if run.len() == 0 {
        0
    } else {
        dead_count_blocks(run.drop_last(), blocks, values) + dead_count(run.last().instructions@, blocks, values)
    }
}

/// Some dead instruction of `run` defines `v`.
pub open spec fn defined_by_dead(run: Seq<MirBasicBlock>, blocks: Seq<MirBasicBlock>, values: Seq<MirValueData>, v: MirValueId) -> bool {
    exists|i: int, j: int|
        0 <= i < run.len() && 0 <= j < run[i].instructions@.len() && dead_in(#[trigger] run[i].instructions@[j], blocks, values)
            && instruction_result(run[i].instructions@[j].kind) == Some(v)
}

/// The values not defined by a dead instruction of `blocks`, in order.
pub open spec fn live_values(run: Seq<MirValueData>, blocks: Seq<MirBasicBlock>, values: Seq<MirValueData>) -> Seq<MirValueData>
    decreases run.len(),
{
    if run.len() == 0 {
        seq![]
    } else {
        live_values(run.drop_last(), blocks, values) + (if defined_by_dead(blocks, blocks, values, run.last().id) {
            seq![]
        } else {
            seq![run.last()]
        })
    }
}

/// What dead-code elimination makes of a function: the dead instructions
/// go, and so do the values they defined.
pub open spec fn dead_code_removed(before: MirFunction, after: MirFunction) -> bool {
    let blocks = before.blocks@;
    let values = before.values@;
    &&& after.blocks@.len() == blocks.len()
    &&& forall|i: int| 0 <= i < blocks.len() ==> {
        &&& same_shell(blocks[i], #[trigger] after.blocks@[i])
        &&& after.blocks@[i].instructions@ == without_dead(blocks[i].instructions@, blocks, values)
    }
    &&& after.values@ == live_values(values, blocks, values)
    &&& after.id == before.id
    &&& after.name == before.name
    &&& after.parameters == before.parameters
    &&& after.parameter_data == before.parameter_data
    &&& after.locals == before.locals
    &&& after.return_type == before.return_type
    &&& after.entry_block == before.entry_block
    &&& after.exit_blocks == before.exit_blocks
    &&& after.metadata == before.metadata
}

fn result_of(kind: &MirInstructionKind) -> (result: Option<MirValueId>)
    ensures
        result == instruction_result(*kind),
{
    match kind {
        MirInstructionKind::Const { result, .. } => Some(*result),
        MirInstructionKind::Add { result, .. } => Some(*result),
        MirInstructionKind::Subtract { result, .. } => Some(*result),
        MirInstructionKind::Multiply { result, .. } => Some(*result),
        MirInstructionKind::Divide { result, .. } => Some(*result),
        MirInstructionKind::Modulo { result, .. } => Some(*result),
        MirInstructionKind::Equal { result, .. } => Some(*result),
        MirInstructionKind::NotEqual { result, .. } => Some(*result),
        MirInstructionKind::LessThan { result, .. } => Some(*result),
        MirInstructionKind::LessEqual { result, .. } => Some(*result),
        MirInstructionKind::GreaterThan { result, .. } => Some(*result),
        MirInstructionKind::GreaterEqual { result, .. } => Some(*result),
        MirInstructionKind::And { result, .. } => Some(*result),
        MirInstructionKind::Or { result, .. } => Some(*result),
        MirInstructionKind::Not { result, .. } => Some(*result),
        MirInstructionKind::Load { result, .. } => Some(*result),
        MirInstructionKind::Move { result, .. } => Some(*result),
        MirInstructionKind::Call { result, .. } => *result,
        MirInstructionKind::Compare { result, .. } => Some(*result),
        MirInstructionKind::TableNew { result } => Some(*result),
        MirInstructionKind::TableGet { result, .. } => Some(*result),
        MirInstructionKind::AllocateLocal { local, .. } => Some(*local),
        _ => None,
    }
}

fn is_pure_instruction(kind: &MirInstructionKind) -> (result: bool)
    ensures
        result == is_pure(*kind),
{
    match kind {
        MirInstructionKind::Const { .. } | MirInstructionKind::Add { .. } | MirInstructionKind::Subtract { .. }
        | MirInstructionKind::Multiply { .. } | MirInstructionKind::Divide { .. } | MirInstructionKind::Modulo { .. }
        | MirInstructionKind::Equal { .. } | MirInstructionKind::NotEqual { .. } | MirInstructionKind::LessThan { .. }
        | MirInstructionKind::LessEqual { .. } | MirInstructionKind::GreaterThan { .. }
        | MirInstructionKind::GreaterEqual { .. } | MirInstructionKind::And { .. } | MirInstructionKind::Or { .. }
        | MirInstructionKind::Not { .. } | MirInstructionKind::Load { .. } | MirInstructionKind::Move { .. }
        | MirInstructionKind::Compare { .. } => true,
        _ => false,
    }
}

fn copy_ids(ids: &Vec<MirValueId>) -> (result: Vec<MirValueId>)
    ensures
        result@ == ids@,
{
    let mut out: Vec<MirValueId> = Vec::new();
    let mut i: usize = 0;
    while i < ids.len()
        invariant
            i <= ids@.len(),
            out@ == ids@.subrange(0, i as int),
        decreases ids.len() - i,
    {
        out.push(ids[i]);
        i = i + 1;
        assert(out@ =~= ids@.subrange(0, i as int));
    }
    assert(ids@.subrange(0, ids@.len() as int) =~= ids@);
    out
}

/// The values an instruction reads.
fn uses_of(kind: &MirInstructionKind) -> (result: Vec<MirValueId>)
    ensures
        result@ == instruction_uses(*kind),
{
    match kind {
        MirInstructionKind::Add { left, right, .. } | MirInstructionKind::Subtract { left, right, .. }
        | MirInstructionKind::Multiply { left, right, .. } | MirInstructionKind::Divide { left, right, .. }
        | MirInstructionKind::Modulo { left, right, .. } | MirInstructionKind::Equal { left, right, .. }
        | MirInstructionKind::NotEqual { left, right, .. } | MirInstructionKind::LessThan { left, right, .. }
        | MirInstructionKind::LessEqual { left, right, .. } | MirInstructionKind::GreaterThan { left, right, .. }
        | MirInstructionKind::GreaterEqual { left, right, .. } | MirInstructionKind::And { left, right, .. }
        | MirInstructionKind::Or { left, right, .. } | MirInstructionKind::Compare { left, right, .. } => vec![*left, *right],
        MirInstructionKind::Not { operand, .. } => vec![*operand],
        MirInstructionKind::Move { value, .. } => vec![*value],
        MirInstructionKind::Store { value, .. } => vec![*value],
        MirInstructionKind::Branch { condition, .. } => vec![*condition],
        MirInstructionKind::Call { arguments, .. } => copy_ids(arguments),
        MirInstructionKind::Return { value } => match value {
            Some(v) => vec![*v],
            None => Vec::new(),
        },
        MirInstructionKind::TableSet { table, key, value } => vec![*table, *key, *value],
        MirInstructionKind::TableGet { table, key, .. } => vec![*table, *key],
        _ => Vec::new(),
    }
}

/// The values some instruction of the function reads.
fn collect_used(function: &MirFunction) -> (result: HashMap<usize, bool>)
    ensures
        forall|v: MirValueId| #[trigger] result@.contains_key(v.0) <==> used_in_blocks(function.blocks@, v),
{
    let ghost blocks = function.blocks@;
    let mut used: HashMap<usize, bool> = HashMap::new();
    let mut b: usize = 0;
    while b < function.blocks.len()
        invariant
            blocks == function.blocks@,
            b <= blocks.len(),
            forall|v: MirValueId| #[trigger] used@.contains_key(v.0) <==> used_in_blocks(blocks.subrange(0, b as int), v),
        decreases function.blocks.len() - b,
    {
        let instructions = &function.blocks[b].instructions;
        let mut j: usize = 0;
        while j < instructions.len()
            invariant
                blocks == function.blocks@,
                b < blocks.len(),
                instructions@ == blocks[b as int].instructions@,
                j <= instructions@.len(),
                forall|v: MirValueId| #[trigger] used@.contains_key(v.0) <==> (used_in_blocks(blocks.subrange(0, b as int), v)
                    || used_in(instructions@.subrange(0, j as int), v)),
            decreases instructions.len() - j,
        {
            let uses = uses_of(&instructions[j].kind);
            let mut u: usize = 0;
            while u < uses.len()
                invariant
                    uses@ == instruction_uses(instructions@[j as int].kind),
                    u <= uses@.len(),
                    j < instructions@.len(),
                    forall|v: MirValueId| #[trigger] used@.contains_key(v.0) <==> (used_in_blocks(blocks.subrange(0, b as int), v)
                        || used_in(instructions@.subrange(0, j as int), v) || uses@.subrange(0, u as int).contains(v)),
                decreases uses.len() - u,
            {
                used.insert(uses[u].0, true);
                proof {
                    assert forall|v: MirValueId| #[trigger] used@.contains_key(v.0) <==> (used_in_blocks(blocks.subrange(0, b as int), v)
                        || used_in(instructions@.subrange(0, j as int), v) || uses@.subrange(0, u + 1).contains(v)) by {
                        assert(uses@.subrange(0, u + 1) =~= uses@.subrange(0, u as int).push(uses@[u as int]));
                        if v.0 == uses@[u as int].0 {
                            assert(v == uses@[u as int]);
                            assert(uses@.subrange(0, u + 1)[u as int] == v);
                        }
                        if uses@.subrange(0, u as int).contains(v) {
                            let k = choose|k: int| 0 <= k < u && uses@.subrange(0, u as int)[k] == v;
                            assert(uses@.subrange(0, u + 1)[k] == v);
                        }
                    }
                }
                u = u + 1;
            }
            proof {
                assert(uses@.subrange(0, uses@.len() as int) =~= uses@);
                let next = instructions@.subrange(0, j + 1);
                assert forall|v: MirValueId| used_in(next, v) <==> (used_in(instructions@.subrange(0, j as int), v)
                    || instruction_uses(instructions@[j as int].kind).contains(v)) by {
                    if used_in(next, v) {
                        let k = choose|k: int| 0 <= k < next.len() && #[trigger] instruction_uses(next[k].kind).contains(v);
                        if k < j {
                            assert(instructions@.subrange(0, j as int)[k] == next[k]);
                        }
                    }
                    if used_in(instructions@.subrange(0, j as int), v) {
                        let k = choose|k: int| 0 <= k < j && #[trigger] instruction_uses(instructions@.subrange(0, j as int)[k].kind).contains(v);
                        assert(next[k] == instructions@.subrange(0, j as int)[k]);
                    }
                    if instruction_uses(instructions@[j as int].kind).contains(v) {
                        assert(next[j as int] == instructions@[j as int]);
                    }
                }
            }
            j = j + 1;
        }
        proof {
            assert(instructions@.subrange(0, instructions@.len() as int) =~= instructions@);
            let next = blocks.subrange(0, b + 1);
            assert forall|v: MirValueId| used_in_blocks(next, v) <==> (used_in_blocks(blocks.subrange(0, b as int), v)
                || used_in(blocks[b as int].instructions@, v)) by {
                if used_in_blocks(next, v) {
                    let k = choose|k: int| 0 <= k < next.len() && used_in(#[trigger] next[k].instructions@, v);
                    if k < b {
                        assert(blocks.subrange(0, b as int)[k] == next[k]);
                    }
                }
                if used_in_blocks(blocks.subrange(0, b as int), v) {
                    let k = choose|k: int| 0 <= k < b && used_in(#[trigger] blocks.subrange(0, b as int)[k].instructions@, v);
                    assert(next[k] == blocks.subrange(0, b as int)[k]);
                }
                if used_in(blocks[b as int].instructions@, v) {
                    assert(next[b as int] == blocks[b as int]);
                }
            }
        }
        b = b + 1;
    }
    assert(blocks.subrange(0, blocks.len() as int) =~= blocks);
    used
}

fn is_protected_kind(kind: &MirValueKind) -> (result: bool)
    ensures
        result == protected_kind(*kind),
{
    match kind {
        MirValueKind::Local { .. } | MirValueKind::Parameter { .. } | MirValueKind::Global { .. }
        | MirValueKind::FunctionReference { .. } => true,
        _ => false,
    }
}

/// The ids of the protected values.
fn collect_protected(values: &Vec<MirValueData>) -> (result: HashMap<usize, bool>)
    ensures
        forall|v: MirValueId| #[trigger] result@.contains_key(v.0) <==> protected_value(values@, v),
{
    let mut protected: HashMap<usize, bool> = HashMap::new();
    let mut i: usize = 0;
    while i < values.len()
        invariant
            i <= values@.len(),
            forall|v: MirValueId| #[trigger] protected@.contains_key(v.0) <==> protected_value(values@.subrange(0, i as int), v),
        decreases values.len() - i,
    {
        let ghost before = protected@;
        if is_protected_kind(&values[i].kind) {
            protected.insert(values[i].id.0, true);
        }
        proof {
            let next = values@.subrange(0, i + 1);
            assert forall|v: MirValueId| #[trigger] protected@.contains_key(v.0) <==> protected_value(next, v) by {
                if protected_value(next, v) {
                    let k = choose|k: int| 0 <= k < next.len() && (#[trigger] next[k]).id == v && protected_kind(next[k].kind);
                    if k < i {
                        assert(values@.subrange(0, i as int)[k] == next[k]);
                    } else {
                        assert(values@[i as int].id.0 == v.0);
                    }
                }
                if protected_value(values@.subrange(0, i as int), v) {
                    let k = choose|k: int| 0 <= k < i && (#[trigger] values@.subrange(0, i as int)[k]).id == v
                        && protected_kind(values@.subrange(0, i as int)[k].kind);
                    assert(next[k] == values@.subrange(0, i as int)[k]);
                }
                if protected_kind(values@[i as int].kind) && v.0 == values@[i as int].id.0 {
                    assert(v == values@[i as int].id);
                    assert(next[i as int] == values@[i as int]);
                }
            }
        }
        i = i + 1;
    }
    assert(values@.subrange(0, values@.len() as int) =~= values@);
    protected
}

/// Some dead instruction of a run defines `v`.
pub open spec fn dead_defines(s: Seq<MirInstruction>, blocks: Seq<MirBasicBlock>, values: Seq<MirValueData>, v: MirValueId) -> bool {
    exists|j: int| 0 <= j < s.len() && dead_in(#[trigger] s[j], blocks, values) && instruction_result(s[j].kind) == Some(v)
}

/// Drops the dead instructions of a block, notes the values they defined,
/// and counts them.
fn remove_dead_instructions(
    instructions: Vec<MirInstruction>,
    used: &HashMap<usize, bool>,
    protected: &HashMap<usize, bool>,
    removed: &mut HashMap<usize, bool>,
    Ghost(blocks): Ghost<Seq<MirBasicBlock>>,
    Ghost(values): Ghost<Seq<MirValueData>>,
) -> (result: (Vec<MirInstruction>, usize))
    requires
        forall|v: MirValueId| #[trigger] used@.contains_key(v.0) <==> used_in_blocks(blocks, v),
        forall|v: MirValueId| #[trigger] protected@.contains_key(v.0) <==> protected_value(values, v),
    ensures
        result.0@ == without_dead(instructions@, blocks, values),
        result.1 == dead_count(instructions@, blocks, values),
        forall|v: MirValueId| #[trigger] final(removed)@.contains_key(v.0) <==> (old(removed)@.contains_key(v.0)
            || dead_defines(instructions@, blocks, values, v)),
{
    let ghost orig = instructions@;
    let ghost r0 = removed@;
    let mut rest = instructions;
    let mut out: Vec<MirInstruction> = Vec::new();
    let mut count: usize = 0;
    let n = rest.len();
    let mut j: usize = 0;
    while j < n
        invariant
            n == orig.len(),
            j <= n,
            rest@ == orig.subrange(j as int, n as int),
            out@ == without_dead(orig.subrange(0, j as int), blocks, values),
            count == dead_count(orig.subrange(0, j as int), blocks, values),
            count <= j,
            forall|v: MirValueId| #[trigger] used@.contains_key(v.0) <==> used_in_blocks(blocks, v),
            forall|v: MirValueId| #[trigger] protected@.contains_key(v.0) <==> protected_value(values, v),
            forall|v: MirValueId| #[trigger] removed@.contains_key(v.0) <==> (r0.contains_key(v.0)
                || dead_defines(orig.subrange(0, j as int), blocks, values, v)),
        decreases n - j,
    {
        let ins = rest.remove(0);
        let ghost prev_removed = removed@;
        let dead_result = match result_of(&ins.kind) {
            Some(r) => {
                if !protected.contains_key(&r.0) && is_pure_instruction(&ins.kind) && !used.contains_key(&r.0) {
                    Some(r)
                } else {
                    None
                }
            },
            None => None,
        };
        proof {
            assert(dead_result.is_some() == dead_in(ins, blocks, values));
        }
        match dead_result {
            Some(r) => {
                removed.insert(r.0, true);
                count = count + 1;
            },
            None => {
                out.push(ins);
            },
        }
        proof {
            let run = orig.subrange(0, j + 1);
            assert(run.drop_last() =~= orig.subrange(0, j as int));
            assert(run.last() == ins);
            assert(rest@ =~= orig.subrange(j + 1, n as int));
            assert(out@ =~= without_dead(run, blocks, values));
            assert forall|v: MirValueId| #[trigger] removed@.contains_key(v.0) <==> (r0.contains_key(v.0)
                || dead_defines(run, blocks, values, v)) by {
                let head = orig.subrange(0, j as int);
                if dead_defines(run, blocks, values, v) {
                    let k = choose|k: int| 0 <= k < run.len() && dead_in(#[trigger] run[k], blocks, values)
                        && instruction_result(run[k].kind) == Some(v);
                    if k < j {
                        assert(head[k] == run[k]);
                        assert(dead_defines(head, blocks, values, v));
                    } else {
                        assert(run[k] == ins);
                        assert(dead_result == Some(v));
                    }
                }
                if dead_defines(head, blocks, values, v) {
                    let k = choose|k: int| 0 <= k < head.len() && dead_in(#[trigger] head[k], blocks, values)
                        && instruction_result(head[k].kind) == Some(v);
                    assert(run[k] == head[k]);
                }
                if let Some(r) = dead_result {
                    let id: usize = r.0;
                    if v.0 == id {
                        assert(v == r);
                        assert(run[j as int] == ins);
                    }
                }
            }
        }
        j = j + 1;
    }
    assert(orig.subrange(0, n as int) =~= orig);
    (out, count)
}

/// The values not defined by a dead instruction.
fn drop_dead_values(
    values: Vec<MirValueData>,
    removed: &HashMap<usize, bool>,
    Ghost(blocks): Ghost<Seq<MirBasicBlock>>,
    Ghost(all_values): Ghost<Seq<MirValueData>>,
) -> (result: Vec<MirValueData>)
    requires
        forall|v: MirValueId| #[trigger] removed@.contains_key(v.0) <==> defined_by_dead(blocks, blocks, all_values, v),
    ensures
        result@ == live_values(values@, blocks, all_values),
{
    let ghost orig = values@;
    let mut rest = values;
    let mut out: Vec<MirValueData> = Vec::new();
    let n = rest.len();
    let mut j: usize = 0;
    while j < n
        invariant
            n == orig.len(),
            j <= n,
            rest@ == orig.subrange(j as int, n as int),
            out@ == live_values(orig.subrange(0, j as int), blocks, all_values),
            forall|v: MirValueId| #[trigger] removed@.contains_key(v.0) <==> defined_by_dead(blocks, blocks, all_values, v),
        decreases n - j,
    {
        let value = rest.remove(0);
        let gone = removed.contains_key(&value.id.0);
        let ghost prev = out@;
        if !gone {
            out.push(value);
        }
        proof {
            let run = orig.subrange(0, j + 1);
            assert(run.drop_last() =~= orig.subrange(0, j as int));
            assert(rest@ =~= orig.subrange(j + 1, n as int));
            assert(out@ =~= live_values(run, blocks, all_values));
        }
        j = j + 1;
    }
    assert(orig.subrange(0, n as int) =~= orig);
    out
}

// ---------------------------------------------------------------------------
// Unreachable blocks and terminators

/// The blocks whose id `g` marks reachable, in order.
pub open spec fn reachable_only(blocks: Seq<MirBasicBlock>, g: MirControlFlowGraph) -> Seq<MirBasicBlock>
    decreases blocks.len(),
{
    if blocks.len() == 0 {
        seq![]
    } else {
        reachable_only(blocks.drop_last(), g) + (if g.marked_reachable(blocks.last().id) {
            seq![blocks.last()]
        } else {
            seq![]
        })
    }
}

/// The ids of `ids` that occur in `live`, in order.
pub open spec fn ids_within(ids: Seq<MirBlockId>, live: Seq<MirBlockId>) -> Seq<MirBlockId>
    decreases ids.len(),
{
    if ids.len() == 0 {
        seq![]
    } else {
        ids_within(ids.drop_last(), live) + (if live.contains(ids.last()) {
            seq![ids.last()]
        } else {
            seq![]
        })
    }
}

/// The position of the first block marked as the entry, from `i` on.
pub open spec fn first_entry_from(blocks: Seq<MirBasicBlock>, i: int) -> Option<usize>
    decreases blocks.len() - i,
{
    if i < 0 || i >= blocks.len() {
        None
    } else if blocks[i].is_entry {
        Some(i as usize)
    } else {
        first_entry_from(blocks, i + 1)
    }
}

/// The positions of the blocks marked as exits, in order.
pub open spec fn exit_indices(blocks: Seq<MirBasicBlock>) -> Seq<usize>
    decreases blocks.len(),
{
    if blocks.len() == 0 {
        seq![]
    } else {
        exit_indices(blocks.drop_last()) + (if blocks.last().is_exit {
            seq![(blocks.len() - 1) as usize]
        } else {
            seq![]
        })
    }
}

/// `reachable_ids(g)` lists, ordered by id, the blocks `g` marks reachable.
pub open spec fn reachable_listed(g: MirControlFlowGraph) -> bool {
    &&& strictly_sorted(reachable_ids(g))
    &&& forall|x: MirBlockId| reachable_ids(g).contains(x) <==> g.marked_reachable(x)
}

/// What removing unreachable blocks makes of a function whose graph is
/// `cfg`, having removed `removed` blocks: nothing changes without a graph
/// or when as many blocks are reachable as there are blocks; otherwise only
/// the reachable blocks stay, their neighbour lists keep only blocks that
/// stay, the entry becomes the first block marked as entry (or stays), and
/// the exits are the positions of the blocks marked as exits.
pub open spec fn unreachable_removed(before: MirFunction, cfg: Option<MirControlFlowGraph>, after: MirFunction, removed: nat) -> bool {
    match cfg {
        None => after == before && removed == 0,
        Some(g) => reachable_listed(g) && if reachable_ids(g).len() == before.blocks@.len() {
            after == before && removed == 0
        } else {
            let kept = reachable_only(before.blocks@, g);
            let live = block_ids(kept);
            &&& after.blocks@.len() == kept.len()
            &&& forall|i: int| 0 <= i < kept.len() ==> {
                &&& (#[trigger] after.blocks@[i]).id == kept[i].id
                &&& after.blocks@[i].instructions == kept[i].instructions
                &&& after.blocks@[i].terminator == kept[i].terminator
                &&& after.blocks@[i].is_entry == kept[i].is_entry
                &&& after.blocks@[i].is_exit == kept[i].is_exit
                &&& after.blocks@[i].predecessors@ == ids_within(kept[i].predecessors@, live)
                &&& after.blocks@[i].successors@ == ids_within(kept[i].successors@, live)
            }
            &&& after.entry_block == (match first_entry_from(after.blocks@, 0) {
                Some(e) => Some(e),
                None => before.entry_block,
            })
            &&& after.exit_blocks@ == exit_indices(after.blocks@)
            &&& removed == before.blocks@.len() - kept.len()
            &&& after.id == before.id
            &&& after.name == before.name
            &&& after.parameters == before.parameters
            &&& after.parameter_data == before.parameter_data
            &&& after.locals == before.locals
            &&& after.values == before.values
            &&& after.return_type == before.return_type
            &&& after.metadata == before.metadata
        },
    }
}

/// The terminator the last instruction of a run stands for.
pub open spec fn last_terminator(s: Seq<MirInstruction>) -> Option<MirTerminator> {
    if s.len() == 0 {
        None
    } else {
        kind_terminator(s.last().kind)
    }
}

/// Every block's terminator and successors recomputed from its last
/// instruction.
pub open spec fn terminators_refreshed(before: MirFunction, after: MirFunction) -> bool {
    &&& same_header(before, after)
    &&& after.blocks@.len() == before.blocks@.len()
    &&& forall|i: int| 0 <= i < before.blocks@.len() ==> {
        let b = before.blocks@[i];
        let a = #[trigger] after.blocks@[i];
        &&& a.id == b.id
        &&& a.instructions == b.instructions
        &&& a.predecessors == b.predecessors
        &&& a.is_entry == b.is_entry
        &&& a.is_exit == b.is_exit
        &&& a.terminator == last_terminator(b.instructions@)
        &&& a.successors@ == block_successors(a.terminator)
    }
}

/// The counts of one function's passes: copies propagated, constants
/// folded, dead instructions removed, unreachable blocks removed.
pub type PassCounts = (nat, nat, nat, nat);

/// The stages one function goes through, with what each pass counted.
pub open spec fn optimization_stages(
    before: MirFunction,
    propagated_fn: MirFunction,
    folded_fn: MirFunction,
    cleaned_fn: MirFunction,
    rebuilt_fn: MirFunction,
    cfg: Option<MirControlFlowGraph>,
    pruned_fn: MirFunction,
    refreshed_fn: MirFunction,
    after: MirFunction,
    counts: PassCounts,
) -> bool {
    &&& copies_propagated(before, propagated_fn)
    &&& counts.0 == copies_in_blocks(before.blocks@, replacements_of(before.blocks@))
    &&& constants_folded(propagated_fn, folded_fn)
    &&& counts.1 == fold_blocks_count(Map::empty(), propagated_fn.blocks@)
    &&& dead_code_removed(folded_fn, cleaned_fn)
    &&& counts.2 == dead_count_blocks(folded_fn.blocks@, folded_fn.blocks@, folded_fn.values@)
    &&& predecessors_rebuilt(cleaned_fn, rebuilt_fn)
    &&& built_from(rebuilt_fn, cfg)
    &&& unreachable_removed(rebuilt_fn, cfg, pruned_fn, counts.3)
    &&& terminators_refreshed(pruned_fn, refreshed_fn)
    &&& predecessors_rebuilt(refreshed_fn, after)
}

/// `after` is what the passes make of `before`, in order: copy propagation,
/// constant folding, dead-code elimination, removal of unreachable blocks
/// (after rebuilding the predecessor lists), refreshing the terminators, and
/// rebuilding the predecessor lists.
pub open spec fn function_optimized(before: MirFunction, after: MirFunction, counts: PassCounts) -> bool {
    exists|f1: MirFunction, f2: MirFunction, f3: MirFunction, f4: MirFunction, cfg: Option<MirControlFlowGraph>, f5: MirFunction, f6: MirFunction|
        #[trigger] optimization_stages(before, f1, f2, f3, f4, cfg, f5, f6, after, counts)
}

/// The counts of a run of functions added up.
pub open spec fn total_counts(counts: Seq<PassCounts>) -> PassCounts
    decreases counts.len(),
{
    if counts.len() == 0 {
        (0, 0, 0, 0)
    } else {
        let t = total_counts(counts.drop_last());
        let c = counts.last();
        (t.0 + c.0, t.1 + c.1, t.2 + c.2, t.3 + c.3)
    }
}

/// The statistics for the given totals, each capped at the largest `usize`.
pub open spec fn stats_of(t: PassCounts) -> MirOptimizationStats {
    MirOptimizationStats {
        constants_folded: saturating(0, t.1),
        copies_propagated: saturating(0, t.0),
        dead_instructions_removed: saturating(0, t.2),
        unreachable_blocks_removed: saturating(0, t.3),
    }
}

/// The ids of `ids` that occur in `live`.
fn keep_live_ids(ids: &Vec<MirBlockId>, live: &Vec<MirBlockId>) -> (result: Vec<MirBlockId>)
    ensures
        result@ == ids_within(ids@, live@),
{
    let mut out: Vec<MirBlockId> = Vec::new();
    let mut i: usize = 0;
    while i < ids.len()
        invariant
            i <= ids@.len(),
            out@ == ids_within(ids@.subrange(0, i as int), live@),
        decreases ids.len() - i,
    {
        if contains_block(live, ids[i]) {
            out.push(ids[i]);
        }
        proof {
            let run = ids@.subrange(0, i + 1);
            assert(run.drop_last() =~= ids@.subrange(0, i as int));
            assert(out@ =~= ids_within(run, live@));
        }
        i = i + 1;
    }
    assert(ids@.subrange(0, ids@.len() as int) =~= ids@);
    out
}

proof fn lemma_first_entry_skip(blocks: Seq<MirBasicBlock>, i: int)
    requires
        0 <= i <= blocks.len(),
        forall|k: int| 0 <= k < i ==> !(#[trigger] blocks[k]).is_entry,
    ensures
        first_entry_from(blocks, 0) == first_entry_from(blocks, i),
    decreases i,
{
    if i > 0 {
        lemma_first_entry_skip(blocks, i - 1);
        assert(!blocks[i - 1].is_entry);
    }
}

/// The position of the first block marked as the entry.
fn find_entry(blocks: &Vec<MirBasicBlock>) -> (result: Option<usize>)
    ensures
        result == first_entry_from(blocks@, 0),
{
    let mut i: usize = 0;
    while i < blocks.len()
        invariant
            i <= blocks@.len(),
            forall|k: int| 0 <= k < i ==> !(#[trigger] blocks@[k]).is_entry,
        decreases blocks.len() - i,
    {
        if blocks[i].is_entry {
            proof {
                lemma_first_entry_skip(blocks@, i as int);
            }
            return Some(i);
        }
        i = i + 1;
    }
    proof {
        lemma_first_entry_skip(blocks@, i as int);
    }
    None
}

/// The positions of the blocks marked as exits.
fn find_exits(blocks: &Vec<MirBasicBlock>) -> (result: Vec<usize>)
    ensures
        result@ == exit_indices(blocks@),
{
    let mut out: Vec<usize> = Vec::new();
    let mut i: usize = 0;
    while i < blocks.len()
        invariant
            i <= blocks@.len(),
            out@ == exit_indices(blocks@.subrange(0, i as int)),
        decreases blocks.len() - i,
    {
        if blocks[i].is_exit {
            out.push(i);
        }
        proof {
            let run = blocks@.subrange(0, i + 1);
            assert(run.drop_last() =~= blocks@.subrange(0, i as int));
            assert(out@ =~= exit_indices(run));
        }
        i = i + 1;
    }
    assert(blocks@.subrange(0, blocks@.len() as int) =~= blocks@);
    out
}

/// The ids of the blocks, in order.
fn ids_of_blocks(blocks: &Vec<MirBasicBlock>) -> (result: Vec<MirBlockId>)
    ensures
        result@ == block_ids(blocks@),
{
    let mut out: Vec<MirBlockId> = Vec::new();
    let mut i: usize = 0;
    while i < blocks.len()
        invariant
            i <= blocks@.len(),
            out@ == block_ids(blocks@.subrange(0, i as int)),
        decreases blocks.len() - i,
    {
        out.push(blocks[i].id);
        i = i + 1;
        assert(out@ =~= block_ids(blocks@.subrange(0, i as int)));
    }
    assert(blocks@.subrange(0, blocks@.len() as int) =~= blocks@);
    out
}

impl Default for MirOptimizer {
    fn default() -> (result: Self)
        ensures
            result.current_stats() == zero_stats(),
    {
        Self::new()
    }
}

/// Gathers what each pass did to one function into the record of its
/// optimization.
proof fn lemma_stages(
    f0: MirFunction,
    f1: MirFunction,
    f2: MirFunction,
    f3: MirFunction,
    f5: MirFunction,
    f6: MirFunction,
    f7: MirFunction,
    s3: MirOptimizationStats,
    s5: MirOptimizationStats,
) -> (c: PassCounts)
    requires
        copies_propagated(f0, f1),
        constants_folded(f1, f2),
        dead_code_removed(f2, f3),
        exists|mid: MirFunction, cfg: Option<MirControlFlowGraph>, removed: nat| {
            &&& predecessors_rebuilt(f3, mid)
            &&& built_from(mid, cfg)
            &&& unreachable_removed(mid, cfg, f5, removed)
            &&& s5 == counted_unreachable(s3, removed)
        },
        terminators_refreshed(f5, f6),
        predecessors_rebuilt(f6, f7),
    ensures
        function_optimized(f0, f7, c),
        c.0 == copies_in_blocks(f0.blocks@, replacements_of(f0.blocks@)),
        c.1 == fold_blocks_count(Map::empty(), f1.blocks@),
        c.2 == dead_count_blocks(f2.blocks@, f2.blocks@, f2.values@),
        s5 == counted_unreachable(s3, c.3),
{
    let (f4, cfg, removed) = choose|f4: MirFunction, cfg: Option<MirControlFlowGraph>, removed: nat| {
        &&& predecessors_rebuilt(f3, f4)
        &&& built_from(f4, cfg)
        &&& unreachable_removed(f4, cfg, f5, removed)
        &&& s5 == counted_unreachable(s3, removed)
    };
    let c: PassCounts = (
        copies_in_blocks(f0.blocks@, replacements_of(f0.blocks@)),
        fold_blocks_count(Map::empty(), f1.blocks@),
        dead_count_blocks(f2.blocks@, f2.blocks@, f2.values@),
        removed,
    );
    assert(optimization_stages(f0, f1, f2, f3, f4, cfg, f5, f6, f7, c));
    c
}

// ---------------------------------------------------------------------------
// Laws

/// The result of a move (0 for anything else).
pub open spec fn move_result(kind: MirInstructionKind) -> usize {
    match kind {
        MirInstructionKind::Move { result, .. } => result.0,
        _ => 0,
    }
}

proof fn lemma_moves_in_keys(m: Map<usize, usize>, s: Seq<MirInstruction>)
    ensures
        forall|k: usize| m.contains_key(k) ==> #[trigger] moves_in(m, s).contains_key(k),
        forall|j: int| 0 <= j < s.len() && (#[trigger] s[j]).kind is Move ==> moves_in(m, s).contains_key(move_result(s[j].kind)),
    decreases s.len(),
{
    if s.len() > 0 {
        lemma_moves_in_keys(m, s.drop_last());
        let inner = moves_in(m, s.drop_last());
        assert forall|j: int| 0 <= j < s.len() && (#[trigger] s[j]).kind is Move implies moves_in(m, s).contains_key(move_result(s[j].kind)) by {
            if j < s.len() - 1 {
                assert(s.drop_last()[j] == s[j]);
            }
        }
    }
}

proof fn lemma_moves_in_blocks_keys(m: Map<usize, usize>, blocks: Seq<MirBasicBlock>)
    ensures
        forall|k: usize| m.contains_key(k) ==> #[trigger] moves_in_blocks(m, blocks).contains_key(k),
        forall|i: int, j: int| 0 <= i < blocks.len() && 0 <= j < blocks[i].instructions@.len()
            && (#[trigger] blocks[i].instructions@[j]).kind is Move
            ==> moves_in_blocks(m, blocks).contains_key(move_result(blocks[i].instructions@[j].kind)),
    decreases blocks.len(),
{
    if blocks.len() > 0 {
        lemma_moves_in_blocks_keys(m, blocks.drop_last());
        let inner = moves_in_blocks(m, blocks.drop_last());
        lemma_moves_in_keys(inner, blocks.last().instructions@);
        assert forall|i: int, j: int| 0 <= i < blocks.len() && 0 <= j < blocks[i].instructions@.len()
            && (#[trigger] blocks[i].instructions@[j]).kind is Move
            implies moves_in_blocks(m, blocks).contains_key(move_result(blocks[i].instructions@[j].kind)) by {
            if i < blocks.len() - 1 {
                assert(blocks.drop_last()[i] == blocks[i]);
            }
        }
    }
}

proof fn lemma_propagated_no_moves(before: Seq<MirInstruction>, after: Seq<MirInstruction>, m: Map<usize, usize>)
    requires
        propagated(before, after, m),
        forall|j: int| 0 <= j < before.len() && (#[trigger] before[j]).kind is Move ==> m.contains_key(move_result(before[j].kind)),
    ensures
        forall|j: int| 0 <= j < after.len() ==> !((#[trigger] after[j]).kind is Move),
    decreases before.len(),
{
    if before.len() > 0 {
        assert forall|j: int| 0 <= j < before.len() - 1 && (#[trigger] before.drop_last()[j]).kind is Move
            implies m.contains_key(move_result(before.drop_last()[j].kind)) by {
            assert(before.drop_last()[j] == before[j]);
        }
        if is_copy(before.last(), m) {
            lemma_propagated_no_moves(before.drop_last(), after, m);
        } else {
            lemma_propagated_no_moves(before.drop_last(), after.drop_last(), m);
            assert(!(before.last().kind is Move));
            assert(!(after.last().kind is Move));
            assert forall|j: int| 0 <= j < after.len() implies !((#[trigger] after[j]).kind is Move) by {
                if j < after.len() - 1 {
                    assert(after.drop_last()[j] == after[j]);
                }
            }
        }
    }
}

/// Copy propagation leaves no move instruction behind: every move either
/// went, or there was none to begin with.
pub proof fn lemma_copy_propagation_removes_moves(before: MirFunction, after: MirFunction)
    requires
        copies_propagated(before, after),
    ensures
        forall|i: int, j: int| 0 <= i < after.blocks@.len() && 0 <= j < after.blocks@[i].instructions@.len()
            ==> !((#[trigger] after.blocks@[i].instructions@[j]).kind is Move),
{
    let m = replacements_of(before.blocks@);
    lemma_moves_in_blocks_keys(Map::empty(), before.blocks@);
    if m.is_empty() {
        assert forall|i: int, j: int| 0 <= i < after.blocks@.len() && 0 <= j < after.blocks@[i].instructions@.len()
            implies !((#[trigger] after.blocks@[i].instructions@[j]).kind is Move) by {
            if let MirInstructionKind::Move { result, .. } = before.blocks@[i].instructions@[j].kind {
                assert(m.contains_key(result.0));
                assert(m.dom().contains(result.0));
            }
        }
    } else {
        assert forall|i: int, j: int| 0 <= i < after.blocks@.len() && 0 <= j < after.blocks@[i].instructions@.len()
            implies !((#[trigger] after.blocks@[i].instructions@[j]).kind is Move) by {
            let s = before.blocks@[i].instructions@;
            assert forall|k: int| 0 <= k < s.len() && (#[trigger] s[k]).kind is Move implies m.contains_key(move_result(s[k].kind)) by {
                assert(s[k] == before.blocks@[i].instructions@[k]);
            }
            lemma_propagated_no_moves(s, after.blocks@[i].instructions@, m);
        }
    }
}

proof fn lemma_reachable_only_marked(blocks: Seq<MirBasicBlock>, g: MirControlFlowGraph)
    ensures
        forall|i: int| 0 <= i < reachable_only(blocks, g).len() ==> g.marked_reachable(#[trigger] reachable_only(blocks, g)[i].id),
    decreases blocks.len(),
{
    if blocks.len() > 0 {
        lemma_reachable_only_marked(blocks.drop_last(), g);
        let inner = reachable_only(blocks.drop_last(), g);
        assert forall|i: int| 0 <= i < reachable_only(blocks, g).len() implies g.marked_reachable(#[trigger] reachable_only(blocks, g)[i].id) by {
            if i < inner.len() {
                assert(reachable_only(blocks, g)[i] == inner[i]);
            }
        }
    }
}

/// After the removal of unreachable blocks, every block left is one the
/// entry reaches (when nothing was removed, because every block was).
pub proof fn lemma_kept_blocks_reachable(before: MirFunction, g: MirControlFlowGraph, after: MirFunction, removed: nat)
    requires
        built_from(before, Some(g)),
        unreachable_removed(before, Some(g), after, removed),
    ensures
        forall|i: int| 0 <= i < after.blocks@.len() ==> g.marked_reachable(#[trigger] after.blocks@[i].id),
{
    let r = reachable_ids(g);
    let bids = block_ids(before.blocks@);
    if r.len() == before.blocks@.len() {
        assert forall|i: int| 0 <= i < after.blocks@.len() implies g.marked_reachable(#[trigger] after.blocks@[i].id) by {
            if !g.marked_reachable(after.blocks@[i].id) {
                let others = bids.remove(i);
                lemma_sorted_distinct(r);
                assert forall|x: MirBlockId| r.contains(x) implies others.contains(x) by {
                    assert(g.has_node(x));
                    assert(bids.contains(x));
                    let k = choose|k: int| 0 <= k < bids.len() && bids[k] == x;
                    assert(k != i);
                    if k < i {
                        assert(others[k] == x);
                    } else {
                        assert(others[k - 1] == x);
                    }
                }
                lemma_distinct_len_bound(r, others);
            }
        }
    } else {
        lemma_reachable_only_marked(before.blocks@, g);
        assert forall|i: int| 0 <= i < after.blocks@.len() implies g.marked_reachable(#[trigger] after.blocks@[i].id) by {
            assert(after.blocks@[i].id == reachable_only(before.blocks@, g)[i].id);
        }
    }
}

/// After optimization every block's terminator is the one its last
/// instruction stands for, and its successors are that terminator's.
pub proof fn lemma_optimized_terminators(before: MirFunction, after: MirFunction, counts: PassCounts)
    requires
        function_optimized(before, after, counts),
    ensures
        forall|i: int| 0 <= i < after.blocks@.len() ==> {
            &&& (#[trigger] after.blocks@[i]).terminator == last_terminator(after.blocks@[i].instructions@)
            &&& after.blocks@[i].successors@ == block_successors(after.blocks@[i].terminator)
        },
{
    let (f1, f2, f3, f4, cfg, f5, f6) = choose|f1: MirFunction, f2: MirFunction, f3: MirFunction, f4: MirFunction, cfg: Option<MirControlFlowGraph>, f5: MirFunction, f6: MirFunction|
        #[trigger] optimization_stages(before, f1, f2, f3, f4, cfg, f5, f6, after, counts);
    assert forall|i: int| 0 <= i < after.blocks@.len() implies {
        &&& (#[trigger] after.blocks@[i]).terminator == last_terminator(after.blocks@[i].instructions@)
        &&& after.blocks@[i].successors@ == block_successors(after.blocks@[i].terminator)
    } by {
        assert(f6.blocks@[i].instructions == f5.blocks@[i].instructions);
        assert(after.blocks@[i].instructions == f6.blocks@[i].instructions);
    }
}

} // verus!
