//! Structural checks of the mid-level representation: every block ends in
//! one terminator, every value used is defined, every jump lands on a block,
//! the control-flow graph agrees with the blocks, and each function can
//! return.
use vstd::prelude::*;

use crate::mir::block::MirBasicBlock;
use crate::mir::cfg::{
    block_ids, built_from, lemma_sorted_unique, strictly_sorted, MirCfgValidationError, MirControlFlowGraph,
};
use crate::mir::function::MirFunction;
use crate::mir::instruction::{kind_terminator, MirInstruction, MirInstructionKind, MirTerminator};
use crate::mir::module::MirModule;
use crate::mir::types::{MirBlockId, MirType, MirValueId};
use crate::mir::value::MirValueData;
use crate::text::{decimal, push_decimal, push_str, to_owned_string};

verus! {

/// Collects the problems found in a module. Problems accumulate across calls.
#[derive(Debug, Clone)]
pub struct MirValidator {
    errors: Vec<MirValidationError>,
}

/// One problem found by the validator.
#[derive(Debug, Clone)]
pub enum MirValidationError {
    UnreachableBlock { block_id: usize },
    InvalidInstruction { message: String },
    MissingExitPath { function: String },
    MissingTerminator { block_id: usize },
    InvalidTerminator { block_id: usize, message: String },
    InvalidBranchTarget { target: usize },
    InvalidValue { value_id: usize, message: String },
}

/// The variant of a `MirValidationError`.
#[derive(Debug, Clone, Copy, PartialEq, Eq, Structural)]
pub enum MirValidationErrorKind {
    UnreachableBlock,
    InvalidInstruction,
    MissingExitPath,
    MissingTerminator,
    InvalidTerminator,
    InvalidBranchTarget,
    InvalidValue,
}

/// An error as plain values: its variant, the block or value number it
/// names (0 when none), and its text (the message, or the function's name;
/// empty when none).
pub type MirIssue = (MirValidationErrorKind, usize, Seq<char>);

impl View for MirValidationError {
    type V = MirIssue;

    open spec fn view(&self) -> MirIssue {
        match self {
            MirValidationError::UnreachableBlock { block_id } => (MirValidationErrorKind::UnreachableBlock, *block_id, seq![]),
            MirValidationError::InvalidInstruction { message } => (MirValidationErrorKind::InvalidInstruction, 0, message@),
            MirValidationError::MissingExitPath { function } => (MirValidationErrorKind::MissingExitPath, 0, function@),
            MirValidationError::MissingTerminator { block_id } => (MirValidationErrorKind::MissingTerminator, *block_id, seq![]),
            MirValidationError::InvalidTerminator { block_id, message } => (MirValidationErrorKind::InvalidTerminator, *block_id, message@),
            MirValidationError::InvalidBranchTarget { target } => (MirValidationErrorKind::InvalidBranchTarget, *target, seq![]),
            MirValidationError::InvalidValue { value_id, message } => (MirValidationErrorKind::InvalidValue, *value_id, message@),
        }
    }
}

/// The views of a list of errors.
pub open spec fn issues_of(errors: Seq<MirValidationError>) -> Seq<MirIssue> {
    errors.map_values(|e: MirValidationError| e@)
}

/// A message about a function: `Function '<name>'` followed by `rest`.
pub open spec fn function_message(name: Seq<char>, rest: Seq<char>) -> Seq<char> {
    "Function '"@ + name + rest
}

/// A message about a block: `Block <id>` followed by `rest`.
pub open spec fn block_message(id: MirBlockId, rest: Seq<char>) -> Seq<char> {
    "Block "@ + decimal(id.0 as nat) + rest
}

/// `MirBlockId(<n>)`, as `Debug` writes a block id.
pub open spec fn block_id_debug(b: MirBlockId) -> Seq<char> {
    "MirBlockId("@ + decimal(b.0 as nat) + ")"@
}

/// A graph error as `Debug` writes it.
pub open spec fn cfg_error_debug(e: MirCfgValidationError) -> Seq<char> {
    match e {
        MirCfgValidationError::MissingEntry => "MissingEntry"@,
        MirCfgValidationError::InvalidEdge { source, target } => "InvalidEdge { source: "@ + block_id_debug(source)
            + ", target: "@ + block_id_debug(target) + " }"@,
        MirCfgValidationError::MissingSuccessor { source, target } => "MissingSuccessor { source: "@ + block_id_debug(
            source,
        ) + ", target: "@ + block_id_debug(target) + " }"@,
        MirCfgValidationError::MissingPredecessor { source, target } => "MissingPredecessor { source: "@
            + block_id_debug(source) + ", target: "@ + block_id_debug(target) + " }"@,
        MirCfgValidationError::EntryHasPredecessor { entry, predecessor } => "EntryHasPredecessor { entry: "@
            + block_id_debug(entry) + ", predecessor: "@ + block_id_debug(predecessor) + " }"@,
    }
}

/// The graph errors separated by `, `.
pub open spec fn cfg_errors_items(errors: Seq<MirCfgValidationError>) -> Seq<char>
    decreases errors.len(),
{
    if errors.len() == 0 {
        seq![]
    } else if errors.len() == 1 {
        cfg_error_debug(errors[0])
    } else {
        cfg_errors_items(errors.drop_last()) + ", "@ + cfg_error_debug(errors.last())
    }
}

/// A list of graph errors as `Debug` writes it: `[e1, e2, ...]`.
pub open spec fn cfg_errors_debug(errors: Seq<MirCfgValidationError>) -> Seq<char> {
    "["@ + cfg_errors_items(errors) + "]"@
}

/// The ids of the values, in order.
pub open spec fn value_ids_of(values: Seq<MirValueData>) -> Seq<MirValueId> {
    values.map_values(|v: MirValueData| v.id)
}

/// The problems of the value table: an id that occurred before, and a value
/// of unknown type, value by value.
pub open spec fn value_issues(values: Seq<MirValueData>) -> Seq<MirIssue>
    decreases values.len(),
{
    if values.len() == 0 {
        seq![]
    } else {
        let v = values.last();
        value_issues(values.drop_last()) + (if value_ids_of(values.drop_last()).contains(v.id) {
            seq![(MirValidationErrorKind::InvalidValue, v.id.0, "duplicate MIR value id"@)]
        } else {
            seq![]
        }) + (if v.value_type == MirType::Unknown {
            seq![(MirValidationErrorKind::InvalidValue, v.id.0, "MIR value has unknown type"@)]
        } else {
            seq![]
        })
    }
}

/// The problem of using `v` where `context` says: none when `v` is defined.
pub open spec fn use_issues(ids: Seq<MirValueId>, v: MirValueId, context: Seq<char>) -> Seq<MirIssue> {
    if ids.contains(v) {
        seq![]
    } else {
        seq![(MirValidationErrorKind::InvalidValue, v.0, "unknown MIR value used as "@ + context)]
    }
}

/// The problems of the arguments of a call.
pub open spec fn arguments_issues(ids: Seq<MirValueId>, arguments: Seq<MirValueId>) -> Seq<MirIssue>
    decreases arguments.len(),
{
    if arguments.len() == 0 {
        seq![]
    } else {
        arguments_issues(ids, arguments.drop_last()) + use_issues(ids, arguments.last(), "call argument"@)
    }
}

/// The problem of jumping to `target`: none when some block has that id.
pub open spec fn target_issues(blocks: Seq<MirBasicBlock>, target: MirBlockId) -> Seq<MirIssue> {
    if block_ids(blocks).contains(target) {
        seq![]
    } else {
        seq![(MirValidationErrorKind::InvalidBranchTarget, target.0, seq![])]
    }
}

/// The problems of a binary instruction: its result, then its operands.
pub open spec fn binary_issues(ids: Seq<MirValueId>, result: MirValueId, left: MirValueId, right: MirValueId) -> Seq<MirIssue> {
    use_issues(ids, result, "instruction result"@) + use_issues(ids, left, "left operand"@) + use_issues(
        ids,
        right,
        "right operand"@,
    )
}

/// The problems of one instruction of a function with blocks `blocks` and
/// defined values `ids`.
pub open spec fn instruction_issues(kind: MirInstructionKind, blocks: Seq<MirBasicBlock>, ids: Seq<MirValueId>) -> Seq<MirIssue> {
    match kind {
        MirInstructionKind::Branch { condition, true_block, false_block } => use_issues(ids, condition, "branch condition"@)
            + target_issues(blocks, true_block) + target_issues(blocks, false_block),
        MirInstructionKind::Jump { target } => target_issues(blocks, target),
        MirInstructionKind::Return { value } => match value {
            Some(v) => use_issues(ids, v, "return value"@),
            None => seq![],
        },
        MirInstructionKind::Const { result, .. } => use_issues(ids, result, "instruction result"@),
        MirInstructionKind::Load { result, .. } => use_issues(ids, result, "instruction result"@),
        MirInstructionKind::TableNew { result } => use_issues(ids, result, "instruction result"@),
        MirInstructionKind::Add { result, left, right } => binary_issues(ids, result, left, right),
        MirInstructionKind::Subtract { result, left, right } => binary_issues(ids, result, left, right),
        MirInstructionKind::Multiply { result, left, right } => binary_issues(ids, result, left, right),
        MirInstructionKind::Divide { result, left, right } => binary_issues(ids, result, left, right),
        MirInstructionKind::Modulo { result, left, right } => binary_issues(ids, result, left, right),
        MirInstructionKind::Equal { result, left, right } => binary_issues(ids, result, left, right),
        MirInstructionKind::NotEqual { result, left, right } => binary_issues(ids, result, left, right),
        MirInstructionKind::LessThan { result, left, right } => binary_issues(ids, result, left, right),
        MirInstructionKind::LessEqual { result, left, right } => binary_issues(ids, result, left, right),
        MirInstructionKind::GreaterThan { result, left, right } => binary_issues(ids, result, left, right),
        MirInstructionKind::GreaterEqual { result, left, right } => binary_issues(ids, result, left, right),
        MirInstructionKind::And { result, left, right } => binary_issues(ids, result, left, right),
        MirInstructionKind::Or { result, left, right } => binary_issues(ids, result, left, right),
        MirInstructionKind::Compare { result, left, right, .. } => binary_issues(ids, result, left, right),
        MirInstructionKind::Not { result, operand } => use_issues(ids, result, "instruction result"@) + use_issues(
            ids,
            operand,
            "unary operand"@,
        ),
        MirInstructionKind::Store { value, .. } => use_issues(ids, value, "store value"@),
        MirInstructionKind::Move { result, value } => use_issues(ids, result, "move result"@) + use_issues(
            ids,
            value,
            "move value"@,
        ),
        MirInstructionKind::AllocateLocal { local, .. } => use_issues(ids, local, "local allocation"@),
        MirInstructionKind::Call { result, arguments, .. } => (match result {
            Some(r) => use_issues(ids, r, "call result"@),
            None => seq![],
        }) + arguments_issues(ids, arguments@),
        MirInstructionKind::TableSet { table, key, value } => use_issues(ids, table, "table value"@) + use_issues(
            ids,
            key,
            "table key"@,
        ) + use_issues(ids, value, "table field value"@),
        MirInstructionKind::TableGet { result, table, key } => use_issues(ids, result, "table get result"@)
            + use_issues(ids, table, "table value"@) + use_issues(ids, key, "table key"@),
        MirInstructionKind::Unreachable => seq![],
        MirInstructionKind::Error => seq![(MirValidationErrorKind::InvalidInstruction, 0, "Invalid instruction"@)],
    }
}

/// The problems of a run of instructions, one after another.
pub open spec fn instructions_issues(instructions: Seq<MirInstruction>, blocks: Seq<MirBasicBlock>, ids: Seq<MirValueId>) -> Seq<MirIssue>
    decreases instructions.len(),
{
    if instructions.len() == 0 {
        seq![]
    } else {
        instructions_issues(instructions.drop_last(), blocks, ids) + instruction_issues(instructions.last().kind, blocks, ids)
    }
}

/// The positions of the terminator instructions, in order.
pub open spec fn terminator_positions(instructions: Seq<MirInstruction>) -> Seq<int>
    decreases instructions.len(),
{
    if instructions.len() == 0 {
        seq![]
    } else {
        terminator_positions(instructions.drop_last()) + (if kind_terminator(instructions.last().kind).is_some() {
            seq![instructions.len() - 1]
        } else {
            seq![]
        })
    }
}

/// The problems of where terminators stand: one that is not last, or more
/// than one.
pub open spec fn placement_issues(block: MirBasicBlock) -> Seq<MirIssue> {
    let positions = terminator_positions(block.instructions@);
    if positions.len() == 0 {
        seq![]
    } else if positions.len() == 1 {
        if positions[0] == block.instructions@.len() - 1 {
            seq![]
        } else {
            seq![(MirValidationErrorKind::InvalidTerminator, block.id.0, "terminator at instruction "@ + decimal(positions[0] as nat) + " is not last"@)]
        }
    } else {
        seq![(MirValidationErrorKind::InvalidTerminator, block.id.0, "block has multiple terminators"@)]
    }
}

/// The problem of a recorded terminator that differs from the terminator
/// the last instruction stands for.
pub open spec fn recorded_issues(block: MirBasicBlock) -> Seq<MirIssue> {
    if block.terminator.is_some() && block.instructions@.len() > 0 && kind_terminator(
        block.instructions@.last().kind,
    ).is_some() && block.terminator != kind_terminator(block.instructions@.last().kind) {
        seq![(MirValidationErrorKind::InvalidTerminator, block.id.0, "recorded terminator does not match final instruction"@)]
    } else {
        seq![]
    }
}

/// The problems of one block: no terminator, misplaced terminators, a
/// recorded terminator that disagrees, then those of its instructions.
pub open spec fn block_issues(block: MirBasicBlock, blocks: Seq<MirBasicBlock>, ids: Seq<MirValueId>) -> Seq<MirIssue> {
    (if block.terminator.is_none() {
        seq![(MirValidationErrorKind::MissingTerminator, block.id.0, seq![])]
    } else {
        seq![]
    }) + placement_issues(block) + recorded_issues(block) + instructions_issues(block.instructions@, blocks, ids)
}

/// The problems of a run of blocks of a function with blocks `blocks`.
pub open spec fn blocks_issues(run: Seq<MirBasicBlock>, blocks: Seq<MirBasicBlock>, ids: Seq<MirValueId>) -> Seq<MirIssue>
    decreases run.len(),
{
    if run.len() == 0 {
        seq![]
    } else {
        blocks_issues(run.drop_last(), blocks, ids) + block_issues(run.last(), blocks, ids)
    }
}

/// How many times `x` occurs in `s`.
pub open spec fn occurrences(s: Seq<MirBlockId>, x: MirBlockId) -> nat
    decreases s.len(),
{
    if s.len() == 0 {
        0
    } else {
        occurrences(s.drop_last(), x) + (if s.last() == x {
            1nat
        } else {
            0nat
        })
    }
}

/// `a` and `b` hold the same blocks, each as many times.
pub open spec fn same_occurrences(a: Seq<MirBlockId>, b: Seq<MirBlockId>) -> bool {
    forall|x: MirBlockId| occurrences(a, x) == occurrences(b, x)
}

/// The blocks of `g` without the reachable mark, ordered by id.
pub open spec fn unreachable_ids(g: MirControlFlowGraph) -> Seq<MirBlockId> {
    choose|s: Seq<MirBlockId>| strictly_sorted(s) && forall|x: MirBlockId| s.contains(x) <==> (g.has_node(x) && !g.marked_reachable(x))
}

/// The problems of a block against its node in `g`: different successors,
/// different predecessors (as a collection), or no node at all.
pub open spec fn node_issues(block: MirBasicBlock, g: MirControlFlowGraph) -> Seq<MirIssue> {
    if g.has_node(block.id) {
        (if g.succs(block.id) != block.successors@ {
            seq![(MirValidationErrorKind::InvalidInstruction, 0, block_message(block.id, " CFG successors do not match block successors"@))]
        } else {
            seq![]
        }) + (if !same_occurrences(g.preds(block.id), block.predecessors@) {
            seq![(MirValidationErrorKind::InvalidInstruction, 0, block_message(block.id, " CFG predecessors do not match block predecessors"@))]
        } else {
            seq![]
        })
    } else {
        seq![(MirValidationErrorKind::InvalidInstruction, 0, block_message(block.id, " is missing from CFG"@))]
    }
}

/// The node problems of a run of blocks.
pub open spec fn nodes_issues(run: Seq<MirBasicBlock>, g: MirControlFlowGraph) -> Seq<MirIssue>
    decreases run.len(),
{
    if run.len() == 0 {
        seq![]
    } else {
        nodes_issues(run.drop_last(), g) + node_issues(run.last(), g)
    }
}

/// The problems of the entry block: a graph entry that differs from it, and
/// predecessors.
pub open spec fn entry_issues(function: MirFunction, g: MirControlFlowGraph) -> Seq<MirIssue> {
    match function.entry_block {
        Some(i) => if i < function.blocks@.len() {
            let entry = function.blocks@[i as int];
            (if g.entry != entry.id {
                seq![(MirValidationErrorKind::InvalidInstruction, 0, function_message(function.name@, "' CFG entry mismatch"@))]
            } else {
                seq![]
            }) + (if entry.predecessors@.len() > 0 {
                seq![(MirValidationErrorKind::InvalidInstruction, 0, function_message(function.name@, "' entry block has predecessors"@))]
            } else {
                seq![]
            })
        } else {
            seq![]
        },
        None => seq![],
    }
}

/// The problems of the control-flow graph `cfg` of a function: no graph; or
/// the graph's own inconsistencies, each unreachable block, each block that
/// disagrees with its node, and the entry block's problems.
pub open spec fn cfg_issues(function: MirFunction, cfg: Option<MirControlFlowGraph>) -> Seq<MirIssue> {
    match cfg {
        None => seq![(MirValidationErrorKind::InvalidInstruction, 0, function_message(function.name@, "' has no CFG"@))],
        Some(g) => (if g.validation_errors().len() > 0 {
            seq![(MirValidationErrorKind::InvalidInstruction, 0, function_message(function.name@, "' has invalid CFG: "@ + cfg_errors_debug(g.validation_errors())))]
        } else {
            seq![]
        }) + unreachable_ids(g).map_values(|b: MirBlockId| (MirValidationErrorKind::UnreachableBlock, b.0, Seq::<char>::empty()))
            + nodes_issues(function.blocks@, g) + entry_issues(function, g),
    }
}

/// Some block of the function ends in a return.
pub open spec fn has_exit(blocks: Seq<MirBasicBlock>) -> bool {
    exists|k: int| 0 <= k < blocks.len() && (#[trigger] blocks[k]).terminator matches Some(MirTerminator::Return { .. })
}

/// Everything the validator reports for one function whose control-flow
/// graph is `cfg`.
pub open spec fn function_issues(function: MirFunction, cfg: Option<MirControlFlowGraph>) -> Seq<MirIssue> {
    if function.blocks@.len() == 0 {
        seq![(MirValidationErrorKind::InvalidInstruction, 0, function_message(function.name@, "' has no blocks"@))]
    } else {
        (if function.entry_block.is_none() {
            seq![(MirValidationErrorKind::InvalidInstruction, 0, function_message(function.name@, "' has no entry block"@))]
        } else {
            seq![]
        }) + value_issues(function.values@) + blocks_issues(function.blocks@, function.blocks@, value_ids_of(function.values@))
            + cfg_issues(function, cfg) + (if has_exit(function.blocks@) {
            seq![]
        } else {
            seq![(MirValidationErrorKind::MissingExitPath, 0, function.name@)]
        })
    }
}

/// Everything the validator reports for a run of functions whose graphs are
/// `cfgs`.
pub open spec fn functions_issues(functions: Seq<MirFunction>, cfgs: Seq<Option<MirControlFlowGraph>>) -> Seq<MirIssue>
    decreases functions.len(),
{
    if functions.len() == 0 || cfgs.len() != functions.len() {
        seq![]
    } else {
        functions_issues(functions.drop_last(), cfgs.drop_last()) + function_issues(functions.last(), cfgs.last())
    }
}


/// A message about a function, as `function_message` describes it.
fn function_text(name: &str, rest: &str) -> (result: String)
    ensures
        result@ == function_message(name@, rest@),
{
    let mut out = String::new();
    push_str(&mut out, "Function '");
    push_str(&mut out, name);
    push_str(&mut out, rest);
    assert(out@ =~= function_message(name@, rest@));
    out
}

/// A message about a block, as `block_message` describes it.
fn block_text(id: MirBlockId, rest: &str) -> (result: String)
    ensures
        result@ == block_message(id, rest@),
{
    let mut out = String::new();
    push_str(&mut out, "Block ");
    push_decimal(&mut out, id.0);
    push_str(&mut out, rest);
    assert(out@ =~= block_message(id, rest@));
    out
}

fn push_block_id_debug(out: &mut String, b: MirBlockId)
    ensures
        final(out)@ == old(out)@ + block_id_debug(b),
{
    push_str(out, "MirBlockId(");
    push_decimal(out, b.0);
    push_str(out, ")");
    assert(final(out)@ =~= old(out)@ + block_id_debug(b));
}

fn push_edge_debug(out: &mut String, head: &str, first: &str, a: MirBlockId, second: &str, b: MirBlockId)
    ensures
        final(out)@ == old(out)@ + head@ + first@ + block_id_debug(a) + second@ + block_id_debug(b) + " }"@,
{
    push_str(out, head);
    push_str(out, first);
    push_block_id_debug(out, a);
    push_str(out, second);
    push_block_id_debug(out, b);
    push_str(out, " }");
    assert(final(out)@ =~= old(out)@ + head@ + first@ + block_id_debug(a) + second@ + block_id_debug(b) + " }"@);
}

fn push_cfg_error_debug(out: &mut String, e: MirCfgValidationError)
    ensures
        final(out)@ == old(out)@ + cfg_error_debug(e),
{
    let ghost start = out@;
    match e {
        MirCfgValidationError::MissingEntry => push_str(out, "MissingEntry"),
        MirCfgValidationError::InvalidEdge { source, target } => push_edge_debug(out, "InvalidEdge", " { source: ", source, ", target: ", target),
        MirCfgValidationError::MissingSuccessor { source, target } => push_edge_debug(out, "MissingSuccessor", " { source: ", source, ", target: ", target),
        MirCfgValidationError::MissingPredecessor { source, target } => push_edge_debug(out, "MissingPredecessor", " { source: ", source, ", target: ", target),
        MirCfgValidationError::EntryHasPredecessor { entry, predecessor } => push_edge_debug(out, "EntryHasPredecessor", " { entry: ", entry, ", predecessor: ", predecessor),
    }
    proof {
        match e {
            MirCfgValidationError::MissingEntry => {},
            MirCfgValidationError::InvalidEdge { source, target } => {
                reveal_strlit("InvalidEdge");
                reveal_strlit(" { source: ");
                reveal_strlit("InvalidEdge { source: ");
                assert("InvalidEdge"@ + " { source: "@ =~= "InvalidEdge { source: "@);
            },
            MirCfgValidationError::MissingSuccessor { source, target } => {
                reveal_strlit("MissingSuccessor");
                reveal_strlit(" { source: ");
                reveal_strlit("MissingSuccessor { source: ");
                assert("MissingSuccessor"@ + " { source: "@ =~= "MissingSuccessor { source: "@);
            },
            MirCfgValidationError::MissingPredecessor { source, target } => {
                reveal_strlit("MissingPredecessor");
                reveal_strlit(" { source: ");
                reveal_strlit("MissingPredecessor { source: ");
                assert("MissingPredecessor"@ + " { source: "@ =~= "MissingPredecessor { source: "@);
            },
            MirCfgValidationError::EntryHasPredecessor { entry, predecessor } => {
                reveal_strlit("EntryHasPredecessor");
                reveal_strlit(" { entry: ");
                reveal_strlit("EntryHasPredecessor { entry: ");
                assert("EntryHasPredecessor"@ + " { entry: "@ =~= "EntryHasPredecessor { entry: "@);
            },
        }
    }
    assert(out@ =~= start + cfg_error_debug(e));
}

/// A list of graph errors as `Debug` writes it.
fn cfg_errors_text(errors: &Vec<MirCfgValidationError>) -> (result: String)
    ensures
        result@ == cfg_errors_debug(errors@),
{
    let mut out = String::new();
    push_str(&mut out, "[");
    let ghost head = out@;
    let mut i: usize = 0;
    while i < errors.len()
        invariant
            i <= errors@.len(),
            out@ == head + cfg_errors_items(errors@.subrange(0, i as int)),
        decreases errors.len() - i,
    {
        let ghost before = out@;
        if i > 0 {
            push_str(&mut out, ", ");
        }
        push_cfg_error_debug(&mut out, errors[i]);
        proof {
            let s = errors@.subrange(0, i + 1);
            assert(s.drop_last() =~= errors@.subrange(0, i as int));
            if i == 0 {
                assert(cfg_errors_items(errors@.subrange(0, 0)) =~= Seq::<char>::empty());
                assert(out@ =~= head + cfg_errors_items(s));
            } else {
                assert(out@ =~= head + cfg_errors_items(s));
            }
        }
        i = i + 1;
    }
    push_str(&mut out, "]");
    assert(errors@.subrange(0, errors@.len() as int) =~= errors@);
    assert(out@ =~= cfg_errors_debug(errors@));
    out
}

/// Whether some block has the id `id`.
fn block_exists(blocks: &Vec<MirBasicBlock>, id: MirBlockId) -> (result: bool)
    ensures
        result == block_ids(blocks@).contains(id),
{
    let mut i: usize = 0;
    while i < blocks.len()
        invariant
            i <= blocks@.len(),
            forall|k: int| 0 <= k < i ==> blocks@[k].id != id,
        decreases blocks.len() - i,
    {
        if blocks[i].id == id {
            assert(block_ids(blocks@)[i as int] == id);
            return true;
        }
        i = i + 1;
    }
    proof {
        if block_ids(blocks@).contains(id) {
            let k = choose|k: int| 0 <= k < block_ids(blocks@).len() && block_ids(blocks@)[k] == id;
            assert(blocks@[k].id == id);
        }
    }
    false
}

/// Whether the value `v` occurs in `ids`.
fn contains_value(ids: &Vec<MirValueId>, v: MirValueId) -> (result: bool)
    ensures
        result == ids@.contains(v),
{
    let mut i: usize = 0;
    while i < ids.len()
        invariant
            i <= ids@.len(),
            forall|k: int| 0 <= k < i ==> ids@[k] != v,
        decreases ids.len() - i,
    {
        if ids[i] == v {
            return true;
        }
        i = i + 1;
    }
    false
}

/// Whether two block lists are equal.
fn blocks_equal(a: &Vec<MirBlockId>, b: &Vec<MirBlockId>) -> (result: bool)
    ensures
        result == (a@ == b@),
{
    if a.len() != b.len() {
        return false;
    }
    let mut i: usize = 0;
    while i < a.len()
        invariant
            a@.len() == b@.len(),
            i <= a@.len(),
            forall|k: int| 0 <= k < i ==> a@[k] == b@[k],
        decreases a.len() - i,
    {
        if a[i] != b[i] {
            return false;
        }
        i = i + 1;
    }
    assert(a@ =~= b@);
    true
}

proof fn lemma_occurrences_absent(s: Seq<MirBlockId>, x: MirBlockId)
    requires
        !s.contains(x),
    ensures
        occurrences(s, x) == 0,
    decreases s.len(),
{
    if s.len() > 0 {
        assert(!s.drop_last().contains(x)) by {
            if s.drop_last().contains(x) {
                let k = choose|k: int| 0 <= k < s.drop_last().len() && s.drop_last()[k] == x;
                assert(s[k] == x);
            }
        }
        lemma_occurrences_absent(s.drop_last(), x);
    }
}

/// How many times `x` occurs in `s`.
fn count_block(s: &Vec<MirBlockId>, x: MirBlockId) -> (result: usize)
    ensures
        result == occurrences(s@, x),
{
    let mut n: usize = 0;
    let mut i: usize = 0;
    while i < s.len()
        invariant
            i <= s@.len(),
            n == occurrences(s@.subrange(0, i as int), x),
            n <= i,
        decreases s.len() - i,
    {
        assert(s@.subrange(0, i + 1).drop_last() =~= s@.subrange(0, i as int));
        if s[i] == x {
            n = n + 1;
        }
        i = i + 1;
    }
    assert(s@.subrange(0, s@.len() as int) =~= s@);
    n
}

/// Whether `a` and `b` hold the same blocks, each as many times.
fn same_block_counts(a: &Vec<MirBlockId>, b: &Vec<MirBlockId>) -> (result: bool)
    ensures
        result == same_occurrences(a@, b@),
{
    let mut i: usize = 0;
    while i < a.len()
        invariant
            i <= a@.len(),
            forall|k: int| 0 <= k < i ==> occurrences(a@, #[trigger] a@[k]) == occurrences(b@, a@[k]),
        decreases a.len() - i,
    {
        if count_block(a, a[i]) != count_block(b, a[i]) {
            return false;
        }
        i = i + 1;
    }
    let mut j: usize = 0;
    while j < b.len()
        invariant
            j <= b@.len(),
            forall|k: int| 0 <= k < a@.len() ==> occurrences(a@, #[trigger] a@[k]) == occurrences(b@, a@[k]),
            forall|k: int| 0 <= k < j ==> occurrences(a@, #[trigger] b@[k]) == occurrences(b@, b@[k]),
        decreases b.len() - j,
    {
        if count_block(a, b[j]) != count_block(b, b[j]) {
            return false;
        }
        j = j + 1;
    }
    assert forall|x: MirBlockId| occurrences(a@, x) == occurrences(b@, x) by {
        if a@.contains(x) {
            let k = choose|k: int| 0 <= k < a@.len() && a@[k] == x;
            assert(occurrences(a@, a@[k]) == occurrences(b@, a@[k]));
        } else if b@.contains(x) {
            let k = choose|k: int| 0 <= k < b@.len() && b@[k] == x;
            assert(occurrences(a@, b@[k]) == occurrences(b@, b@[k]));
        } else {
            lemma_occurrences_absent(a@, x);
            lemma_occurrences_absent(b@, x);
        }
    }
    true
}

/// A copy of an error.
fn copy_error(e: &MirValidationError) -> (result: MirValidationError)
    ensures
        result@ == e@,
{
    match e {
        MirValidationError::UnreachableBlock { block_id } => MirValidationError::UnreachableBlock { block_id: *block_id },
        MirValidationError::InvalidInstruction { message } => MirValidationError::InvalidInstruction { message: to_owned_string(message.as_str()) },
        MirValidationError::MissingExitPath { function } => MirValidationError::MissingExitPath { function: to_owned_string(function.as_str()) },
        MirValidationError::MissingTerminator { block_id } => MirValidationError::MissingTerminator { block_id: *block_id },
        MirValidationError::InvalidTerminator { block_id, message } => MirValidationError::InvalidTerminator { block_id: *block_id, message: to_owned_string(message.as_str()) },
        MirValidationError::InvalidBranchTarget { target } => MirValidationError::InvalidBranchTarget { target: *target },
        MirValidationError::InvalidValue { value_id, message } => MirValidationError::InvalidValue { value_id: *value_id, message: to_owned_string(message.as_str()) },
    }
}

impl MirValidator {
    /// The problems recorded so far, as plain values.
    pub closed spec fn recorded(self) -> Seq<MirIssue> {
        issues_of(self.errors@)
    }

    pub fn new() -> (result: Self)
        ensures
            result.recorded() == Seq::<MirIssue>::empty(),
    {
        let result = MirValidator { errors: Vec::new() };
        assert(result.recorded() =~= Seq::<MirIssue>::empty());
        result
    }

    fn record(&mut self, error: MirValidationError)
        ensures
            final(self).recorded() == old(self).recorded().push(error@),
    {
        self.errors.push(error);
        assert(issues_of(self.errors@) =~= issues_of(old(self).errors@).push(error@));
    }

    /// A copy of the recorded errors.
    fn copy_errors(&self) -> (result: Vec<MirValidationError>)
        ensures
            issues_of(result@) == self.recorded(),
    {
        let mut out: Vec<MirValidationError> = Vec::new();
        let mut i: usize = 0;
        while i < self.errors.len()
            invariant
                i <= self.errors@.len(),
                issues_of(out@) == issues_of(self.errors@.subrange(0, i as int)),
            decreases self.errors.len() - i,
        {
            let ghost prev = out@;
            let e = copy_error(&self.errors[i]);
            out.push(e);
            assert(issues_of(out@) =~= issues_of(prev).push(e@));
            assert(self.errors@.subrange(0, i + 1) =~= self.errors@.subrange(0, i as int).push(self.errors@[i as int]));
            assert(issues_of(self.errors@.subrange(0, i + 1)) =~= issues_of(self.errors@.subrange(0, i as int)).push(self.errors@[i as int]@));
            i = i + 1;
        }
        assert(self.errors@.subrange(0, self.errors@.len() as int) =~= self.errors@);
        out
    }

    /// Checks every function of the module. The problems found are added to
    /// those of earlier calls; the result is `Ok` when none has been found
    /// so far, and otherwise all of them.
    pub fn validate(&mut self, module: &MirModule) -> (result: Result<(), Vec<MirValidationError>>)
        ensures
            exists|cfgs: Seq<Option<MirControlFlowGraph>>| {
                &&& cfgs.len() == module.functions@.len()
                &&& forall|i: int| 0 <= i < cfgs.len() ==> built_from(module.functions@[i], #[trigger] cfgs[i])
                &&& final(self).recorded() == old(self).recorded() + functions_issues(module.functions@, cfgs)
            },
            match result {
                Ok(()) => final(self).recorded().len() == 0,
                Err(errors) => issues_of(errors@) == final(self).recorded() && errors@.len() > 0,
            },
    {
        let ghost start = self.recorded();
        let ghost mut cfgs: Seq<Option<MirControlFlowGraph>> = Seq::empty();
        let mut i: usize = 0;
        while i < module.functions.len()
            invariant
                i <= module.functions@.len(),
                cfgs.len() == i,
                forall|k: int| 0 <= k < i ==> built_from(module.functions@[k], #[trigger] cfgs[k]),
                self.recorded() == start + functions_issues(module.functions@.subrange(0, i as int), cfgs),
            decreases module.functions.len() - i,
        {
            let g = self.validate_function(&module.functions[i]);
            proof {
                let prev = cfgs;
                cfgs = cfgs.push(g@);
                let fs = module.functions@.subrange(0, i + 1);
                assert(fs.drop_last() =~= module.functions@.subrange(0, i as int));
                assert(cfgs.drop_last() =~= prev);
                assert(functions_issues(fs, cfgs) == functions_issues(fs.drop_last(), cfgs.drop_last()) + function_issues(fs.last(), cfgs.last()));
            }
            i = i + 1;
        }
        assert(module.functions@.subrange(0, module.functions@.len() as int) =~= module.functions@);
        if self.errors.len() == 0 {
            Ok(())
        } else {
            Err(self.copy_errors())
        }
    }

    /// Checks one function; gives back the control-flow graph it was checked
    /// against.
    fn validate_function(&mut self, function: &MirFunction) -> (cfg: Ghost<Option<MirControlFlowGraph>>)
        ensures
            built_from(*function, cfg@),
            final(self).recorded() == old(self).recorded() + function_issues(*function, cfg@),
    {
        if function.blocks.len() == 0 {
            let message = function_text(function.name.as_str(), "' has no blocks");
            self.record(MirValidationError::InvalidInstruction { message });
            return Ghost(None);
        }
        let ghost start = self.recorded();
        if function.entry_block.is_none() {
            let message = function_text(function.name.as_str(), "' has no entry block");
            self.record(MirValidationError::InvalidInstruction { message });
        }
        let ghost after_entry = self.recorded();
        let mut ids: Vec<MirValueId> = Vec::new();
        let mut i: usize = 0;
        while i < function.values.len()
            invariant
                i <= function.values@.len(),
                ids@ == value_ids_of(function.values@.subrange(0, i as int)),
                self.recorded() == after_entry + value_issues(function.values@.subrange(0, i as int)),
            decreases function.values.len() - i,
        {
            let ghost before = self.recorded();
            let ghost vs = function.values@.subrange(0, i + 1);
            assert(vs.drop_last() =~= function.values@.subrange(0, i as int));
            let id = function.values[i].id;
            if contains_value(&ids, id) {
                self.record(MirValidationError::InvalidValue { value_id: id.0, message: to_owned_string("duplicate MIR value id") });
            }
            if function.values[i].value_type == MirType::Unknown {
                self.record(MirValidationError::InvalidValue { value_id: id.0, message: to_owned_string("MIR value has unknown type") });
            }
            ids.push(id);
            i = i + 1;
            assert(ids@ =~= value_ids_of(vs));
            assert(self.recorded() =~= after_entry + value_issues(vs));
        }
        assert(function.values@.subrange(0, function.values@.len() as int) =~= function.values@);
        let ghost after_values = self.recorded();
        let mut b: usize = 0;
        while b < function.blocks.len()
            invariant
                b <= function.blocks@.len(),
                ids@ == value_ids_of(function.values@),
                self.recorded() == after_values + blocks_issues(function.blocks@.subrange(0, b as int), function.blocks@, ids@),
            decreases function.blocks.len() - b,
        {
            self.validate_block(&function.blocks[b], function, &ids);
            proof {
                let run = function.blocks@.subrange(0, b + 1);
                assert(run.drop_last() =~= function.blocks@.subrange(0, b as int));
            }
            b = b + 1;
        }
        assert(function.blocks@.subrange(0, function.blocks@.len() as int) =~= function.blocks@);
        let cfg = self.validate_cfg(function);
        let ghost after_cfg = self.recorded();
        let mut exit_found = false;
        let mut k: usize = 0;
        while k < function.blocks.len()
            invariant
                k <= function.blocks@.len(),
                exit_found == exists|j: int| 0 <= j < k && (#[trigger] function.blocks@[j]).terminator matches Some(MirTerminator::Return { .. }),
            decreases function.blocks.len() - k,
        {
            if let Some(MirTerminator::Return { .. }) = function.blocks[k].terminator {
                exit_found = true;
            }
            k = k + 1;
        }
        if !exit_found {
            self.record(MirValidationError::MissingExitPath { function: to_owned_string(function.name.as_str()) });
        }
        assert(self.recorded() =~= start + function_issues(*function, cfg@));
        cfg
    }

    /// Checks the control-flow graph built from the function's blocks; gives
    /// back that graph.
    fn validate_cfg(&mut self, function: &MirFunction) -> (cfg: Ghost<Option<MirControlFlowGraph>>)
        ensures
            built_from(*function, cfg@),
            final(self).recorded() == old(self).recorded() + cfg_issues(*function, cfg@),
    {
        let built = MirControlFlowGraph::build(function);
        let ghost g = built;
        let ghost start = self.recorded();
        let cfg = match built {
            None => {
                let message = function_text(function.name.as_str(), "' has no CFG");
                self.record(MirValidationError::InvalidInstruction { message });
                return Ghost(g);
            },
            Some(cfg) => cfg,
        };
        if let Err(problems) = cfg.validate() {
            let mut message = function_text(function.name.as_str(), "' has invalid CFG: ");
            let text = cfg_errors_text(&problems);
            push_str(&mut message, text.as_str());
            assert(message@ =~= function_message(function.name@, "' has invalid CFG: "@ + cfg_errors_debug(cfg.validation_errors())));
            self.record(MirValidationError::InvalidInstruction { message });
        }
        let ghost after_check = self.recorded();
        let unreachable = cfg.unreachable_blocks();
        proof {
            lemma_sorted_unique(unreachable@, unreachable_ids(cfg));
        }
        let mut u: usize = 0;
        while u < unreachable.len()
            invariant
                u <= unreachable@.len(),
                self.recorded() == after_check + unreachable@.subrange(0, u as int).map_values(
                    |b: MirBlockId| (MirValidationErrorKind::UnreachableBlock, b.0, Seq::<char>::empty()),
                ),
            decreases unreachable.len() - u,
        {
            self.record(MirValidationError::UnreachableBlock { block_id: unreachable[u].0 });
            u = u + 1;
            assert(self.recorded() =~= after_check + unreachable@.subrange(0, u as int).map_values(
                |b: MirBlockId| (MirValidationErrorKind::UnreachableBlock, b.0, Seq::<char>::empty()),
            ));
        }
        assert(unreachable@.subrange(0, unreachable@.len() as int) =~= unreachable@);
        let ghost after_unreachable = self.recorded();
        let mut b: usize = 0;
        while b < function.blocks.len()
            invariant
                cfg.wf(),
                b <= function.blocks@.len(),
                self.recorded() == after_unreachable + nodes_issues(function.blocks@.subrange(0, b as int), cfg),
            decreases function.blocks.len() - b,
        {
            let block = &function.blocks[b];
            let ghost before = self.recorded();
            match cfg.find_node(block.id) {
                Some(index) => {
                    if !blocks_equal(&cfg.nodes[index].successors, &block.successors) {
                        let message = block_text(block.id, " CFG successors do not match block successors");
                        self.record(MirValidationError::InvalidInstruction { message });
                    }
                    if !same_block_counts(&cfg.nodes[index].predecessors, &block.predecessors) {
                        let message = block_text(block.id, " CFG predecessors do not match block predecessors");
                        self.record(MirValidationError::InvalidInstruction { message });
                    }
                },
                None => {
                    let message = block_text(block.id, " is missing from CFG");
                    self.record(MirValidationError::InvalidInstruction { message });
                },
            }
            assert(self.recorded() =~= before + node_issues(*block, cfg));
            proof {
                let run = function.blocks@.subrange(0, b + 1);
                assert(run.drop_last() =~= function.blocks@.subrange(0, b as int));
            }
            b = b + 1;
        }
        assert(function.blocks@.subrange(0, function.blocks@.len() as int) =~= function.blocks@);
        let ghost after_nodes = self.recorded();
        if let Some(entry_index) = function.entry_block {
            if entry_index < function.blocks.len() {
                let entry_block = &function.blocks[entry_index];
                if cfg.entry != entry_block.id {
                    let message = function_text(function.name.as_str(), "' CFG entry mismatch");
                    self.record(MirValidationError::InvalidInstruction { message });
                }
                if entry_block.predecessors.len() > 0 {
                    let message = function_text(function.name.as_str(), "' entry block has predecessors");
                    self.record(MirValidationError::InvalidInstruction { message });
                }
            }
        }
        assert(self.recorded() =~= after_nodes + entry_issues(*function, cfg));
        assert(self.recorded() =~= start + cfg_issues(*function, g));
        Ghost(g)
    }

    /// Checks one block of `function`, whose values have the ids `ids`.
    fn validate_block(&mut self, block: &MirBasicBlock, function: &MirFunction, ids: &Vec<MirValueId>)
        ensures
            final(self).recorded() == old(self).recorded() + block_issues(*block, function.blocks@, ids@),
    {
        let ghost start = self.recorded();
        if block.terminator.is_none() {
            self.record(MirValidationError::MissingTerminator { block_id: block.id.0 });
        }
        let ghost after_missing = self.recorded();
        let mut positions: Vec<usize> = Vec::new();
        let mut i: usize = 0;
        while i < block.instructions.len()
            invariant
                i <= block.instructions@.len(),
                positions@.map_values(|p: usize| p as int) == terminator_positions(block.instructions@.subrange(0, i as int)),
                forall|k: int| 0 <= k < positions@.len() ==> positions@[k] < i,
            decreases block.instructions.len() - i,
        {
            let ghost run = block.instructions@.subrange(0, i + 1);
            assert(run.drop_last() =~= block.instructions@.subrange(0, i as int));
            if block.instructions[i].is_terminator() {
                positions.push(i);
            }
            i = i + 1;
            assert(positions@.map_values(|p: usize| p as int) =~= terminator_positions(run));
        }
        assert(block.instructions@.subrange(0, block.instructions@.len() as int) =~= block.instructions@);
        assert(positions@.len() == terminator_positions(block.instructions@).len());
        if positions.len() == 1 {
            assert(positions@[0] as int == terminator_positions(block.instructions@)[0]);
            if positions[0] != block.instructions.len() - 1 {
                let mut message = String::new();
                push_str(&mut message, "terminator at instruction ");
                push_decimal(&mut message, positions[0]);
                push_str(&mut message, " is not last");
                self.record(MirValidationError::InvalidTerminator { block_id: block.id.0, message });
            }
        } else if positions.len() > 1 {
            self.record(MirValidationError::InvalidTerminator { block_id: block.id.0, message: to_owned_string("block has multiple terminators") });
        }
        assert(self.recorded() =~= after_missing + placement_issues(*block));
        let ghost after_placement = self.recorded();
        if let Some(recorded) = block.terminator {
            if block.instructions.len() > 0 {
                if let Some(last) = block.instructions[block.instructions.len() - 1].terminator() {
                    if recorded != last {
                        self.record(MirValidationError::InvalidTerminator {
                            block_id: block.id.0,
                            message: to_owned_string("recorded terminator does not match final instruction"),
                        });
                    }
                }
            }
        }
        assert(self.recorded() =~= after_placement + recorded_issues(*block));
        self.validate_instructions(&block.instructions, function, ids);
        assert(self.recorded() =~= start + block_issues(*block, function.blocks@, ids@));
    }

    fn validate_instructions(&mut self, instructions: &Vec<MirInstruction>, function: &MirFunction, ids: &Vec<MirValueId>)
        ensures
            final(self).recorded() == old(self).recorded() + instructions_issues(instructions@, function.blocks@, ids@),
    {
        let ghost start = self.recorded();
        let mut j: usize = 0;
        while j < instructions.len()
            invariant
                j <= instructions@.len(),
                self.recorded() == start + instructions_issues(instructions@.subrange(0, j as int), function.blocks@, ids@),
            decreases instructions.len() - j,
        {
            let ghost before = self.recorded();
            self.validate_instruction(&instructions[j], function, ids);
            proof {
                let run = instructions@.subrange(0, j + 1);
                assert(run.drop_last() =~= instructions@.subrange(0, j as int));
                assert(instructions_issues(run, function.blocks@, ids@) == instructions_issues(run.drop_last(), function.blocks@, ids@)
                    + instruction_issues(run.last().kind, function.blocks@, ids@));
            }
            j = j + 1;
        }
        assert(instructions@.subrange(0, instructions@.len() as int) =~= instructions@);
    }

    fn validate_value(&mut self, value: MirValueId, ids: &Vec<MirValueId>, context: &str)
        ensures
            final(self).recorded() == old(self).recorded() + use_issues(ids@, value, context@),
    {
        if !contains_value(ids, value) {
            let mut message = to_owned_string("unknown MIR value used as ");
            push_str(&mut message, context);
            self.record(MirValidationError::InvalidValue { value_id: value.0, message });
        }
        assert(self.recorded() =~= old(self).recorded() + use_issues(ids@, value, context@));
    }

    fn validate_target(&mut self, blocks: &Vec<MirBasicBlock>, target: MirBlockId)
        ensures
            final(self).recorded() == old(self).recorded() + target_issues(blocks@, target),
    {
        if !block_exists(blocks, target) {
            self.record(MirValidationError::InvalidBranchTarget { target: target.0 });
        }
        assert(self.recorded() =~= old(self).recorded() + target_issues(blocks@, target));
    }

    fn validate_binary(&mut self, result: MirValueId, left: MirValueId, right: MirValueId, ids: &Vec<MirValueId>)
        ensures
            final(self).recorded() == old(self).recorded() + binary_issues(ids@, result, left, right),
    {
        self.validate_value(result, ids, "instruction result");
        self.validate_value(left, ids, "left operand");
        self.validate_value(right, ids, "right operand");
        assert(self.recorded() =~= old(self).recorded() + binary_issues(ids@, result, left, right));
    }

    fn validate_arguments(&mut self, arguments: &Vec<MirValueId>, ids: &Vec<MirValueId>)
        ensures
            final(self).recorded() == old(self).recorded() + arguments_issues(ids@, arguments@),
    {
        let ghost start = self.recorded();
        let mut i: usize = 0;
        while i < arguments.len()
            invariant
                i <= arguments@.len(),
                self.recorded() == start + arguments_issues(ids@, arguments@.subrange(0, i as int)),
            decreases arguments.len() - i,
        {
            self.validate_value(arguments[i], ids, "call argument");
            proof {
                let run = arguments@.subrange(0, i + 1);
                assert(run.drop_last() =~= arguments@.subrange(0, i as int));
            }
            i = i + 1;
        }
        assert(arguments@.subrange(0, arguments@.len() as int) =~= arguments@);
    }

    /// Checks one instruction of `function`, whose values have the ids `ids`.
    #[verifier::spinoff_prover]
    fn validate_instruction(&mut self, instruction: &MirInstruction, function: &MirFunction, ids: &Vec<MirValueId>)
        ensures
            final(self).recorded() == old(self).recorded() + instruction_issues(instruction.kind, function.blocks@, ids@),
    {
        let ghost start = self.recorded();
        match &instruction.kind {
            MirInstructionKind::Branch { condition, true_block, false_block } => {
                self.validate_value(*condition, ids, "branch condition");
                self.validate_target(&function.blocks, *true_block);
                self.validate_target(&function.blocks, *false_block);
            },
            MirInstructionKind::Jump { target } => self.validate_target(&function.blocks, *target),
            MirInstructionKind::Return { value } => {
                if let Some(v) = value {
                    self.validate_value(*v, ids, "return value");
                }
            },
            MirInstructionKind::Const { result, .. } => self.validate_value(*result, ids, "instruction result"),
            MirInstructionKind::Load { result, .. } => self.validate_value(*result, ids, "instruction result"),
            MirInstructionKind::TableNew { result } => self.validate_value(*result, ids, "instruction result"),
            MirInstructionKind::Add { result, left, right } => self.validate_binary(*result, *left, *right, ids),
            MirInstructionKind::Subtract { result, left, right } => self.validate_binary(*result, *left, *right, ids),
            MirInstructionKind::Multiply { result, left, right } => self.validate_binary(*result, *left, *right, ids),
            MirInstructionKind::Divide { result, left, right } => self.validate_binary(*result, *left, *right, ids),
            MirInstructionKind::Modulo { result, left, right } => self.validate_binary(*result, *left, *right, ids),
            MirInstructionKind::Equal { result, left, right } => self.validate_binary(*result, *left, *right, ids),
            MirInstructionKind::NotEqual { result, left, right } => self.validate_binary(*result, *left, *right, ids),
            MirInstructionKind::LessThan { result, left, right } => self.validate_binary(*result, *left, *right, ids),
            MirInstructionKind::LessEqual { result, left, right } => self.validate_binary(*result, *left, *right, ids),
            MirInstructionKind::GreaterThan { result, left, right } => self.validate_binary(*result, *left, *right, ids),
            MirInstructionKind::GreaterEqual { result, left, right } => self.validate_binary(*result, *left, *right, ids),
            MirInstructionKind::And { result, left, right } => self.validate_binary(*result, *left, *right, ids),
            MirInstructionKind::Or { result, left, right } => self.validate_binary(*result, *left, *right, ids),
            MirInstructionKind::Compare { result, left, right, .. } => self.validate_binary(*result, *left, *right, ids),
            MirInstructionKind::Not { result, operand } => {
                self.validate_value(*result, ids, "instruction result");
                self.validate_value(*operand, ids, "unary operand");
            },
            MirInstructionKind::Store { value, .. } => self.validate_value(*value, ids, "store value"),
            MirInstructionKind::Move { result, value } => {
                self.validate_value(*result, ids, "move result");
                self.validate_value(*value, ids, "move value");
            },
            MirInstructionKind::AllocateLocal { local, .. } => self.validate_value(*local, ids, "local allocation"),
            MirInstructionKind::Call { result, arguments, .. } => {
                if let Some(r) = result {
                    self.validate_value(*r, ids, "call result");
                }
                self.validate_arguments(arguments, ids);
            },
            MirInstructionKind::TableSet { table, key, value } => {
                self.validate_value(*table, ids, "table value");
                self.validate_value(*key, ids, "table key");
                self.validate_value(*value, ids, "table field value");
            },
            MirInstructionKind::TableGet { result, table, key } => {
                self.validate_value(*result, ids, "table get result");
                self.validate_value(*table, ids, "table value");
                self.validate_value(*key, ids, "table key");
            },
            MirInstructionKind::Unreachable => {},
            MirInstructionKind::Error => {
                self.record(MirValidationError::InvalidInstruction { message: to_owned_string("Invalid instruction") });
            },
        }
        assert(self.recorded() =~= start + instruction_issues(instruction.kind, function.blocks@, ids@));
    }
}

impl Default for MirValidator {
    fn default() -> (result: Self)
        ensures
            result.recorded() == Seq::<MirIssue>::empty(),
    {
        Self::new()
    }
}

} // verus!
