//! Preparation for static single assignment form: the variables of a
//! function with their categories, every definition (allocation or store)
//! and use (load) of them in program order, and the dominators of the
//! function's blocks.
use vstd::prelude::*;

use crate::mir::block::MirBasicBlock;
use crate::mir::cfg::{built_from, dom_keys, idom_candidate, pos, strictly_sorted, MirControlFlowGraph};
use crate::mir::function::MirFunction;
use crate::mir::instruction::MirInstructionKind;
use crate::mir::types::{MirBlockId, MirType, MirValueId};
use crate::mir::value::{MirLocal, MirValueData, MirValueKind};
use crate::llvm::generator::{chars_lt, lemma_chars_lt_total, lemma_chars_lt_transitive, string_lt};
use crate::text::{decimal, push_decimal, push_str, str_eq, to_owned_string};

verus! {

/// A place in a function: a block and the position of an instruction in it.
#[derive(Debug, Clone, Copy, PartialEq, Eq, Hash, Structural)]
pub struct MirProgramPoint {
    pub block: MirBlockId,
    pub instruction_index: usize,
}

/// What a variable is.
#[derive(Debug, Clone, Copy, PartialEq, Eq, Structural)]
pub enum MirVariableCategory {
    Local,
    Parameter,
    Global,
    CompilerTemporary,
    ReturnSlot,
}

/// A variable: its storage name, the value that stands for it, its symbol,
/// its type and its category.
#[derive(Debug)]
pub struct MirSsaVariable {
    pub storage: String,
    pub value_id: MirValueId,
    pub symbol_id: Option<usize>,
    pub value_type: MirType,
    pub category: MirVariableCategory,
}

/// How a variable gets a value.
#[derive(Debug, Clone, Copy, PartialEq, Eq, Structural)]
pub enum MirDefinitionKind {
    Allocation,
    Store,
}

/// A definition of a variable at a program point.
#[derive(Debug)]
pub struct MirVariableDefinition {
    pub variable: String,
    pub value_id: MirValueId,
    pub symbol_id: Option<usize>,
    pub value_type: MirType,
    pub block: MirBlockId,
    pub instruction_index: usize,
    pub assigned_value: Option<MirValueId>,
    pub kind: MirDefinitionKind,
}

/// A use of a variable at a program point, and the value it was loaded into.
#[derive(Debug)]
pub struct MirVariableUse {
    pub variable: String,
    pub value_id: MirValueId,
    pub symbol_id: Option<usize>,
    pub block: MirBlockId,
    pub instruction_index: usize,
    pub loaded_value: MirValueId,
}

/// What the preparation found: each variable once, the definitions and the
/// uses in program order, the dominators of each reachable block, the
/// immediate dominators, and the dominance frontier of each reachable block.
#[derive(Debug)]
pub struct MirSsaMetadata {
    pub variables: Vec<MirSsaVariable>,
    pub definitions: Vec<MirVariableDefinition>,
    pub uses: Vec<MirVariableUse>,
    pub dominators: Vec<(MirBlockId, Vec<MirBlockId>)>,
    pub immediate_dominators: Vec<(MirBlockId, MirBlockId)>,
    pub dominance_frontiers: Vec<(MirBlockId, Vec<MirBlockId>)>,
}

impl MirSsaMetadata {
    /// Every key occurs once: the storage names of the variables, the blocks
    /// of the dominator table, the blocks with an immediate dominator and
    /// the blocks with a dominance frontier.
    pub open spec fn keys_unique(&self) -> bool {
        &&& forall|i: int, j: int|
            0 <= i < j < self.variables@.len() ==> (#[trigger] self.variables@[i]).storage@
                != (#[trigger] self.variables@[j]).storage@
        &&& forall|i: int, j: int|
            0 <= i < j < self.dominators@.len() ==> (#[trigger] self.dominators@[i]).0
                != (#[trigger] self.dominators@[j]).0
        &&& forall|i: int, j: int|
            0 <= i < j < self.immediate_dominators@.len() ==> (#[trigger] self.immediate_dominators@[i]).0
                != (#[trigger] self.immediate_dominators@[j]).0
        &&& forall|i: int, j: int|
            0 <= i < j < self.dominance_frontiers@.len() ==> (#[trigger] self.dominance_frontiers@[i]).0
                != (#[trigger] self.dominance_frontiers@[j]).0
    }
}

/// In the dominator table `m`, `a` dominates `x`.
pub open spec fn table_dominates(m: Seq<(MirBlockId, Vec<MirBlockId>)>, a: MirBlockId, x: MirBlockId) -> bool {
    exists|i: int| 0 <= i < m.len() && (#[trigger] m[i]).0 == x && m[i].1@.contains(a)
}

/// `y` is in the dominance frontier of `b`: `b` dominates a predecessor of
/// `y` but does not strictly dominate `y`.
pub open spec fn in_frontier(g: MirControlFlowGraph, m: Seq<(MirBlockId, Vec<MirBlockId>)>, b: MirBlockId, y: MirBlockId) -> bool {
    &&& exists|k: int| 0 <= k < g.preds(y).len() && table_dominates(m, b, #[trigger] g.preds(y)[k])
    &&& !(b != y && table_dominates(m, b, y))
}

/// The dominance frontier of `b`: the blocks of the table in its order.
pub open spec fn frontier_of(g: MirControlFlowGraph, m: Seq<(MirBlockId, Vec<MirBlockId>)>, b: MirBlockId) -> Seq<MirBlockId> {
    dom_keys(m).filter(|y: MirBlockId| in_frontier(g, m, b, y))
}

/// The dominance frontier of each block of the table, in its order.
pub open spec fn frontiers_of(g: MirControlFlowGraph, m: Seq<(MirBlockId, Vec<MirBlockId>)>) -> Seq<(MirBlockId, Seq<MirBlockId>)> {
    dom_keys(m).map_values(|b: MirBlockId| (b, frontier_of(g, m, b)))
}

/// The frontier entries `fs` with their blocks as sequences.
pub open spec fn frontier_entries(fs: Seq<(MirBlockId, Vec<MirBlockId>)>) -> Seq<(MirBlockId, Seq<MirBlockId>)> {
    fs.map_values(|e: (MirBlockId, Vec<MirBlockId>)| (e.0, e.1@))
}

proof fn lemma_filter_step(s: Seq<MirBlockId>, p: spec_fn(MirBlockId) -> bool, i: int)
    requires
        0 <= i < s.len(),
    ensures
        s.subrange(0, i + 1).filter(p) == if p(s[i]) {
            s.subrange(0, i).filter(p).push(s[i])
        } else {
            s.subrange(0, i).filter(p)
        },
{
    reveal(Seq::filter);
    assert(s.subrange(0, i + 1).drop_last() =~= s.subrange(0, i));
}

/// Whether the table `doms` says that `a` dominates `x`.
fn dominates_entry(doms: &Vec<(MirBlockId, Vec<MirBlockId>)>, a: MirBlockId, x: MirBlockId) -> (result: bool)
    ensures
        result == table_dominates(doms@, a, x),
{
    let mut i: usize = 0;
    while i < doms.len()
        invariant
            i <= doms@.len(),
            forall|k: int| 0 <= k < i ==> !((#[trigger] doms@[k]).0 == x && doms@[k].1@.contains(a)),
        decreases doms.len() - i,
    {
        if doms[i].0 == x {
            let set = &doms[i].1;
            let mut j: usize = 0;
            while j < set.len()
                invariant
                    j <= set@.len(),
                    i < doms@.len(),
                    set@ == doms@[i as int].1@,
                    doms@[i as int].0 == x,
                    forall|k: int| 0 <= k < j ==> set@[k] != a,
                decreases set.len() - j,
            {
                if set[j] == a {
                    assert(set@[j as int] == a);
                    assert(doms@[i as int].1@.contains(a));
                    assert(doms@[i as int].0 == x);
                    return true;
                }
                j = j + 1;
            }
            assert(!doms@[i as int].1@.contains(a));
        }
        i = i + 1;
    }
    false
}

/// Whether `y` is in the dominance frontier of `b`.
fn frontier_member(g: &MirControlFlowGraph, doms: &Vec<(MirBlockId, Vec<MirBlockId>)>, b: MirBlockId, y: MirBlockId) -> (result: bool)
    requires
        g.wf(),
    ensures
        result == in_frontier(*g, doms@, b, y),
{
    let strictly = b != y && dominates_entry(doms, b, y);
    if strictly {
        return false;
    }
    match g.find_node(y) {
        None => {
            assert(g.preds(y) =~= Seq::<MirBlockId>::empty());
            false
        },
        Some(n) => {
            let preds = &g.nodes[n].predecessors;
            assert(preds@ == g.preds(y));
            let mut k: usize = 0;
            while k < preds.len()
                invariant
                    k <= preds@.len(),
                    preds@ == g.preds(y),
                    !(b != y && table_dominates(doms@, b, y)),
                    forall|q: int| 0 <= q < k ==> !table_dominates(doms@, b, #[trigger] preds@[q]),
                decreases preds.len() - k,
            {
                if dominates_entry(doms, b, preds[k]) {
                    assert(table_dominates(doms@, b, g.preds(y)[k as int]));
                    assert(!(b != y && table_dominates(doms@, b, y)));
                    return true;
                }
                k = k + 1;
            }
            false
        },
    }
}

/// The dominance frontier of every block of the dominator table `doms` of
/// `g`, in table order.
fn dominance_frontiers(g: &MirControlFlowGraph, doms: &Vec<(MirBlockId, Vec<MirBlockId>)>) -> (result: Vec<(MirBlockId, Vec<MirBlockId>)>)
    requires
        g.wf(),
    ensures
        frontier_entries(result@) == frontiers_of(*g, doms@),
{
    let ghost keys = dom_keys(doms@);
    let mut result: Vec<(MirBlockId, Vec<MirBlockId>)> = Vec::new();
    let mut i: usize = 0;
    while i < doms.len()
        invariant
            i <= doms@.len(),
            keys == dom_keys(doms@),
            g.wf(),
            frontier_entries(result@) == frontiers_of(*g, doms@).subrange(0, i as int),
        decreases doms.len() - i,
    {
        let b = doms[i].0;
        let ghost pred = |y: MirBlockId| in_frontier(*g, doms@, b, y);
        let mut frontier: Vec<MirBlockId> = Vec::new();
        let mut j: usize = 0;
        while j < doms.len()
            invariant
                j <= doms@.len(),
                keys == dom_keys(doms@),
                g.wf(),
                pred == (|y: MirBlockId| in_frontier(*g, doms@, b, y)),
                frontier@ == keys.subrange(0, j as int).filter(pred),
            decreases doms.len() - j,
        {
            proof {
                lemma_filter_step(keys, pred, j as int);
                assert(keys[j as int] == doms@[j as int].0);
            }
            let y = doms[j].0;
            if frontier_member(g, doms, b, y) {
                frontier.push(y);
            }
            j = j + 1;
        }
        proof {
            assert(keys.subrange(0, doms@.len() as int) =~= keys);
            assert(keys[i as int] == b);
        }
        let ghost before = result@;
        result.push((b, frontier));
        proof {
            assert(frontier_entries(result@) =~= frontier_entries(before).push((b, frontier_of(*g, doms@, b))));
            assert(frontiers_of(*g, doms@).subrange(0, i + 1) =~= frontiers_of(*g, doms@).subrange(0, i as int).push(
                (b, frontier_of(*g, doms@, b)),
            ));
        }
        i = i + 1;
    }
    assert(frontiers_of(*g, doms@).subrange(0, i as int) =~= frontiers_of(*g, doms@));
    result
}

/// No two variables of `vs` share a storage name.
pub open spec fn storages_unique(vs: Seq<MirSsaVariable>) -> bool {
    forall|i: int, j: int| 0 <= i < j < vs.len() ==> (#[trigger] vs[i]).storage@ != (#[trigger] vs[j]).storage@
}

/// The position of the variable stored as `name`, when there is one.
pub open spec fn index_named(vs: Seq<MirSsaVariable>, name: Seq<char>) -> Option<int>
    decreases vs.len(),
{
    if vs.len() == 0 {
        None
    } else {
        match index_named(vs.drop_last(), name) {
            Some(i) => Some(i),
            None => if vs.last().storage@ == name {
                Some(vs.len() - 1)
            } else {
                None
            },
        }
    }
}

/// Whether a parameter of `f` is stored as `name`.
pub open spec fn is_parameter_storage(f: MirFunction, name: Seq<char>) -> bool {
    exists|i: int| 0 <= i < f.parameter_data@.len() && (#[trigger] f.parameter_data@[i]).storage@ == name
}

/// The variable a local of `f` stands for: the return slot, a parameter
/// or a plain local.
pub open spec fn local_variable(f: MirFunction, l: MirLocal) -> MirSsaVariable {
    MirSsaVariable {
        storage: l.storage,
        value_id: l.value_id,
        symbol_id: l.symbol_id,
        value_type: l.value_type,
        category: if l.storage@ == "local_return"@ {
            MirVariableCategory::ReturnSlot
        } else if is_parameter_storage(f, l.storage@) {
            MirVariableCategory::Parameter
        } else {
            MirVariableCategory::Local
        },
    }
}

/// `vs` with the variable `v` recorded under its name: a later local of a
/// name takes the place of an earlier one.
pub open spec fn with_local(vs: Seq<MirSsaVariable>, v: MirSsaVariable) -> Seq<MirSsaVariable> {
    match index_named(vs, v.storage@) {
        Some(i) => vs.update(i, v),
        None => vs.push(v),
    }
}

/// `vs` with the global `v` added when nothing is recorded under its name.
pub open spec fn with_global(vs: Seq<MirSsaVariable>, v: MirSsaVariable) -> Seq<MirSsaVariable> {
    match index_named(vs, v.storage@) {
        Some(_) => vs,
        None => vs.push(v),
    }
}

/// The variables of the locals `ls` of `f`.
pub open spec fn locals_variables(f: MirFunction, ls: Seq<MirLocal>) -> Seq<MirSsaVariable>
    decreases ls.len(),
{
    if ls.len() == 0 {
        seq![]
    } else {
        with_local(locals_variables(f, ls.drop_last()), local_variable(f, ls.last()))
    }
}

/// `vs` with the globals among the values `values` added.
pub open spec fn globals_variables(vs: Seq<MirSsaVariable>, values: Seq<MirValueData>) -> Seq<MirSsaVariable>
    decreases values.len(),
{
    if values.len() == 0 {
        vs
    } else {
        let prev = globals_variables(vs, values.drop_last());
        let v = values.last();
        match v.kind {
            MirValueKind::Global { name, symbol_id } => with_global(
                prev,
                MirSsaVariable { storage: name, value_id: v.id, symbol_id, value_type: v.value_type, category: MirVariableCategory::Global },
            ),
            _ => prev,
        }
    }
}

/// The variables of a function: its locals, then the globals it refers to.
pub open spec fn ssa_variables(f: MirFunction) -> Seq<MirSsaVariable> {
    globals_variables(locals_variables(f, f.locals@), f.values@)
}

/// The definition an instruction makes of a known variable.
pub open spec fn instruction_definition(vs: Seq<MirSsaVariable>, block: MirBlockId, index: usize, kind: MirInstructionKind) -> Seq<MirVariableDefinition> {
    match kind {
        MirInstructionKind::AllocateLocal { local, name } => match index_named(vs, name@) {
            Some(i) => seq![MirVariableDefinition {
                variable: name,
                value_id: vs[i].value_id,
                symbol_id: vs[i].symbol_id,
                value_type: vs[i].value_type,
                block,
                instruction_index: index,
                assigned_value: Some(local),
                kind: MirDefinitionKind::Allocation,
            }],
            None => seq![],
        },
        MirInstructionKind::Store { name, value } => match index_named(vs, name@) {
            Some(i) => seq![MirVariableDefinition {
                variable: name,
                value_id: vs[i].value_id,
                symbol_id: vs[i].symbol_id,
                value_type: vs[i].value_type,
                block,
                instruction_index: index,
                assigned_value: Some(value),
                kind: MirDefinitionKind::Store,
            }],
            None => seq![],
        },
        _ => seq![],
    }
}

/// The use an instruction makes of a known variable.
pub open spec fn instruction_use(vs: Seq<MirSsaVariable>, block: MirBlockId, index: usize, kind: MirInstructionKind) -> Seq<MirVariableUse> {
    match kind {
        MirInstructionKind::Load { result, name } => match index_named(vs, name@) {
            Some(i) => seq![MirVariableUse {
                variable: name,
                value_id: vs[i].value_id,
                symbol_id: vs[i].symbol_id,
                block,
                instruction_index: index,
                loaded_value: result,
            }],
            None => seq![],
        },
        _ => seq![],
    }
}

/// The definitions the first `n` instructions of block `b` make.
pub open spec fn block_definitions(vs: Seq<MirSsaVariable>, b: MirBasicBlock, n: nat) -> Seq<MirVariableDefinition>
    decreases n,
{
    if n == 0 {
        seq![]
    } else {
        block_definitions(vs, b, (n - 1) as nat) + instruction_definition(vs, b.id, (n - 1) as usize, b.instructions@[n - 1].kind)
    }
}

/// The uses the first `n` instructions of block `b` make.
pub open spec fn block_uses(vs: Seq<MirSsaVariable>, b: MirBasicBlock, n: nat) -> Seq<MirVariableUse>
    decreases n,
{
    if n == 0 {
        seq![]
    } else {
        block_uses(vs, b, (n - 1) as nat) + instruction_use(vs, b.id, (n - 1) as usize, b.instructions@[n - 1].kind)
    }
}

/// The definitions of the blocks `bs`, in program order.
pub open spec fn blocks_definitions(vs: Seq<MirSsaVariable>, bs: Seq<MirBasicBlock>) -> Seq<MirVariableDefinition>
    decreases bs.len(),
{
    if bs.len() == 0 {
        seq![]
    } else {
        blocks_definitions(vs, bs.drop_last()) + block_definitions(vs, bs.last(), bs.last().instructions@.len())
    }
}

/// The uses of the blocks `bs`, in program order.
pub open spec fn blocks_uses(vs: Seq<MirSsaVariable>, bs: Seq<MirBasicBlock>) -> Seq<MirVariableUse>
    decreases bs.len(),
{
    if bs.len() == 0 {
        seq![]
    } else {
        blocks_uses(vs, bs.drop_last()) + block_uses(vs, bs.last(), bs.last().instructions@.len())
    }
}

/// `doms` are the dominators of the graph `g` and `idoms` its immediate
/// dominators, as the graph computes them.
pub open spec fn dominance_recorded(
    g: MirControlFlowGraph,
    doms: Seq<(MirBlockId, Vec<MirBlockId>)>,
    idoms: Seq<(MirBlockId, MirBlockId)>,
) -> bool {
    &&& g.is_dominator_table(doms)
    &&& exists|m: Seq<(MirBlockId, Vec<MirBlockId>)>| #[trigger] g.is_dominator_table(m)
        && idoms.map_values(|e: (MirBlockId, MirBlockId)| e.0) == dom_keys(m).filter(|b: MirBlockId| g.has_idom(m, b))
        && forall|j: int| 0 <= j < idoms.len() ==> idom_candidate(m, pos(dom_keys(m), (#[trigger] idoms[j]).0), idoms[j].1)
}


/// The names of `names`, each once, in the order they first appear.
pub open spec fn first_occurrences(names: Seq<Seq<char>>) -> Seq<Seq<char>>
    decreases names.len(),
{
    if names.len() == 0 {
        seq![]
    } else {
        let prev = first_occurrences(names.drop_last());
        if prev.contains(names.last()) {
            prev
        } else {
            prev.push(names.last())
        }
    }
}

/// The variable names of the definitions of `m`, in order.
pub open spec fn definition_names(m: MirSsaMetadata) -> Seq<Seq<char>> {
    m.definitions@.map_values(|d: MirVariableDefinition| d.variable@)
}

/// The variable names of the uses of `m`, in order.
pub open spec fn use_names(m: MirSsaMetadata) -> Seq<Seq<char>> {
    m.uses@.map_values(|u: MirVariableUse| u.variable@)
}

/// Whether `m` records a variable stored as `name`.
pub open spec fn known_variable(m: MirSsaMetadata, name: Seq<char>) -> bool {
    index_named(m.variables@, name) is Some
}

/// The complaints about the defined names `names`: each must be a known
/// variable.
pub open spec fn definition_errors(m: MirSsaMetadata, names: Seq<Seq<char>>) -> Seq<Seq<char>>
    decreases names.len(),
{
    if names.len() == 0 {
        seq![]
    } else {
        definition_errors(m, names.drop_last()) + if known_variable(m, names.last()) {
            seq![]
        } else {
            seq!["definition references unknown variable "@ + names.last()]
        }
    }
}

/// The complaints about the used names `names`: each must be a known
/// variable with a recorded definition.
pub open spec fn use_errors(m: MirSsaMetadata, names: Seq<Seq<char>>) -> Seq<Seq<char>>
    decreases names.len(),
{
    if names.len() == 0 {
        seq![]
    } else {
        use_errors(m, names.drop_last()) + (if known_variable(m, names.last()) {
            seq![]
        } else {
            seq!["use references unknown variable "@ + names.last()]
        }) + if definition_names(m).contains(names.last()) {
            seq![]
        } else {
            seq!["use of "@ + names.last() + " has no recorded definition"@]
        }
    }
}

/// Everything wrong with the metadata `m`: the defined names first, each
/// once in the order they first appear, then the used names.
pub open spec fn ssa_errors(m: MirSsaMetadata) -> Seq<Seq<char>> {
    definition_errors(m, first_occurrences(definition_names(m))) + use_errors(m, first_occurrences(use_names(m)))
        + frontier_errors(m, m.dominance_frontiers@)
}

/// Whether the dominator table of `m` has an entry for `b`.
pub open spec fn dominated(m: MirSsaMetadata, b: MirBlockId) -> bool {
    exists|i: int| 0 <= i < m.dominators@.len() && (#[trigger] m.dominators@[i]).0 == b
}

/// The complaints about the blocks `fr` of a dominance frontier: each must
/// have a dominator entry.
pub open spec fn frontier_block_errors(m: MirSsaMetadata, fr: Seq<MirBlockId>) -> Seq<Seq<char>>
    decreases fr.len(),
{
    if fr.len() == 0 {
        seq![]
    } else {
        frontier_block_errors(m, fr.drop_last()) + if dominated(m, fr.last()) {
            Seq::<Seq<char>>::empty()
        } else {
            seq!["dominance frontier references unknown block "@ + decimal(fr.last().0 as nat)]
        }
    }
}

/// The complaints about the dominance frontier entries `fs`: each block
/// with a frontier, and each block of it, must have a dominator entry.
pub open spec fn frontier_errors(m: MirSsaMetadata, fs: Seq<(MirBlockId, Vec<MirBlockId>)>) -> Seq<Seq<char>>
    decreases fs.len(),
{
    if fs.len() == 0 {
        seq![]
    } else {
        frontier_errors(m, fs.drop_last()) + (if dominated(m, fs.last().0) {
            Seq::<Seq<char>>::empty()
        } else {
            seq!["dominance frontier recorded for non-dominated block "@ + decimal(fs.last().0.0 as nat)]
        }) + frontier_block_errors(m, fs.last().1@)
    }
}


/// The storage names of `vs`, in order.
pub open spec fn storage_names(vs: Seq<MirSsaVariable>) -> Seq<Seq<char>> {
    vs.map_values(|v: MirSsaVariable| v.storage@)
}

/// `order` lists the positions of `ns` sorted by name, equal names in the
/// order of their positions.
pub open spec fn sorted_by_name(ns: Seq<Seq<char>>, order: Seq<int>) -> bool {
    &&& order.len() == ns.len()
    &&& order.no_duplicates()
    &&& forall|i: int| 0 <= i < order.len() ==> 0 <= #[trigger] order[i] < ns.len()
    &&& forall|i: int, j: int| 0 <= i < j < order.len() ==> name_precedes(ns, #[trigger] order[i], #[trigger] order[j])
}

/// The name at `a` is listed before the one at `b`.
pub open spec fn name_precedes(ns: Seq<Seq<char>>, a: int, b: int) -> bool {
    chars_lt(ns[a], ns[b]) || (ns[a] == ns[b] && a < b)
}

/// `order` lists the positions of `vs` sorted by storage name, equal names
/// in the order of their positions.
pub open spec fn sorted_order(vs: Seq<MirSsaVariable>, order: Seq<int>) -> bool {
    sorted_by_name(storage_names(vs), order)
}

/// The line of a program point.
pub open spec fn point_line(block: MirBlockId, index: usize) -> Seq<char> {
    "    Block"@ + decimal(block.0 as nat) + " @"@ + decimal(index as nat) + "\n"@
}

/// The lines of the definitions of `name` among `ds`.
pub open spec fn definition_lines(ds: Seq<MirVariableDefinition>, name: Seq<char>) -> Seq<char>
    decreases ds.len(),
{
    if ds.len() == 0 {
        seq![]
    } else {
        definition_lines(ds.drop_last(), name) + if ds.last().variable@ == name {
            point_line(ds.last().block, ds.last().instruction_index)
        } else {
            seq![]
        }
    }
}

/// The lines of the uses of `name` among `us`.
pub open spec fn use_lines(us: Seq<MirVariableUse>, name: Seq<char>) -> Seq<char>
    decreases us.len(),
{
    if us.len() == 0 {
        seq![]
    } else {
        use_lines(us.drop_last(), name) + if us.last().variable@ == name {
            point_line(us.last().block, us.last().instruction_index)
        } else {
            seq![]
        }
    }
}

/// The report on one variable: its definitions and its uses, each list
/// under a heading when there is any.
pub open spec fn variable_report(m: MirSsaMetadata, name: Seq<char>) -> Seq<char> {
    "Variable "@ + name + "\n"@ + (if definition_names(m).contains(name) {
        "  Definitions:\n"@ + definition_lines(m.definitions@, name)
    } else {
        seq![]
    }) + if use_names(m).contains(name) {
        "  Uses:\n"@ + use_lines(m.uses@, name)
    } else {
        seq![]
    }
}

/// The reports on the variables at the positions `order`, one after another.
pub open spec fn reports(m: MirSsaMetadata, order: Seq<int>) -> Seq<char>
    decreases order.len(),
{
    if order.len() == 0 {
        seq![]
    } else {
        reports(m, order.drop_last()) + variable_report(m, m.variables@[order.last()].storage@)
    }
}

/// Whether the dominator table `doms` has an entry for `b`.
fn has_dominator_entry(doms: &Vec<(MirBlockId, Vec<MirBlockId>)>, b: MirBlockId) -> (result: bool)
    ensures
        result == exists|i: int| 0 <= i < doms@.len() && (#[trigger] doms@[i]).0 == b,
{
    let mut i: usize = 0;
    while i < doms.len()
        invariant
            i <= doms@.len(),
            forall|k: int| 0 <= k < i ==> (#[trigger] doms@[k]).0 != b,
        decreases doms.len() - i,
    {
        if doms[i].0 == b {
            return true;
        }
        i = i + 1;
    }
    false
}

/// Finds the variable stored as `name`.
fn find_named(vs: &Vec<MirSsaVariable>, name: &str) -> (result: Option<usize>)
    ensures
        result is None <==> index_named(vs@, name@) is None,
        result matches Some(k) ==> index_named(vs@, name@) == Some(k as int) && k < vs@.len() && vs@[k as int].storage@ == name@,
{
    proof {
        lemma_index_named_bounds(vs@, name@);
    }
    let mut i: usize = 0;
    while i < vs.len()
        invariant
            i <= vs@.len(),
            index_named(vs@.subrange(0, i as int), name@) is None,
        decreases vs.len() - i,
    {
        proof {
            assert(vs@.subrange(0, i + 1).drop_last() =~= vs@.subrange(0, i as int));
        }
        if str_eq(vs[i].storage.as_str(), name) {
            proof {
                assert(index_named(vs@.subrange(0, i + 1), name@) == Some(i as int));
                lemma_index_named_prefix(vs@, i as int + 1, name@);
            }
            return Some(i);
        }
        i = i + 1;
    }
    assert(vs@.subrange(0, vs@.len() as int) =~= vs@);
    None
}

/// A position found holds a variable of that name.
proof fn lemma_index_named_bounds(vs: Seq<MirSsaVariable>, name: Seq<char>)
    ensures
        index_named(vs, name) matches Some(i) ==> 0 <= i < vs.len() && vs[i].storage@ == name,
    decreases vs.len(),
{
    if vs.len() > 0 {
        lemma_index_named_bounds(vs.drop_last(), name);
    }
}

/// A name that is not found is stored nowhere.
proof fn lemma_index_named_absent(vs: Seq<MirSsaVariable>, name: Seq<char>)
    ensures
        index_named(vs, name) is None ==> forall|k: int| 0 <= k < vs.len() ==> (#[trigger] vs[k]).storage@ != name,
    decreases vs.len(),
{
    if vs.len() > 0 {
        lemma_index_named_absent(vs.drop_last(), name);
        if index_named(vs, name) is None {
            assert forall|k: int| 0 <= k < vs.len() implies (#[trigger] vs[k]).storage@ != name by {
                if k < vs.len() - 1 {
                    assert(vs[k] == vs.drop_last()[k]);
                }
            }
        }
    }
}

/// Adding a variable by name keeps the storage names unique.
proof fn lemma_with_variable_unique(vs: Seq<MirSsaVariable>, v: MirSsaVariable)
    requires
        storages_unique(vs),
    ensures
        storages_unique(with_local(vs, v)),
        storages_unique(with_global(vs, v)),
{
    lemma_index_named_bounds(vs, v.storage@);
    lemma_index_named_absent(vs, v.storage@);
    match index_named(vs, v.storage@) {
        Some(i) => {
            let u = vs.update(i, v);
            assert forall|a: int, b: int| 0 <= a < b < u.len() implies (#[trigger] u[a]).storage@ != (#[trigger] u[b]).storage@ by {
                assert(vs[a].storage@ != vs[b].storage@);
            }
        },
        None => {
            let u = vs.push(v);
            assert forall|a: int, b: int| 0 <= a < b < u.len() implies (#[trigger] u[a]).storage@ != (#[trigger] u[b]).storage@ by {
                if b < vs.len() {
                    assert(vs[a].storage@ != vs[b].storage@);
                } else {
                    assert(vs[a].storage@ != v.storage@);
                }
            }
        },
    }
}

proof fn lemma_locals_variables_unique(f: MirFunction, ls: Seq<MirLocal>)
    ensures
        storages_unique(locals_variables(f, ls)),
    decreases ls.len(),
{
    if ls.len() > 0 {
        lemma_locals_variables_unique(f, ls.drop_last());
        lemma_with_variable_unique(locals_variables(f, ls.drop_last()), local_variable(f, ls.last()));
    }
}

proof fn lemma_globals_variables_unique(vs: Seq<MirSsaVariable>, values: Seq<MirValueData>)
    requires
        storages_unique(vs),
    ensures
        storages_unique(globals_variables(vs, values)),
    decreases values.len(),
{
    if values.len() > 0 {
        lemma_globals_variables_unique(vs, values.drop_last());
        let v = values.last();
        match v.kind {
            MirValueKind::Global { name, symbol_id } => {
                lemma_with_variable_unique(
                    globals_variables(vs, values.drop_last()),
                    MirSsaVariable { storage: name, value_id: v.id, symbol_id, value_type: v.value_type, category: MirVariableCategory::Global },
                );
            },
            _ => {},
        }
    }
}

/// Keeping some blocks of a strictly ascending run leaves it strictly
/// ascending.
proof fn lemma_filter_sorted(s: Seq<MirBlockId>, p: spec_fn(MirBlockId) -> bool)
    requires
        strictly_sorted(s),
    ensures
        strictly_sorted(s.filter(p)),
    decreases s.len(),
{
    reveal(Seq::filter);
    if s.len() > 0 {
        let r = s.drop_last();
        lemma_filter_sorted(r, p);
        let f = r.filter(p);
        assert forall|k: int| 0 <= k < f.len() implies (#[trigger] f[k]).0 < s.last().0 by {
            r.lemma_filter_contains_rev(p, f[k]);
            let j = choose|j: int| 0 <= j < r.len() && r[j] == f[k];
            assert(s[j] == r[j]);
        }
    }
}

/// The dominator table and the immediate dominators recorded for a graph
/// name each block once.
proof fn lemma_recorded_keys_unique(
    g: MirControlFlowGraph,
    doms: Seq<(MirBlockId, Vec<MirBlockId>)>,
    idoms: Seq<(MirBlockId, MirBlockId)>,
)
    requires
        dominance_recorded(g, doms, idoms),
    ensures
        forall|i: int, j: int| 0 <= i < j < doms.len() ==> (#[trigger] doms[i]).0 != (#[trigger] doms[j]).0,
        forall|i: int, j: int| 0 <= i < j < idoms.len() ==> (#[trigger] idoms[i]).0 != (#[trigger] idoms[j]).0,
{
    assert forall|i: int, j: int| 0 <= i < j < doms.len() implies (#[trigger] doms[i]).0 != (#[trigger] doms[j]).0 by {
        assert(dom_keys(doms)[i] == doms[i].0);
        assert(dom_keys(doms)[j] == doms[j].0);
    }
    let m = choose|m: Seq<(MirBlockId, Vec<MirBlockId>)>| #[trigger] g.is_dominator_table(m)
        && idoms.map_values(|e: (MirBlockId, MirBlockId)| e.0) == dom_keys(m).filter(|b: MirBlockId| g.has_idom(m, b))
        && forall|j: int| 0 <= j < idoms.len() ==> idom_candidate(m, pos(dom_keys(m), (#[trigger] idoms[j]).0), idoms[j].1);
    lemma_filter_sorted(dom_keys(m), |b: MirBlockId| g.has_idom(m, b));
    let ks = idoms.map_values(|e: (MirBlockId, MirBlockId)| e.0);
    assert forall|i: int, j: int| 0 <= i < j < idoms.len() implies (#[trigger] idoms[i]).0 != (#[trigger] idoms[j]).0 by {
        assert(ks[i] == idoms[i].0);
        assert(ks[j] == idoms[j].0);
    }
}

/// A name found in a prefix is found at the same place in the whole.
proof fn lemma_index_named_prefix(vs: Seq<MirSsaVariable>, k: int, name: Seq<char>)
    requires
        0 <= k <= vs.len(),
        index_named(vs.subrange(0, k), name) is Some,
    ensures
        index_named(vs, name) == index_named(vs.subrange(0, k), name),
    decreases vs.len() - k,
{
    if k < vs.len() {
        assert(vs.subrange(0, k + 1).drop_last() =~= vs.subrange(0, k));
        lemma_index_named_prefix(vs, k + 1, name);
    } else {
        assert(vs.subrange(0, k) =~= vs);
    }
}

/// Whether a parameter of `f` is stored as `name`.
fn parameter_storage(f: &MirFunction, name: &str) -> (result: bool)
    ensures
        result == is_parameter_storage(*f, name@),
{
    let mut i: usize = 0;
    while i < f.parameter_data.len()
        invariant
            i <= f.parameter_data@.len(),
            forall|j: int| 0 <= j < i ==> (#[trigger] f.parameter_data@[j]).storage@ != name@,
        decreases f.parameter_data.len() - i,
    {
        if str_eq(f.parameter_data[i].storage.as_str(), name) {
            assert(f.parameter_data@[i as int].storage@ == name@);
            return true;
        }
        i = i + 1;
    }
    false
}


/// Whether `name` is among `names`.
pub(crate) fn contains_name(names: &Vec<String>, name: &str) -> (result: bool)
    ensures
        result == names@.map_values(|s: String| s@).contains(name@),
{
    let ghost views = names@.map_values(|s: String| s@);
    let mut i: usize = 0;
    while i < names.len()
        invariant
            i <= names@.len(),
            views == names@.map_values(|s: String| s@),
            forall|j: int| 0 <= j < i ==> views[j] != name@,
        decreases names.len() - i,
    {
        if str_eq(names[i].as_str(), name) {
            assert(views[i as int] == name@);
            return true;
        }
        i = i + 1;
    }
    false
}

/// Appends a copy of `name` to `names` unless it is there.
fn note_name(names: &mut Vec<String>, name: &String)
    ensures
        final(names)@.map_values(|s: String| s@) == if old(names)@.map_values(|s: String| s@).contains(name@) {
            old(names)@.map_values(|s: String| s@)
        } else {
            old(names)@.map_values(|s: String| s@).push(name@)
        },
{
    if !contains_name(names, name.as_str()) {
        names.push(name.clone());
        assert(names@.map_values(|s: String| s@) =~= old(names)@.map_values(|s: String| s@).push(name@));
    }
}


/// A name occurs in a sequence exactly when it is among its first
/// occurrences.
proof fn lemma_first_occurrences_contains(names: Seq<Seq<char>>, x: Seq<char>)
    ensures
        first_occurrences(names).contains(x) == names.contains(x),
    decreases names.len(),
{
    if names.len() > 0 {
        let d = names.drop_last();
        let l = names.last();
        let prev = first_occurrences(d);
        lemma_first_occurrences_contains(d, x);
        lemma_first_occurrences_contains(d, l);
        assert(names.contains(x) <==> (d.contains(x) || x == l)) by {
            if names.contains(x) {
                let j = choose|j: int| 0 <= j < names.len() && names[j] == x;
                if j < names.len() - 1 {
                    assert(d[j] == x);
                }
            }
            if d.contains(x) {
                let j = choose|j: int| 0 <= j < d.len() && d[j] == x;
                assert(names[j] == x);
            }
            if x == l {
                assert(names[names.len() - 1] == x);
            }
        }
        if !prev.contains(l) {
            assert(prev.push(l).contains(x) <==> (prev.contains(x) || x == l)) by {
                if prev.push(l).contains(x) {
                    let j = choose|j: int| 0 <= j < prev.push(l).len() && prev.push(l)[j] == x;
                    if j < prev.len() {
                        assert(prev[j] == x);
                    }
                }
                if prev.contains(x) {
                    let j = choose|j: int| 0 <= j < prev.len() && prev[j] == x;
                    assert(prev.push(l)[j] == x);
                }
                if x == l {
                    assert(prev.push(l)[prev.len() as int] == x);
                }
            }
        }
    }
}


/// The positions of `names` sorted by name, equal names in position order.
pub(crate) fn sorted_name_positions(names: &Vec<String>) -> (result: Vec<usize>)
    ensures
        sorted_by_name(names@.map_values(|s: String| s@), result@.map_values(|p: usize| p as int)),
{
    let ghost ns = names@.map_values(|s: String| s@);
    let mut order: Vec<usize> = Vec::new();
    let mut i: usize = 0;
    while i < names.len()
        invariant
            i <= names@.len(),
            ns == names@.map_values(|s: String| s@),
            order@.len() == i,
            forall|x: int| 0 <= x < order@.len() ==> #[trigger] order@[x] < i,
            forall|a: int, b: int| 0 <= a < b < order@.len() ==> #[trigger] order@[a] != #[trigger] order@[b],
            forall|a: int, b: int| 0 <= a < b < order@.len() ==> name_precedes(ns, #[trigger] order@[a] as int, #[trigger] order@[b] as int),
        decreases names.len() - i,
    {
        let mut p: usize = 0;
        while p < order.len() && !string_lt(names[i].as_str(), names[order[p]].as_str())
            invariant
                p <= order@.len(),
                i < names@.len(),
                ns == names@.map_values(|s: String| s@),
                forall|x: int| 0 <= x < order@.len() ==> #[trigger] order@[x] < i,
                forall|a: int| 0 <= a < p ==> !chars_lt(ns[i as int], ns[#[trigger] order@[a] as int]),
            decreases order.len() - p,
        {
            p = p + 1;
        }
        let ghost before = order@;
        order.insert(p, i);
        proof {
            let r = order@;
            assert forall|x: int| 0 <= x < r.len() implies #[trigger] r[x] < i + 1 by {
                if x < p {
                    assert(r[x] == before[x]);
                } else if x > p {
                    assert(r[x] == before[x - 1]);
                }
            }
            assert forall|a: int, b: int| 0 <= a < b < r.len() implies #[trigger] r[a] != #[trigger] r[b] by {
                if b < p {
                    assert(r[a] == before[a] && r[b] == before[b]);
                } else if b == p {
                    assert(r[a] == before[a]);
                } else if a == p {
                    assert(r[b] == before[b - 1]);
                } else if a < p {
                    assert(r[a] == before[a] && r[b] == before[b - 1]);
                } else {
                    assert(r[a] == before[a - 1] && r[b] == before[b - 1]);
                }
            }
            assert forall|a: int, b: int| 0 <= a < b < r.len() implies name_precedes(ns, #[trigger] r[a] as int, #[trigger] r[b] as int) by {
                if b < p {
                    assert(r[a] == before[a] && r[b] == before[b]);
                } else if b == p {
                    assert(r[a] == before[a]);
                    let n = ns[i as int];
                    let o = ns[before[a] as int];
                    lemma_chars_lt_total(n, o);
                } else if a == p {
                    assert(r[b] == before[b - 1]);
                    assert(chars_lt(ns[i as int], ns[before[p as int] as int]));
                    if b - 1 > p {
                        assert(name_precedes(ns, before[p as int] as int, before[b - 1] as int));
                        let x = ns[before[p as int] as int];
                        let y = ns[before[b - 1] as int];
                        if chars_lt(x, y) {
                            lemma_chars_lt_transitive(ns[i as int], x, y);
                        }
                    }
                } else if a < p {
                    assert(r[a] == before[a] && r[b] == before[b - 1]);
                } else {
                    assert(r[a] == before[a - 1] && r[b] == before[b - 1]);
                }
            }
        }
        i = i + 1;
    }
    proof {
        let ov = order@.map_values(|q: usize| q as int);
        assert forall|x: int| 0 <= x < ov.len() implies 0 <= #[trigger] ov[x] < ns.len() by {
            assert(ov[x] == order@[x] as int);
        }
        assert forall|a: int, b: int| 0 <= a < b < ov.len() implies name_precedes(ns, #[trigger] ov[a], #[trigger] ov[b]) by {
            assert(ov[a] == order@[a] as int && ov[b] == order@[b] as int);
        }
        assert forall|a: int, b: int| 0 <= a < ov.len() && 0 <= b < ov.len() && a != b implies ov[a] != ov[b] by {
            assert(ov[a] == order@[a] as int && ov[b] == order@[b] as int);
            if a < b {
                assert(order@[a] != order@[b]);
            } else {
                assert(order@[b] != order@[a]);
            }
        }
    }
    order
}

/// Appends the lines of the definitions of `name`.
fn push_definition_lines(out: &mut String, ds: &Vec<MirVariableDefinition>, name: &str)
    ensures
        final(out)@ == old(out)@ + definition_lines(ds@, name@),
{
    let ghost start = out@;
    let mut i: usize = 0;
    while i < ds.len()
        invariant
            i <= ds@.len(),
            out@ == start + definition_lines(ds@.subrange(0, i as int), name@),
        decreases ds.len() - i,
    {
        proof {
            assert(ds@.subrange(0, i + 1).drop_last() =~= ds@.subrange(0, i as int));
        }
        if str_eq(ds[i].variable.as_str(), name) {
            push_str(out, "    Block");
            push_decimal(out, ds[i].block.0);
            push_str(out, " @");
            push_decimal(out, ds[i].instruction_index);
            push_str(out, "\n");
        }
        assert(out@ =~= start + definition_lines(ds@.subrange(0, i + 1), name@));
        i = i + 1;
    }
    assert(ds@.subrange(0, i as int) =~= ds@);
}

/// Appends the lines of the uses of `name`.
fn push_use_lines(out: &mut String, us: &Vec<MirVariableUse>, name: &str)
    ensures
        final(out)@ == old(out)@ + use_lines(us@, name@),
{
    let ghost start = out@;
    let mut i: usize = 0;
    while i < us.len()
        invariant
            i <= us@.len(),
            out@ == start + use_lines(us@.subrange(0, i as int), name@),
        decreases us.len() - i,
    {
        proof {
            assert(us@.subrange(0, i + 1).drop_last() =~= us@.subrange(0, i as int));
        }
        if str_eq(us[i].variable.as_str(), name) {
            push_str(out, "    Block");
            push_decimal(out, us[i].block.0);
            push_str(out, " @");
            push_decimal(out, us[i].instruction_index);
            push_str(out, "\n");
        }
        assert(out@ =~= start + use_lines(us@.subrange(0, i + 1), name@));
        i = i + 1;
    }
    assert(us@.subrange(0, i as int) =~= us@);
}

/// Whether some definition is of `name`.
fn defines(ds: &Vec<MirVariableDefinition>, name: &str) -> (result: bool)
    ensures
        result == ds@.map_values(|d: MirVariableDefinition| d.variable@).contains(name@),
{
    let ghost names = ds@.map_values(|d: MirVariableDefinition| d.variable@);
    let mut i: usize = 0;
    while i < ds.len()
        invariant
            i <= ds@.len(),
            names == ds@.map_values(|d: MirVariableDefinition| d.variable@),
            forall|j: int| 0 <= j < i ==> names[j] != name@,
        decreases ds.len() - i,
    {
        if str_eq(ds[i].variable.as_str(), name) {
            assert(names[i as int] == name@);
            return true;
        }
        i = i + 1;
    }
    false
}

/// Whether some use is of `name`.
fn uses_name(us: &Vec<MirVariableUse>, name: &str) -> (result: bool)
    ensures
        result == us@.map_values(|u: MirVariableUse| u.variable@).contains(name@),
{
    let ghost names = us@.map_values(|u: MirVariableUse| u.variable@);
    let mut i: usize = 0;
    while i < us.len()
        invariant
            i <= us@.len(),
            names == us@.map_values(|u: MirVariableUse| u.variable@),
            forall|j: int| 0 <= j < i ==> names[j] != name@,
        decreases us.len() - i,
    {
        if str_eq(us[i].variable.as_str(), name) {
            assert(names[i as int] == name@);
            return true;
        }
        i = i + 1;
    }
    false
}

/// Prepares functions for static single assignment form.
pub struct MirSsaPreparation;

impl MirSsaPreparation {
    /// The variables, definitions, uses, dominators and dominance frontiers
    /// of a function.
    pub fn analyze(function: &MirFunction) -> (result: MirSsaMetadata)
        ensures
            result.variables@ == ssa_variables(*function),
            result.definitions@ == blocks_definitions(ssa_variables(*function), function.blocks@),
            result.uses@ == blocks_uses(ssa_variables(*function), function.blocks@),
            result.keys_unique(),
            exists|g: Option<MirControlFlowGraph>| #[trigger] built_from(*function, g) && match g {
                Some(g) => dominance_recorded(g, result.dominators@, result.immediate_dominators@)
                    && frontier_entries(result.dominance_frontiers@) == frontiers_of(g, result.dominators@),
                None => result.dominators@.len() == 0 && result.immediate_dominators@.len() == 0
                    && result.dominance_frontiers@.len() == 0,
            },
    {
        let variables = Self::collect_variables(function);
        let (definitions, uses) = Self::collect_definitions_and_uses(function, &variables);
        let built = MirControlFlowGraph::build(function);
        let ghost gb = built;
        let (dominators, immediate_dominators, dominance_frontiers) = match built {
            Some(cfg) => {
                let dominators = cfg.dominators();
                let frontiers = dominance_frontiers(&cfg, &dominators);
                (dominators, cfg.immediate_dominators(), frontiers)
            },
            None => (Vec::new(), Vec::new(), Vec::new()),
        };
        proof {
            assert(built_from(*function, gb));
            lemma_locals_variables_unique(*function, function.locals@);
            lemma_globals_variables_unique(locals_variables(*function, function.locals@), function.values@);
            if let Some(g) = gb {
                lemma_recorded_keys_unique(g, dominators@, immediate_dominators@);
                let fs = dominance_frontiers@;
                let d = dominators@;
                assert(frontier_entries(fs) == frontiers_of(g, d));
                assert(frontier_entries(fs).len() == fs.len());
                assert(frontiers_of(g, d).len() == dom_keys(d).len());
                assert(dom_keys(d).len() == d.len());
                assert forall|i: int, j: int| 0 <= i < j < fs.len() implies (#[trigger] fs[i]).0 != (#[trigger] fs[j]).0 by {
                    assert(frontier_entries(fs)[i].0 == fs[i].0 && frontier_entries(fs)[j].0 == fs[j].0);
                    assert(frontiers_of(g, d)[i].0 == dom_keys(d)[i]);
                    assert(frontiers_of(g, d)[j].0 == dom_keys(d)[j]);
                    assert(dom_keys(d)[i] == d[i].0 && dom_keys(d)[j] == d[j].0);
                    assert(d[i].0 != d[j].0);
                }
            }
        }
        MirSsaMetadata { variables, definitions, uses, dominators, immediate_dominators, dominance_frontiers }
    }

    /// The variable a local of `function` stands for.
    fn variable_of_local(function: &MirFunction, local: &MirLocal) -> (result: MirSsaVariable)
        ensures
            result == local_variable(*function, *local),
    {
        let category = if str_eq(local.storage.as_str(), "local_return") {
            MirVariableCategory::ReturnSlot
        } else if parameter_storage(function, local.storage.as_str()) {
            MirVariableCategory::Parameter
        } else {
            MirVariableCategory::Local
        };
        proof {
            reveal_strlit("local_return");
        }
        MirSsaVariable {
            storage: local.storage.clone(),
            value_id: local.value_id,
            symbol_id: local.symbol_id,
            value_type: local.value_type,
            category,
        }
    }

    /// Each variable of a function once: its locals, a later local of a
    /// name replacing an earlier one, then the globals not yet recorded.
    fn collect_variables(function: &MirFunction) -> (result: Vec<MirSsaVariable>)
        ensures
            result@ == ssa_variables(*function),
    {
        let mut vs: Vec<MirSsaVariable> = Vec::new();
        let mut i: usize = 0;
        while i < function.locals.len()
            invariant
                i <= function.locals@.len(),
                vs@ == locals_variables(*function, function.locals@.subrange(0, i as int)),
            decreases function.locals.len() - i,
        {
            let v = Self::variable_of_local(function, &function.locals[i]);
            proof {
                assert(function.locals@.subrange(0, i + 1).drop_last() =~= function.locals@.subrange(0, i as int));
            }
            let ghost prev = vs@;
            let ghost vg = v;
            proof {
                assert(function.locals@.subrange(0, i + 1).last() == function.locals@[i as int]);
                assert(vg == local_variable(*function, function.locals@[i as int]));
            }
            match find_named(&vs, v.storage.as_str()) {
                Some(k) => {
                    assert(index_named(prev, vg.storage@) == Some(k as int));
                    vs.set(k, v);
                    assert(vs@ == prev.update(k as int, vg));
                },
                None => {
                    assert(index_named(prev, vg.storage@) is None);
                    vs.push(v);
                    assert(vs@ == prev.push(vg));
                },
            }
            proof {
                assert(vs@ =~= with_local(prev, vg));
            }
            i = i + 1;
        }
        assert(function.locals@.subrange(0, function.locals@.len() as int) =~= function.locals@);
        let ghost base = vs@;
        let mut j: usize = 0;
        while j < function.values.len()
            invariant
                j <= function.values@.len(),
                base == locals_variables(*function, function.locals@),
                vs@ == globals_variables(base, function.values@.subrange(0, j as int)),
            decreases function.values.len() - j,
        {
            proof {
                assert(function.values@.subrange(0, j + 1).drop_last() =~= function.values@.subrange(0, j as int));
            }
            let value = &function.values[j];
            match &value.kind {
                MirValueKind::Global { name, symbol_id } => {
                    if find_named(&vs, name.as_str()).is_none() {
                        vs.push(
                            MirSsaVariable {
                                storage: name.clone(),
                                value_id: value.id,
                                symbol_id: *symbol_id,
                                value_type: value.value_type,
                                category: MirVariableCategory::Global,
                            },
                        );
                    }
                },
                _ => {},
            }
            j = j + 1;
        }
        assert(function.values@.subrange(0, function.values@.len() as int) =~= function.values@);
        vs
    }

    /// Every definition and use of a known variable, in program order.
    fn collect_definitions_and_uses(function: &MirFunction, vs: &Vec<MirSsaVariable>) -> (result: (
        Vec<MirVariableDefinition>,
        Vec<MirVariableUse>,
    ))
        ensures
            result.0@ == blocks_definitions(vs@, function.blocks@),
            result.1@ == blocks_uses(vs@, function.blocks@),
    {
        let mut defs: Vec<MirVariableDefinition> = Vec::new();
        let mut uses: Vec<MirVariableUse> = Vec::new();
        let mut k: usize = 0;
        while k < function.blocks.len()
            invariant
                k <= function.blocks@.len(),
                defs@ == blocks_definitions(vs@, function.blocks@.subrange(0, k as int)),
                uses@ == blocks_uses(vs@, function.blocks@.subrange(0, k as int)),
            decreases function.blocks.len() - k,
        {
            let block = &function.blocks[k];
            let ghost d0 = defs@;
            let ghost u0 = uses@;
            let mut j: usize = 0;
            while j < block.instructions.len()
                invariant
                    j <= block.instructions@.len(),
                    *block == function.blocks@[k as int],
                    defs@ == d0 + block_definitions(vs@, *block, j as nat),
                    uses@ == u0 + block_uses(vs@, *block, j as nat),
                decreases block.instructions.len() - j,
            {
                let ghost dj = defs@;
                let ghost uj = uses@;
                proof {
                    assert(block_definitions(vs@, *block, (j + 1) as nat) == block_definitions(vs@, *block, j as nat)
                        + instruction_definition(vs@, block.id, j, block.instructions@[j as int].kind));
                    assert(block_uses(vs@, *block, (j + 1) as nat) == block_uses(vs@, *block, j as nat)
                        + instruction_use(vs@, block.id, j, block.instructions@[j as int].kind));
                }
                match &block.instructions[j].kind {
                    MirInstructionKind::AllocateLocal { local, name } => {
                        match find_named(vs, name.as_str()) {
                            Some(i) => {
                                defs.push(
                                    MirVariableDefinition {
                                        variable: name.clone(),
                                        value_id: vs[i].value_id,
                                        symbol_id: vs[i].symbol_id,
                                        value_type: vs[i].value_type,
                                        block: block.id,
                                        instruction_index: j,
                                        assigned_value: Some(*local),
                                        kind: MirDefinitionKind::Allocation,
                                    },
                                );
                            },
                            None => {},
                        }
                    },
                    MirInstructionKind::Store { name, value } => {
                        match find_named(vs, name.as_str()) {
                            Some(i) => {
                                defs.push(
                                    MirVariableDefinition {
                                        variable: name.clone(),
                                        value_id: vs[i].value_id,
                                        symbol_id: vs[i].symbol_id,
                                        value_type: vs[i].value_type,
                                        block: block.id,
                                        instruction_index: j,
                                        assigned_value: Some(*value),
                                        kind: MirDefinitionKind::Store,
                                    },
                                );
                            },
                            None => {},
                        }
                    },
                    MirInstructionKind::Load { result, name } => {
                        match find_named(vs, name.as_str()) {
                            Some(i) => {
                                uses.push(
                                    MirVariableUse {
                                        variable: name.clone(),
                                        value_id: vs[i].value_id,
                                        symbol_id: vs[i].symbol_id,
                                        block: block.id,
                                        instruction_index: j,
                                        loaded_value: *result,
                                    },
                                );
                            },
                            None => {},
                        }
                    },
                    _ => {},
                }
                assert(defs@ =~= dj + instruction_definition(vs@, block.id, j, block.instructions@[j as int].kind));
                assert(uses@ =~= uj + instruction_use(vs@, block.id, j, block.instructions@[j as int].kind));
                assert(defs@ =~= d0 + block_definitions(vs@, *block, (j + 1) as nat));
                assert(uses@ =~= u0 + block_uses(vs@, *block, (j + 1) as nat));
                j = j + 1;
            }
            proof {
                assert(function.blocks@.subrange(0, k + 1).drop_last() =~= function.blocks@.subrange(0, k as int));
                assert(defs@ =~= blocks_definitions(vs@, function.blocks@.subrange(0, k + 1)));
                assert(uses@ =~= blocks_uses(vs@, function.blocks@.subrange(0, k + 1)));
            }
            k = k + 1;
        }
        assert(function.blocks@.subrange(0, function.blocks@.len() as int) =~= function.blocks@);
        (defs, uses)
    }
}


impl MirSsaPreparation {
    /// Checks that every defined or used variable is known, that every used
    /// variable has a definition, and that every block of a dominance
    /// frontier entry has a dominator entry.
    pub fn validate(metadata: &MirSsaMetadata) -> (result: Result<(), Vec<String>>)
        ensures
            match result {
                Ok(()) => ssa_errors(*metadata).len() == 0,
                Err(errors) => ssa_errors(*metadata).len() > 0 && errors@.map_values(|s: String| s@) == ssa_errors(*metadata),
            },
    {
        let ghost m = *metadata;
        let mut defined: Vec<String> = Vec::new();
        let mut i: usize = 0;
        while i < metadata.definitions.len()
            invariant
                i <= metadata.definitions@.len(),
                m == *metadata,
                defined@.map_values(|s: String| s@) == first_occurrences(definition_names(m).subrange(0, i as int)),
            decreases metadata.definitions.len() - i,
        {
            proof {
                assert(definition_names(m).subrange(0, i + 1).drop_last() =~= definition_names(m).subrange(0, i as int));
            }
            note_name(&mut defined, &metadata.definitions[i].variable);
            i = i + 1;
        }
        assert(definition_names(m).subrange(0, i as int) =~= definition_names(m));
        let mut used: Vec<String> = Vec::new();
        let mut i: usize = 0;
        while i < metadata.uses.len()
            invariant
                i <= metadata.uses@.len(),
                m == *metadata,
                used@.map_values(|s: String| s@) == first_occurrences(use_names(m).subrange(0, i as int)),
            decreases metadata.uses.len() - i,
        {
            proof {
                assert(use_names(m).subrange(0, i + 1).drop_last() =~= use_names(m).subrange(0, i as int));
            }
            note_name(&mut used, &metadata.uses[i].variable);
            i = i + 1;
        }
        assert(use_names(m).subrange(0, i as int) =~= use_names(m));
        let ghost dn = defined@.map_values(|s: String| s@);
        let ghost un = used@.map_values(|s: String| s@);
        let mut errors: Vec<String> = Vec::new();
        let mut k: usize = 0;
        while k < defined.len()
            invariant
                k <= defined@.len(),
                m == *metadata,
                dn == defined@.map_values(|s: String| s@),
                errors@.map_values(|s: String| s@) == definition_errors(m, dn.subrange(0, k as int)),
            decreases defined.len() - k,
        {
            let ghost before = errors@.map_values(|s: String| s@);
            proof {
                assert(dn.subrange(0, k + 1).drop_last() =~= dn.subrange(0, k as int));
                assert(dn[k as int] == defined@[k as int]@);
            }
            if find_named(&metadata.variables, defined[k].as_str()).is_none() {
                let mut e = to_owned_string("definition references unknown variable ");
                push_str(&mut e, defined[k].as_str());
                errors.push(e);
            }
            assert(errors@.map_values(|s: String| s@) =~= definition_errors(m, dn.subrange(0, k + 1)));
            k = k + 1;
        }
        assert(dn.subrange(0, k as int) =~= dn);
        let ghost de = errors@.map_values(|s: String| s@);
        let mut k: usize = 0;
        while k < used.len()
            invariant
                k <= used@.len(),
                m == *metadata,
                un == used@.map_values(|s: String| s@),
                dn == first_occurrences(definition_names(m)),
                dn == defined@.map_values(|s: String| s@),
                errors@.map_values(|s: String| s@) == de + use_errors(m, un.subrange(0, k as int)),
            decreases used.len() - k,
        {
            proof {
                assert(un.subrange(0, k + 1).drop_last() =~= un.subrange(0, k as int));
                assert(un[k as int] == used@[k as int]@);
                lemma_first_occurrences_contains(definition_names(m), un[k as int]);
            }
            let ghost e0 = errors@.map_values(|s: String| s@);
            let ghost name = un[k as int];
            if find_named(&metadata.variables, used[k].as_str()).is_none() {
                let mut e = to_owned_string("use references unknown variable ");
                push_str(&mut e, used[k].as_str());
                errors.push(e);
            }
            let ghost a = if known_variable(m, name) {
                Seq::<Seq<char>>::empty()
            } else {
                seq!["use references unknown variable "@ + name]
            };
            assert(errors@.map_values(|s: String| s@) =~= e0 + a);
            let ghost e1 = errors@.map_values(|s: String| s@);
            let found = contains_name(&defined, used[k].as_str());
            assert(found == definition_names(m).contains(name));
            if !found {
                let mut e = to_owned_string("use of ");
                push_str(&mut e, used[k].as_str());
                push_str(&mut e, " has no recorded definition");
                errors.push(e);
            }
            let ghost b = if definition_names(m).contains(name) {
                Seq::<Seq<char>>::empty()
            } else {
                seq!["use of "@ + name + " has no recorded definition"@]
            };
            assert(errors@.map_values(|s: String| s@) =~= e1 + b);
            assert(use_errors(m, un.subrange(0, k + 1)) == use_errors(m, un.subrange(0, k as int)) + a + b);
            assert(errors@.map_values(|s: String| s@) =~= de + use_errors(m, un.subrange(0, k + 1)));
            k = k + 1;
        }
        assert(un.subrange(0, k as int) =~= un);
        let ghost du = errors@.map_values(|s: String| s@);
        let mut f: usize = 0;
        while f < metadata.dominance_frontiers.len()
            invariant
                f <= metadata.dominance_frontiers@.len(),
                m == *metadata,
                errors@.map_values(|s: String| s@) == du + frontier_errors(m, m.dominance_frontiers@.subrange(0, f as int)),
            decreases metadata.dominance_frontiers.len() - f,
        {
            proof {
                assert(m.dominance_frontiers@.subrange(0, f + 1).drop_last() =~= m.dominance_frontiers@.subrange(0, f as int));
            }
            let ghost e0 = errors@.map_values(|s: String| s@);
            let entry = &metadata.dominance_frontiers[f];
            if !has_dominator_entry(&metadata.dominators, entry.0) {
                let mut e = to_owned_string("dominance frontier recorded for non-dominated block ");
                push_decimal(&mut e, entry.0.0);
                errors.push(e);
            }
            let ghost a = if dominated(m, entry.0) {
                Seq::<Seq<char>>::empty()
            } else {
                seq!["dominance frontier recorded for non-dominated block "@ + decimal(entry.0.0 as nat)]
            };
            assert(errors@.map_values(|s: String| s@) =~= e0 + a);
            let ghost e1 = errors@.map_values(|s: String| s@);
            let mut g: usize = 0;
            while g < entry.1.len()
                invariant
                    g <= entry.1@.len(),
                    m == *metadata,
                    errors@.map_values(|s: String| s@) == e1 + frontier_block_errors(m, entry.1@.subrange(0, g as int)),
                decreases entry.1.len() - g,
            {
                proof {
                    assert(entry.1@.subrange(0, g + 1).drop_last() =~= entry.1@.subrange(0, g as int));
                }
                let ghost e2 = errors@.map_values(|s: String| s@);
                let b = entry.1[g];
                if !has_dominator_entry(&metadata.dominators, b) {
                    let mut e = to_owned_string("dominance frontier references unknown block ");
                    push_decimal(&mut e, b.0);
                    errors.push(e);
                }
                let ghost c = if dominated(m, b) {
                    Seq::<Seq<char>>::empty()
                } else {
                    seq!["dominance frontier references unknown block "@ + decimal(b.0 as nat)]
                };
                assert(errors@.map_values(|s: String| s@) =~= e2 + c);
                assert(entry.1@.subrange(0, g + 1).last() == b);
                assert(frontier_block_errors(m, entry.1@.subrange(0, g + 1)) == frontier_block_errors(m, entry.1@.subrange(0, g as int)) + c);
                assert(errors@.map_values(|s: String| s@) =~= e1 + frontier_block_errors(m, entry.1@.subrange(0, g + 1)));
                g = g + 1;
            }
            assert(entry.1@.subrange(0, g as int) =~= entry.1@);
            assert(errors@.map_values(|s: String| s@) =~= du + frontier_errors(m, m.dominance_frontiers@.subrange(0, f + 1)));
            f = f + 1;
        }
        assert(m.dominance_frontiers@.subrange(0, f as int) =~= m.dominance_frontiers@);
        if errors.len() == 0 {
            Ok(())
        } else {
            Err(errors)
        }
    }
}


impl MirSsaPreparation {
    /// The definitions and uses of each variable, the variables sorted by
    /// name.
    pub fn dump(metadata: &MirSsaMetadata) -> (result: String)
        ensures
            exists|order: Seq<int>| sorted_order(metadata.variables@, order) && result@ == reports(*metadata, order),
    {
        let mut names: Vec<String> = Vec::new();
        let mut i: usize = 0;
        while i < metadata.variables.len()
            invariant
                i <= metadata.variables@.len(),
                names@.map_values(|s: String| s@) == storage_names(metadata.variables@).subrange(0, i as int),
            decreases metadata.variables.len() - i,
        {
            let ghost before = names@.map_values(|s: String| s@);
            let name = metadata.variables[i].storage.clone();
            assert(name@ == storage_names(metadata.variables@)[i as int]);
            names.push(name);
            assert(names@.map_values(|s: String| s@) =~= before.push(name@));
            assert(names@.map_values(|s: String| s@) =~= storage_names(metadata.variables@).subrange(0, i + 1));
            i = i + 1;
        }
        assert(storage_names(metadata.variables@).subrange(0, i as int) =~= storage_names(metadata.variables@));
        let order = sorted_name_positions(&names);
        let ghost ov = order@.map_values(|p: usize| p as int);
        let mut out = String::new();
        let mut k: usize = 0;
        while k < order.len()
            invariant
                k <= order@.len(),
                ov == order@.map_values(|p: usize| p as int),
                sorted_order(metadata.variables@, ov),
                out@ == reports(*metadata, ov.subrange(0, k as int)),
            decreases order.len() - k,
        {
            proof {
                assert(ov.subrange(0, k + 1).drop_last() =~= ov.subrange(0, k as int));
                assert(ov[k as int] == order@[k as int] as int);
            }
            let name = metadata.variables[order[k]].storage.as_str();
            push_str(&mut out, "Variable ");
            push_str(&mut out, name);
            push_str(&mut out, "\n");
            if defines(&metadata.definitions, name) {
                push_str(&mut out, "  Definitions:\n");
                push_definition_lines(&mut out, &metadata.definitions, name);
            }
            if uses_name(&metadata.uses, name) {
                push_str(&mut out, "  Uses:\n");
                push_use_lines(&mut out, &metadata.uses, name);
            }
            assert(out@ =~= reports(*metadata, ov.subrange(0, k + 1)));
            k = k + 1;
        }
        assert(ov.subrange(0, k as int) =~= ov);
        out
    }
}

} // verus!
