//! The control-flow graph of one function: its blocks as nodes, the jumps
//! and branches between them as edges, and the analyses run over it
//! (reachability, traversal orders, dominators, natural loops).
use vstd::prelude::*;

use crate::mir::block::MirBasicBlock;
use crate::mir::function::MirFunction;
use crate::mir::instruction::{terminator_successors, MirTerminator};
use crate::mir::types::MirBlockId;
use crate::text::{decimal, push_decimal, push_str};

verus! {

/// One block of the graph with its neighbours.
#[derive(Debug, Clone, PartialEq, Eq)]
pub struct MirCfgNode {
    pub block_id: MirBlockId,
    pub predecessors: Vec<MirBlockId>,
    pub successors: Vec<MirBlockId>,
    pub reachable: bool,
}

/// A directed edge between two blocks.
#[derive(Debug, Clone, Copy, PartialEq, Eq, Structural)]
pub struct MirCfgEdge {
    pub source: MirBlockId,
    pub target: MirBlockId,
    pub kind: MirCfgEdgeKind,
}

/// Why control passes along an edge.
#[derive(Debug, Clone, Copy, PartialEq, Eq, Structural)]
pub enum MirCfgEdgeKind {
    Unconditional,
    TrueBranch,
    FalseBranch,
}

/// A natural loop: the blocks that can reach the latch of a back edge
/// without passing through the loop header.
#[derive(Debug, Clone, PartialEq, Eq)]
pub struct MirLoop {
    pub header: MirBlockId,
    pub back_edge: MirCfgEdge,
    pub body_blocks: Vec<MirBlockId>,
    pub exit_edges: Vec<MirCfgEdge>,
}

/// An inconsistency found by `MirControlFlowGraph::validate`.
#[derive(Debug, Clone, Copy, PartialEq, Eq, Structural)]
pub enum MirCfgValidationError {
    MissingEntry,
    InvalidEdge { source: MirBlockId, target: MirBlockId },
    MissingSuccessor { source: MirBlockId, target: MirBlockId },
    MissingPredecessor { source: MirBlockId, target: MirBlockId },
    EntryHasPredecessor { entry: MirBlockId, predecessor: MirBlockId },
}

/// The control-flow graph. Each block has at most one node; the nodes are
/// kept in the order in which the blocks were given.
#[derive(Debug, Clone, PartialEq, Eq)]
pub struct MirControlFlowGraph {
    pub entry: MirBlockId,
    pub exits: Vec<MirBlockId>,
    pub nodes: Vec<MirCfgNode>,
    pub edges: Vec<MirCfgEdge>,
    pub loops: Vec<MirLoop>,
}

/// The text that names an edge kind in graph dumps.
pub open spec fn edge_kind_label(kind: MirCfgEdgeKind) -> Seq<char> {
    match kind {
        MirCfgEdgeKind::Unconditional => "jump"@,
        MirCfgEdgeKind::TrueBranch => "true"@,
        MirCfgEdgeKind::FalseBranch => "false"@,
    }
}

impl MirCfgEdgeKind {
    pub fn label(self) -> (result: &'static str)
        ensures
            result@ == edge_kind_label(self),
    {
        match self {
            MirCfgEdgeKind::Unconditional => "jump",
            MirCfgEdgeKind::TrueBranch => "true",
            MirCfgEdgeKind::FalseBranch => "false",
        }
    }
}

/// The edges leaving a block that ends with `terminator`: one unconditional
/// edge for a jump, a true edge then a false edge for a branch, none
/// otherwise.
pub open spec fn terminator_edges(source: MirBlockId, terminator: Option<MirTerminator>) -> Seq<MirCfgEdge> {
    match terminator {
        Some(MirTerminator::Jump { target }) => seq![
            MirCfgEdge { source, target, kind: MirCfgEdgeKind::Unconditional },
        ],
        Some(MirTerminator::Branch { true_block, false_block, .. }) => seq![
            MirCfgEdge { source, target: true_block, kind: MirCfgEdgeKind::TrueBranch },
            MirCfgEdge { source, target: false_block, kind: MirCfgEdgeKind::FalseBranch },
        ],
        _ => seq![],
    }
}

/// Whether `id` occurs in `ids`.
pub fn contains_block(ids: &Vec<MirBlockId>, id: MirBlockId) -> (result: bool)
    ensures
        result == ids@.contains(id),
{
    let mut i: usize = 0;
    while i < ids.len()
        invariant
            i <= ids.len(),
            forall|k: int| 0 <= k < i ==> ids@[k] != id,
        decreases ids.len() - i,
    {
        if ids[i] == id {
            return true;
        }
        i = i + 1;
    }
    false
}

impl MirControlFlowGraph {
    /// The block ids of the nodes, in node order.
    pub open spec fn node_ids(self) -> Seq<MirBlockId> {
        self.nodes@.map_values(|n: MirCfgNode| n.block_id)
    }

    /// No block has two nodes.
    pub open spec fn wf(self) -> bool {
        self.node_ids().no_duplicates()
    }

    pub open spec fn has_node(self, id: MirBlockId) -> bool {
        exists|i: int| 0 <= i < self.nodes@.len() && #[trigger] self.nodes@[i].block_id == id
    }

    /// The position of the node of `id` (meaningful when `has_node(id)`).
    pub open spec fn node_index(self, id: MirBlockId) -> int {
        choose|i: int| 0 <= i < self.nodes@.len() && #[trigger] self.nodes@[i].block_id == id
    }

    /// The successors recorded for `id`; none when it has no node.
    pub open spec fn succs(self, id: MirBlockId) -> Seq<MirBlockId> {
        if self.has_node(id) {
            self.nodes@[self.node_index(id)].successors@
        } else {
            seq![]
        }
    }

    /// The predecessors recorded for `id`; none when it has no node.
    pub open spec fn preds(self, id: MirBlockId) -> Seq<MirBlockId> {
        if self.has_node(id) {
            self.nodes@[self.node_index(id)].predecessors@
        } else {
            seq![]
        }
    }

    /// Whether `id` has a node marked reachable.
    pub open spec fn marked_reachable(self, id: MirBlockId) -> bool {
        self.has_node(id) && self.nodes@[self.node_index(id)].reachable
    }

    pub proof fn lemma_node_index(self, i: int)
        requires
            self.wf(),
            0 <= i < self.nodes@.len(),
        ensures
            self.has_node(self.nodes@[i].block_id),
            self.node_index(self.nodes@[i].block_id) == i,
    {
        let id = self.nodes@[i].block_id;
        assert(self.nodes@[i].block_id == id);
        let j = self.node_index(id);
        assert(self.node_ids()[i] == id && self.node_ids()[j] == id);
    }

    /// Finds the node of `id`.
    pub fn find_node(&self, id: MirBlockId) -> (result: Option<usize>)
        requires
            self.wf(),
        ensures
            match result {
                Some(i) => i < self.nodes@.len() && self.nodes@[i as int].block_id == id
                    && self.node_index(id) == i,
                None => !self.has_node(id),
            },
    {
        let mut i: usize = 0;
        while i < self.nodes.len()
            invariant
                self.wf(),
                i <= self.nodes@.len(),
                forall|k: int| 0 <= k < i ==> self.nodes@[k].block_id != id,
            decreases self.nodes.len() - i,
        {
            if self.nodes[i].block_id == id {
                proof {
                    self.lemma_node_index(i as int);
                }
                return Some(i);
            }
            i = i + 1;
        }
        None
    }

    /// The errors of one edge, in the order `validate` reports them.
    pub open spec fn edge_errors(self, edge: MirCfgEdge) -> Seq<MirCfgValidationError> {
        if !self.has_node(edge.source) || !self.has_node(edge.target) {
            seq![MirCfgValidationError::InvalidEdge { source: edge.source, target: edge.target }]
        } else {
            (if self.succs(edge.source).contains(edge.target) {
                seq![]
            } else {
                seq![MirCfgValidationError::MissingSuccessor { source: edge.source, target: edge.target }]
            }) + (if self.preds(edge.target).contains(edge.source) {
                seq![]
            } else {
                seq![MirCfgValidationError::MissingPredecessor { source: edge.source, target: edge.target }]
            })
        }
    }

    /// The errors of the first `k` edges.
    pub open spec fn edges_errors(self, k: nat) -> Seq<MirCfgValidationError>
        decreases k,
    {
        if k == 0 || k > self.edges@.len() {
            seq![]
        } else {
            self.edges_errors((k - 1) as nat) + self.edge_errors(self.edges@[k - 1])
        }
    }

    /// Everything `validate` reports: a missing entry node, then each edge's
    /// problems in edge order, then each predecessor of the entry block.
    pub open spec fn validation_errors(self) -> Seq<MirCfgValidationError> {
        (if self.has_node(self.entry) {
            seq![]
        } else {
            seq![MirCfgValidationError::MissingEntry]
        }) + self.edges_errors(self.edges@.len()) + self.preds(self.entry).map_values(
            |p: MirBlockId| MirCfgValidationError::EntryHasPredecessor { entry: self.entry, predecessor: p },
        )
    }

    pub fn validate(&self) -> (result: Result<(), Vec<MirCfgValidationError>>)
        requires
            self.wf(),
        ensures
            match result {
                Ok(()) => self.validation_errors().len() == 0,
                Err(errors) => errors@ == self.validation_errors() && errors@.len() > 0,
            },
    {
        let mut errors: Vec<MirCfgValidationError> = Vec::new();
        let entry_node = self.find_node(self.entry);
        if entry_node.is_none() {
            errors.push(MirCfgValidationError::MissingEntry);
        }
        let ghost head = errors@;
        let mut k: usize = 0;
        while k < self.edges.len()
            invariant
                self.wf(),
                k <= self.edges@.len(),
                errors@ == head + self.edges_errors(k as nat),
            decreases self.edges.len() - k,
        {
            let edge = self.edges[k];
            let source = self.find_node(edge.source);
            let target = self.find_node(edge.target);
            let ghost before = errors@;
            match (source, target) {
                (Some(s), Some(t)) => {
                    if !contains_block(&self.nodes[s].successors, edge.target) {
                        errors.push(MirCfgValidationError::MissingSuccessor { source: edge.source, target: edge.target });
                    }
                    if !contains_block(&self.nodes[t].predecessors, edge.source) {
                        errors.push(MirCfgValidationError::MissingPredecessor { source: edge.source, target: edge.target });
                    }
                },
                _ => {
                    errors.push(MirCfgValidationError::InvalidEdge { source: edge.source, target: edge.target });
                },
            }
            assert(errors@ =~= before + self.edge_errors(edge));
            k = k + 1;
            assert(self.edges_errors(k as nat) == self.edges_errors((k - 1) as nat) + self.edge_errors(self.edges@[k - 1]));
            assert(errors@ =~= head + self.edges_errors(k as nat));
        }
        let ghost middle = errors@;
        if let Some(e) = entry_node {
            let preds = &self.nodes[e].predecessors;
            let mut j: usize = 0;
            while j < preds.len()
                invariant
                    j <= preds@.len(),
                    preds@ == self.preds(self.entry),
                    errors@ == middle + self.preds(self.entry).subrange(0, j as int).map_values(
                        |p: MirBlockId| MirCfgValidationError::EntryHasPredecessor { entry: self.entry, predecessor: p },
                    ),
                decreases preds.len() - j,
            {
                errors.push(MirCfgValidationError::EntryHasPredecessor { entry: self.entry, predecessor: preds[j] });
                j = j + 1;
                assert(self.preds(self.entry).subrange(0, j as int) =~= self.preds(self.entry).subrange(0, (j - 1) as int).push(preds@[j - 1]));
                assert(errors@ =~= middle + self.preds(self.entry).subrange(0, j as int).map_values(
                    |p: MirBlockId| MirCfgValidationError::EntryHasPredecessor { entry: self.entry, predecessor: p },
                ));
            }
            assert(self.preds(self.entry).subrange(0, j as int) =~= self.preds(self.entry));
        }
        assert(errors@ =~= self.validation_errors());
        if errors.len() == 0 {
            Ok(())
        } else {
            Err(errors)
        }
    }
}


/// Every successor list of `nodes`, one after another.
pub open spec fn all_successors(nodes: Seq<MirCfgNode>) -> Seq<MirBlockId>
    decreases nodes.len(),
{
    if nodes.len() == 0 {
        seq![]
    } else {
        all_successors(nodes.drop_last()) + nodes.last().successors@
    }
}

proof fn lemma_all_successors(nodes: Seq<MirCfgNode>, i: int, s: MirBlockId)
    requires
        0 <= i < nodes.len(),
        nodes[i].successors@.contains(s),
    ensures
        all_successors(nodes).contains(s),
    decreases nodes.len(),
{
    let rest = all_successors(nodes.drop_last());
    let last = nodes.last().successors@;
    if i == nodes.len() - 1 {
        let k = choose|k: int| 0 <= k < last.len() && last[k] == s;
        assert((rest + last)[rest.len() + k] == s);
    } else {
        lemma_all_successors(nodes.drop_last(), i, s);
        let k = choose|k: int| 0 <= k < rest.len() && rest[k] == s;
        assert((rest + last)[k] == s);
    }
}

/// A sequence without repeats whose items all occur in `b` is no longer
/// than `b`.
pub proof fn lemma_distinct_len_bound(a: Seq<MirBlockId>, b: Seq<MirBlockId>)
    requires
        a.no_duplicates(),
        forall|x: MirBlockId| a.contains(x) ==> b.contains(x),
    ensures
        a.len() <= b.len(),
{
    a.unique_seq_to_set();
    b.lemma_cardinality_of_set();
    assert(a.to_set().subset_of(b.to_set()));
    vstd::set_lib::lemma_len_subset(a.to_set(), b.to_set());
}


/// `q` with the blocks of `succs` appended in order, each only when it is
/// not queued yet.
pub open spec fn enqueue_new(q: Seq<MirBlockId>, succs: Seq<MirBlockId>) -> Seq<MirBlockId>
    decreases succs.len(),
{
    if succs.len() == 0 {
        q
    } else {
        let q1 = enqueue_new(q, succs.drop_last());
        if q1.contains(succs.last()) {
            q1
        } else {
            q1.push(succs.last())
        }
    }
}

impl MirControlFlowGraph {
    /// Breadth-first discovery with the queue `q` whose first `head` blocks
    /// are done: the block at `head` enqueues its successors in recorded
    /// order, each block once, until every queued block is done. (A queue
    /// longer than the candidate blocks cannot arise; it is returned as it
    /// is.)
    pub open spec fn bfs_from(self, q: Seq<MirBlockId>, head: nat) -> Seq<MirBlockId>
        decreases self.candidates().len() + 1 - head,
    {
        if head >= q.len() || q.len() > self.candidates().len() {
            q
        } else {
            self.bfs_from(enqueue_new(q, self.succs(q[head as int])), head + 1)
        }
    }
}


impl MirControlFlowGraph {
    /// The number of recorded successors, all lists together.
    pub open spec fn successor_total(self) -> nat {
        all_successors(self.nodes@).len()
    }

    /// A bound on the nesting of a depth-first visit that starts with
    /// `marked` blocks already marked.
    pub open spec fn visit_fuel(self, marked: int) -> nat {
        ((self.candidates().len() - marked) * (self.successor_total() + 2) + 1) as nat
    }

    /// The depth-first visit of `b` with the blocks `vis` marked: the marked
    /// blocks afterwards, the blocks in the order they were marked
    /// (preorder) and in the order they were finished (postorder). A block
    /// is marked, then its successors are visited in recorded order,
    /// skipping marked blocks. `fuel` bounds the nesting; `visit_fuel`
    /// always suffices.
    pub open spec fn visit_spec(self, b: MirBlockId, vis: Seq<MirBlockId>, fuel: nat) -> (
        Seq<MirBlockId>,
        Seq<MirBlockId>,
        Seq<MirBlockId>,
    )
        decreases fuel, 1nat,
    {
        if vis.contains(b) || fuel == 0 {
            (vis, seq![], seq![])
        } else {
            let r = self.visit_list_spec(self.succs(b), 0, vis.push(b), (fuel - 1) as nat);
            (r.0, seq![b] + r.1, r.2.push(b))
        }
    }

    /// The depth-first visits of the blocks of `s` from position `i` on,
    /// one after another.
    pub open spec fn visit_list_spec(self, s: Seq<MirBlockId>, i: nat, vis: Seq<MirBlockId>, fuel: nat) -> (
        Seq<MirBlockId>,
        Seq<MirBlockId>,
        Seq<MirBlockId>,
    )
        decreases fuel, 0nat,
    {
        if i >= s.len() || fuel == 0 {
            (vis, seq![], seq![])
        } else {
            let a = self.visit_spec(s[i as int], vis, (fuel - 1) as nat);
            let b = self.visit_list_spec(s, i + 1, a.0, (fuel - 1) as nat);
            (b.0, a.1 + b.1, a.2 + b.2)
        }
    }

    /// The depth-first preorder from the entry.
    pub open spec fn dfs_order(self) -> Seq<MirBlockId> {
        self.visit_spec(self.entry, seq![], self.visit_fuel(0)).1
    }

    /// The depth-first postorder from the entry.
    pub open spec fn post_order_seq(self) -> Seq<MirBlockId> {
        self.visit_spec(self.entry, seq![], self.visit_fuel(0)).2
    }
}

impl MirControlFlowGraph {
    /// `v` is reached from `u` by following exactly `n` recorded successor
    /// edges.
    pub open spec fn leads_in(self, u: MirBlockId, v: MirBlockId, n: nat) -> bool
        decreases n,
    {
        if n == 0 {
            u == v
        } else {
            exists|w: MirBlockId| #[trigger] self.succs(u).contains(w) && self.leads_in(w, v, (n - 1) as nat)
        }
    }

    /// No block reachable from the entry lies on a cycle of successor edges.
    pub open spec fn acyclic(self) -> bool {
        forall|u: MirBlockId, n: nat| self.reaches(u) && n >= 1 ==> !#[trigger] self.leads_in(u, u, n)
    }

    /// Each block of `order` from `start` on comes after all its successors.
    pub open spec fn successors_first(self, order: Seq<MirBlockId>, start: int) -> bool {
        forall|k: int, y: MirBlockId|
            start <= k < order.len() && #[trigger] self.succs(order[k]).contains(y) ==> order.subrange(0, k).contains(y)
    }

    /// A path to `b` followed by an edge from `b` to `s` is a path to `s`.
    pub proof fn lemma_leads_extend(self, u: MirBlockId, b: MirBlockId, s: MirBlockId, n: nat)
        requires
            self.leads_in(u, b, n),
            self.succs(b).contains(s),
        ensures
            self.leads_in(u, s, n + 1),
        decreases n,
    {
        if n == 0 {
            assert(self.leads_in(s, s, 0));
            assert(self.succs(u).contains(s) && self.leads_in(s, s, 0));
        } else {
            let w = choose|w: MirBlockId| #[trigger] self.succs(u).contains(w) && self.leads_in(w, b, (n - 1) as nat);
            self.lemma_leads_extend(w, b, s, (n - 1) as nat);
            assert(self.succs(u).contains(w) && self.leads_in(w, s, n));
        }
    }
}

impl MirControlFlowGraph {
    /// `x` is reached from the entry by `l` successor edges and by no fewer:
    /// its distance from the entry is `l`.
    pub open spec fn at_distance(self, x: MirBlockId, l: nat) -> bool {
        &&& self.leads_in(self.entry, x, l)
        &&& forall|m: nat| m < l ==> !#[trigger] self.leads_in(self.entry, x, m)
    }

    /// `x` is reached from the entry by at most `n` successor edges.
    pub open spec fn within(self, x: MirBlockId, n: nat) -> bool {
        exists|m: nat| m <= n && #[trigger] self.leads_in(self.entry, x, m)
    }

    /// The breadth-first queue `q` with its first `h` blocks done carries
    /// the distances `lv`: ascending, the last at most one more than the
    /// head's, and the successors of the done blocks all queued.
    pub open spec fn levels_ok(self, q: Seq<MirBlockId>, lv: Seq<nat>, h: int) -> bool {
        &&& lv.len() == q.len()
        &&& q.len() >= 1
        &&& q[0] == self.entry
        &&& lv[0] == 0
        &&& 0 <= h <= q.len()
        &&& forall|k: int| 0 <= k < q.len() ==> self.at_distance(q[k], #[trigger] lv[k])
        &&& forall|i: int, j: int| 0 <= i <= j < q.len() ==> #[trigger] lv[i] <= #[trigger] lv[j]
        &&& h < q.len() ==> lv[q.len() - 1] <= lv[h] + 1
        &&& forall|i: int, y: MirBlockId| 0 <= i < h && #[trigger] self.succs(q[i]).contains(y) ==> q.contains(y)
    }

    /// A path of `n + 1` edges ends with an edge from a block reached by `n`.
    pub proof fn lemma_leads_last(self, u: MirBlockId, v: MirBlockId, n: nat)
        requires
            self.leads_in(u, v, n + 1),
        ensures
            exists|p: MirBlockId| self.leads_in(u, p, n) && #[trigger] self.succs(p).contains(v),
        decreases n,
    {
        let w = choose|w: MirBlockId| #[trigger] self.succs(u).contains(w) && self.leads_in(w, v, n);
        if n == 0 {
            assert(self.leads_in(u, u, 0));
            assert(self.succs(u).contains(v));
        } else {
            self.lemma_leads_last(w, v, (n - 1) as nat);
            let p = choose|p: MirBlockId| self.leads_in(w, p, (n - 1) as nat) && #[trigger] self.succs(p).contains(v);
            assert(self.succs(u).contains(w) && self.leads_in(w, p, (n - 1) as nat));
            assert(self.leads_in(u, p, n));
        }
    }

    /// Every block closer to the entry than the head of the queue is done.
    pub proof fn lemma_closer_done(self, q: Seq<MirBlockId>, lv: Seq<nat>, h: int, x: MirBlockId, d: nat)
        requires
            self.levels_ok(q, lv, h),
            h < q.len(),
            self.leads_in(self.entry, x, d),
            d < lv[h],
        ensures
            exists|k: int| 0 <= k < h && q[k] == x,
        decreases d,
    {
        if d == 0 {
            assert(x == self.entry);
            assert(lv[0] <= lv[h]);
            assert(q[0] == x);
        } else {
            self.lemma_leads_last(self.entry, x, (d - 1) as nat);
            let p = choose|p: MirBlockId| self.leads_in(self.entry, p, (d - 1) as nat) && #[trigger] self.succs(p).contains(x);
            self.lemma_closer_done(q, lv, h, p, (d - 1) as nat);
            let k = choose|k: int| 0 <= k < h && q[k] == p;
            assert(self.succs(q[k]).contains(x));
            assert(q.contains(x));
            let ix = choose|ix: int| 0 <= ix < q.len() && q[ix] == x;
            assert(self.at_distance(q[ix], lv[ix]));
            if ix >= h {
                assert(lv[h] <= lv[ix]);
                assert(!self.leads_in(self.entry, x, d));
            }
        }
    }

    /// A block first queued from the head is one edge further than the head.
    pub proof fn lemma_new_level(self, q: Seq<MirBlockId>, lv: Seq<nat>, h: int, s: MirBlockId)
        requires
            self.levels_ok(q, lv, h),
            h < q.len(),
            self.succs(q[h]).contains(s),
            !q.contains(s),
        ensures
            self.at_distance(s, lv[h] + 1),
            self.levels_ok(q.push(s), lv.push(lv[h] + 1), h),
    {
        assert(self.at_distance(q[h], lv[h]));
        self.lemma_leads_extend(self.entry, q[h], s, lv[h]);
        assert forall|m: nat| m < lv[h] + 1 implies !#[trigger] self.leads_in(self.entry, s, m) by {
            if self.leads_in(self.entry, s, m) {
                if m == 0 {
                    assert(q[0] == s);
                } else {
                    self.lemma_leads_last(self.entry, s, (m - 1) as nat);
                    let p = choose|p: MirBlockId| self.leads_in(self.entry, p, (m - 1) as nat) && #[trigger] self.succs(p).contains(s);
                    self.lemma_closer_done(q, lv, h, p, (m - 1) as nat);
                    let k = choose|k: int| 0 <= k < h && q[k] == p;
                    assert(self.succs(q[k]).contains(s));
                }
            }
        }
        let q2 = q.push(s);
        let l2 = lv.push((lv[h] + 1) as nat);
        assert forall|k: int| 0 <= k < q2.len() implies self.at_distance(q2[k], #[trigger] l2[k]) by {
            if k < q.len() {
                assert(q2[k] == q[k] && l2[k] == lv[k]);
            }
        }
        assert forall|i: int, j: int| 0 <= i <= j < q2.len() implies #[trigger] l2[i] <= #[trigger] l2[j] by {
            if j < q.len() {
                assert(l2[i] == lv[i] && l2[j] == lv[j]);
            } else if i < q.len() {
                assert(lv[i] <= lv[q.len() - 1]);
            }
        }
        assert forall|i: int, y: MirBlockId| 0 <= i < h && #[trigger] self.succs(q2[i]).contains(y) implies q2.contains(y) by {
            assert(q2[i] == q[i]);
            assert(q.contains(y));
            let m = choose|m: int| 0 <= m < q.len() && q[m] == y;
            assert(q2[m] == y);
        }
    }

    /// Once the head's successors are all queued, the head is done.
    pub proof fn lemma_levels_advance(self, q: Seq<MirBlockId>, lv: Seq<nat>, h: int)
        requires
            self.levels_ok(q, lv, h),
            h < q.len(),
            forall|y: MirBlockId| #[trigger] self.succs(q[h]).contains(y) ==> q.contains(y),
        ensures
            self.levels_ok(q, lv, h + 1),
    {
        if h + 1 < q.len() {
            assert(lv[h] <= lv[h + 1]);
        }
    }

    /// Blocks later in a queue with distances are no nearer to the entry.
    pub proof fn lemma_levels_order(self, q: Seq<MirBlockId>, lv: Seq<nat>, h: int, i: int, j: int, n: nat)
        requires
            self.levels_ok(q, lv, h),
            0 <= i < j < q.len(),
            self.within(q[j], n),
        ensures
            self.within(q[i], n),
    {
        let m = choose|m: nat| m <= n && #[trigger] self.leads_in(self.entry, q[j], m);
        assert(self.at_distance(q[j], lv[j]));
        assert(self.at_distance(q[i], lv[i]));
        if m < lv[j] {
            assert(!self.leads_in(self.entry, q[j], m));
        }
        assert(lv[i] <= lv[j]);
        assert(lv[i] <= n && self.leads_in(self.entry, q[i], lv[i]));
    }
}

/// No successor list is longer than all of them together.
proof fn lemma_successors_within_total(nodes: Seq<MirCfgNode>, i: int)
    requires
        0 <= i < nodes.len(),
    ensures
        nodes[i].successors@.len() <= all_successors(nodes).len(),
    decreases nodes.len(),
{
    if i < nodes.len() - 1 {
        lemma_successors_within_total(nodes.drop_last(), i);
        assert(nodes.drop_last()[i] == nodes[i]);
    }
}

/// The fuel left for the `j`-th successor visit suffices.
proof fn lemma_fuel_step(c: int, m0: int, mj: int, t: int, d: int, j: int, fuel: int)
    requires
        0 <= t,
        0 <= j < d <= t,
        m0 + 1 <= mj <= c,
        fuel >= (c - m0) * (t + 2) + 1,
    ensures
        fuel - 2 - j >= (c - mj) * (t + 2) + 1,
{
    assert((c - mj) * (t + 2) <= (c - m0 - 1) * (t + 2)) by (nonlinear_arith)
        requires
            c - mj <= c - m0 - 1,
            0 <= t + 2,
    ;
    assert((c - m0 - 1) * (t + 2) == (c - m0) * (t + 2) - (t + 2)) by (nonlinear_arith);
}

impl MirControlFlowGraph {
    /// `p` is a walk from the entry block: each block after the first is a
    /// recorded successor of the one before it.
    pub open spec fn is_walk(self, p: Seq<MirBlockId>) -> bool {
        &&& p.len() >= 1
        &&& p[0] == self.entry
        &&& forall|k: int| 0 <= k < p.len() - 1 ==> #[trigger] self.succs(p[k]).contains(p[k + 1])
    }

    /// Some walk from the entry block ends at `b`.
    pub open spec fn reaches(self, b: MirBlockId) -> bool {
        exists|p: Seq<MirBlockId>| #[trigger] self.is_walk(p) && p.last() == b
    }

    /// With each block of `s`, its successors are in `s` too.
    pub open spec fn closed_under_successors(self, s: Seq<MirBlockId>) -> bool {
        forall|x: MirBlockId, y: MirBlockId|
            s.contains(x) && #[trigger] self.succs(x).contains(y) ==> s.contains(y)
    }

    /// Block `i` of `s` is a recorded successor of an earlier block of `s`.
    pub open spec fn discovered_earlier(self, s: Seq<MirBlockId>, i: int) -> bool {
        exists|j: int| 0 <= j < i && #[trigger] self.succs(s[j]).contains(s[i])
    }

    /// Each block of `s` after the first is a successor of an earlier one.
    pub open spec fn discovered_in_order(self, s: Seq<MirBlockId>) -> bool {
        forall|i: int| 0 < i < s.len() ==> #[trigger] self.discovered_earlier(s, i)
    }

    /// Every block that a walk can end at: the entry and every recorded
    /// successor.
    pub open spec fn candidates(self) -> Seq<MirBlockId> {
        seq![self.entry] + all_successors(self.nodes@)
    }

    pub proof fn lemma_reaches_entry(self)
        ensures
            self.reaches(self.entry),
    {
        let p = seq![self.entry];
        assert(self.is_walk(p));
    }

    pub proof fn lemma_reaches_step(self, x: MirBlockId, y: MirBlockId)
        requires
            self.reaches(x),
            self.succs(x).contains(y),
        ensures
            self.reaches(y),
    {
        let p = choose|p: Seq<MirBlockId>| #[trigger] self.is_walk(p) && p.last() == x;
        let q = p.push(y);
        assert forall|k: int| 0 <= k < q.len() - 1 implies #[trigger] self.succs(q[k]).contains(q[k + 1]) by {
            if k < p.len() - 1 {
                assert(q[k] == p[k] && q[k + 1] == p[k + 1]);
            } else {
                assert(q[k] == x && q[k + 1] == y);
            }
        }
        assert(self.is_walk(q));
    }

    /// A set of blocks that holds the entry and is closed under successors
    /// holds every block a walk can reach.
    pub proof fn lemma_closed_contains_reachable(self, s: Seq<MirBlockId>, b: MirBlockId)
        requires
            s.contains(self.entry),
            self.closed_under_successors(s),
            self.reaches(b),
        ensures
            s.contains(b),
    {
        let p = choose|p: Seq<MirBlockId>| #[trigger] self.is_walk(p) && p.last() == b;
        self.lemma_walk_prefix_in(s, p, p.len() - 1);
    }

    proof fn lemma_walk_prefix_in(self, s: Seq<MirBlockId>, p: Seq<MirBlockId>, k: int)
        requires
            s.contains(self.entry),
            self.closed_under_successors(s),
            self.is_walk(p),
            0 <= k < p.len(),
        ensures
            s.contains(p[k]),
        decreases k,
    {
        if k > 0 {
            self.lemma_walk_prefix_in(s, p, k - 1);
            assert(self.succs(p[k - 1]).contains(p[k - 1 + 1]));
        }
    }

    pub proof fn lemma_successor_candidate(self, x: MirBlockId, y: MirBlockId)
        requires
            self.succs(x).contains(y),
        ensures
            self.candidates().contains(y),
    {
        let i = self.node_index(x);
        lemma_all_successors(self.nodes@, i, y);
        let rest = all_successors(self.nodes@);
        let k = choose|k: int| 0 <= k < rest.len() && rest[k] == y;
        assert(self.candidates()[k + 1] == y);
    }

    pub proof fn lemma_reachable_candidate(self, b: MirBlockId)
        requires
            self.reaches(b),
        ensures
            self.candidates().contains(b),
    {
        let p = choose|p: Seq<MirBlockId>| #[trigger] self.is_walk(p) && p.last() == b;
        if p.len() == 1 {
            assert(self.candidates()[0] == b);
        } else {
            let k = p.len() - 2;
            assert(self.succs(p[k]).contains(p[k + 1]));
            self.lemma_successor_candidate(p[k], b);
        }
    }

    /// The blocks reachable from the entry, in breadth-first order: the entry
    /// first, then each block's successors in recorded order, each block
    /// once. Their distances from the entry never decrease along the order:
    /// a block within `n` edges of the entry has every earlier block within
    /// `n` edges too.
    pub fn bfs(&self) -> (order: Vec<MirBlockId>)
        requires
            self.wf(),
        ensures
            order@.len() >= 1,
            order@[0] == self.entry,
            order@.no_duplicates(),
            forall|b: MirBlockId| order@.contains(b) <==> self.reaches(b),
            self.discovered_in_order(order@),
            order@ == self.bfs_from(seq![self.entry], 0),
            forall|i: int, j: int, n: nat|
                0 <= i < j < order@.len() && #[trigger] self.within(order@[j], n) ==> #[trigger] self.within(order@[i], n),
    {
        let mut queue: Vec<MirBlockId> = Vec::new();
        queue.push(self.entry);
        proof {
            self.lemma_reaches_entry();
            assert(self.candidates()[0] == self.entry);
        }
        let ghost mut lv: Seq<nat> = seq![0nat];
        proof {
            assert(self.leads_in(self.entry, self.entry, 0));
            assert(self.at_distance(queue@[0], lv[0]));
            assert(self.levels_ok(queue@, lv, 0));
        }
        let mut head: usize = 0;
        while head < queue.len()
            invariant
                self.wf(),
                1 <= queue@.len(),
                queue@[0] == self.entry,
                head <= queue@.len(),
                queue@.len() <= self.candidates().len(),
                queue@.no_duplicates(),
                forall|x: MirBlockId| queue@.contains(x) ==> self.reaches(x),
                forall|x: MirBlockId| queue@.contains(x) ==> self.candidates().contains(x),
                forall|i: int, y: MirBlockId|
                    0 <= i < head && #[trigger] self.succs(queue@[i]).contains(y) ==> queue@.contains(y),
                self.discovered_in_order(queue@),
                self.bfs_from(queue@, head as nat) == self.bfs_from(seq![self.entry], 0),
                self.levels_ok(queue@, lv, head as int),
            decreases self.candidates().len() - head,
        {
            let ghost qh = queue@;
            let current = queue[head];
            proof {
                assert(queue@.contains(current));
            }
            if let Some(n) = self.find_node(current) {
                let succs = &self.nodes[n].successors;
                assert(succs@ == self.succs(current));
                let mut j: usize = 0;
                while j < succs.len()
                    invariant
                        self.wf(),
                        succs@ == self.succs(current),
                        current == queue@[head as int],
                        1 <= queue@.len(),
                        queue@[0] == self.entry,
                        head < queue@.len(),
                        j <= succs@.len(),
                        queue@.len() <= self.candidates().len(),
                        queue@.no_duplicates(),
                        self.reaches(current),
                        forall|x: MirBlockId| queue@.contains(x) ==> self.reaches(x),
                        forall|x: MirBlockId| queue@.contains(x) ==> self.candidates().contains(x),
                        forall|i: int, y: MirBlockId|
                            0 <= i < head && #[trigger] self.succs(queue@[i]).contains(y) ==> queue@.contains(y),
                        forall|k: int| 0 <= k < j ==> queue@.contains(#[trigger] succs@[k]),
                        self.discovered_in_order(queue@),
                        queue@ == enqueue_new(qh, succs@.subrange(0, j as int)),
                        self.levels_ok(queue@, lv, head as int),
                    decreases succs.len() - j,
                {
                    proof {
                        assert(succs@.subrange(0, j + 1).drop_last() =~= succs@.subrange(0, j as int));
                    }
                    let s = succs[j];
                    if !contains_block(&queue, s) {
                        let ghost old_queue = queue@;
                        proof {
                            assert(self.succs(current).contains(s));
                            self.lemma_reaches_step(current, s);
                            self.lemma_successor_candidate(current, s);
                        }
                        proof {
                            assert(!old_queue.contains(s));
                            self.lemma_new_level(old_queue, lv, head as int, s);
                            lv = lv.push((lv[head as int] + 1) as nat);
                        }
                        queue.push(s);
                        proof {
                            assert(queue@ == old_queue.push(s));
                            assert forall|x: MirBlockId| queue@.contains(x) implies self.reaches(x)
                                && self.candidates().contains(x) by {
                                if x != s {
                                    let k = choose|k: int| 0 <= k < queue@.len() && queue@[k] == x;
                                    assert(old_queue[k] == x);
                                }
                            }
                            lemma_distinct_len_bound(queue@, self.candidates());
                            assert forall|i: int, y: MirBlockId|
                                0 <= i < head && #[trigger] self.succs(queue@[i]).contains(y) implies queue@.contains(y) by {
                                assert(queue@[i] == old_queue[i]);
                                assert(old_queue.contains(y));
                                let k = choose|k: int| 0 <= k < old_queue.len() && old_queue[k] == y;
                                assert(queue@[k] == y);
                            }
                            assert forall|k: int| 0 <= k < j + 1 implies queue@.contains(#[trigger] succs@[k]) by {
                                if k < j {
                                    assert(old_queue.contains(succs@[k]));
                                    let m = choose|m: int| 0 <= m < old_queue.len() && old_queue[m] == succs@[k];
                                    assert(queue@[m] == succs@[k]);
                                } else {
                                    assert(queue@[old_queue.len() as int] == s);
                                }
                            }
                            assert forall|i: int| 0 < i < queue@.len() implies
                                #[trigger] self.discovered_earlier(queue@, i) by {
                                if i < old_queue.len() {
                                    assert(self.discovered_earlier(old_queue, i));
                                    let w = choose|w: int| 0 <= w < i && #[trigger] self.succs(old_queue[w]).contains(old_queue[i]);
                                    assert(queue@[w] == old_queue[w] && queue@[i] == old_queue[i]);
                                    assert(self.succs(queue@[w]).contains(queue@[i]));
                                } else {
                                    assert(queue@[head as int] == current);
                                    assert(self.succs(queue@[head as int]).contains(queue@[i]));
                                }
                            }
                        }
                    }
                    j = j + 1;
                }
                assert(succs@.subrange(0, j as int) =~= succs@);
            } else {
                assert(enqueue_new(qh, self.succs(current)) == qh);
            }
            proof {
                assert(queue@ == enqueue_new(qh, self.succs(qh[head as int])));
                assert(self.bfs_from(qh, head as nat) == self.bfs_from(queue@, (head + 1) as nat));
                assert forall|i: int, y: MirBlockId|
                    0 <= i < head + 1 && #[trigger] self.succs(queue@[i]).contains(y) implies queue@.contains(y) by {
                    if i == head {
                        let k = choose|k: int| 0 <= k < self.succs(current).len() && self.succs(current)[k] == y;
                    }
                }
                assert forall|y: MirBlockId| #[trigger] self.succs(queue@[head as int]).contains(y) implies queue@.contains(y) by {
                    assert(self.succs(queue@[head as int]).contains(y));
                }
                self.lemma_levels_advance(queue@, lv, head as int);
            }
            head = head + 1;
        }
        proof {
            assert forall|i: int, j: int, n: nat|
                0 <= i < j < queue@.len() && #[trigger] self.within(queue@[j], n) implies #[trigger] self.within(queue@[i], n) by {
                self.lemma_levels_order(queue@, lv, head as int, i, j, n);
            }
            assert(self.closed_under_successors(queue@)) by {
                assert forall|x: MirBlockId, y: MirBlockId|
                    queue@.contains(x) && #[trigger] self.succs(x).contains(y) implies queue@.contains(y) by {
                    let k = choose|k: int| 0 <= k < queue@.len() && queue@[k] == x;
                    assert(self.succs(queue@[k]).contains(y));
                }
            }
            assert(queue@.contains(self.entry)) by {
                assert(queue@[0] == self.entry);
            }
            assert forall|b: MirBlockId| self.reaches(b) implies queue@.contains(b) by {
                self.lemma_closed_contains_reachable(queue@, b);
            }
            assert(self.bfs_from(queue@, head as nat) == queue@);
        }
        queue
    }
}

pub proof fn lemma_push_contains(s: Seq<MirBlockId>, x: MirBlockId, y: MirBlockId)
    ensures
        s.push(x).contains(y) <==> (s.contains(y) || y == x),
{
    if s.push(x).contains(y) && y != x {
        let k = choose|k: int| 0 <= k < s.push(x).len() && s.push(x)[k] == y;
        assert(s[k] == y);
    }
    if s.contains(y) {
        let k = choose|k: int| 0 <= k < s.len() && s[k] == y;
        assert(s.push(x)[k] == y);
    }
    if y == x {
        assert(s.push(x)[s.len() as int] == y);
    }
}

/// `v` starts with `prefix`.
pub open spec fn has_prefix(v: Seq<MirBlockId>, prefix: Seq<MirBlockId>) -> bool {
    prefix.len() <= v.len() && v.subrange(0, prefix.len() as int) == prefix
}

pub proof fn lemma_prefix_contains(v: Seq<MirBlockId>, prefix: Seq<MirBlockId>, x: MirBlockId)
    requires
        has_prefix(v, prefix),
        prefix.contains(x),
    ensures
        v.contains(x),
{
    let k = choose|k: int| 0 <= k < prefix.len() && prefix[k] == x;
    assert(v.subrange(0, prefix.len() as int)[k] == x);
    assert(v[k] == x);
}

impl MirControlFlowGraph {
    /// Every block of `v` is reachable and can end a walk, and none repeats.
    pub open spec fn visit_ok(self, v: Seq<MirBlockId>) -> bool {
        &&& v.no_duplicates()
        &&& forall|x: MirBlockId| v.contains(x) ==> self.reaches(x) && self.candidates().contains(x)
    }

    /// The successors of the blocks of `v` from position `start` on are in `v`.
    pub open spec fn closed_from(self, v: Seq<MirBlockId>, start: int) -> bool {
        forall|i: int, y: MirBlockId|
            start <= i < v.len() && #[trigger] self.succs(v[i]).contains(y) ==> v.contains(y)
    }

    proof fn lemma_closed_from_grow(self, v: Seq<MirBlockId>, w: Seq<MirBlockId>, start: int)
        requires
            has_prefix(w, v),
            self.closed_from(v, start),
            0 <= start,
        ensures
            forall|i: int, y: MirBlockId|
                start <= i < v.len() && #[trigger] self.succs(w[i]).contains(y) ==> w.contains(y),
    {
        assert forall|i: int, y: MirBlockId|
            start <= i < v.len() && #[trigger] self.succs(w[i]).contains(y) implies w.contains(y) by {
            assert(w.subrange(0, v.len() as int)[i] == w[i]);
            assert(v[i] == w[i]);
            lemma_prefix_contains(w, v, y);
        }
    }

    proof fn lemma_visit_push(self, v: Seq<MirBlockId>, b: MirBlockId)
        requires
            self.visit_ok(v),
            !v.contains(b),
            self.reaches(b),
        ensures
            self.visit_ok(v.push(b)),
            v.push(b).len() <= self.candidates().len(),
            has_prefix(v.push(b), v),
    {
        self.lemma_reachable_candidate(b);
        assert forall|x: MirBlockId| v.push(b).contains(x) implies self.reaches(x)
            && self.candidates().contains(x) by {
            if x != b {
                let k = choose|k: int| 0 <= k < v.push(b).len() && v.push(b)[k] == x;
                assert(v[k] == x);
            }
        }
        assert(v.push(b).subrange(0, v.len() as int) =~= v);
        assert forall|x: MirBlockId| v.push(b).contains(x) implies self.candidates().contains(x) by {
            if x != b {
                let k = choose|k: int| 0 <= k < v.push(b).len() && v.push(b)[k] == x;
                assert(v[k] == x);
                assert(v.contains(x));
            }
        }
        lemma_distinct_len_bound(v.push(b), self.candidates());
    }

    /// Depth-first visit from `block`: marks it, records it, then visits its
    /// successors in recorded order, skipping blocks already marked.
    fn dfs_visit(
        &self,
        block: MirBlockId,
        visited: &mut Vec<MirBlockId>,
        order: &mut Vec<MirBlockId>,
        Ghost(fuel): Ghost<nat>,
    )
        requires
            self.wf(),
            self.visit_ok(old(visited)@),
            self.reaches(block),
            fuel >= self.visit_fuel(old(visited)@.len() as int),
        ensures
            final(visited)@ == self.visit_spec(block, old(visited)@, fuel).0,
            final(order)@ == old(order)@ + self.visit_spec(block, old(visited)@, fuel).1,
            self.visit_ok(final(visited)@),
            has_prefix(final(visited)@, old(visited)@),
            final(visited)@.contains(block),
            !old(visited)@.contains(block) ==> final(visited)@[old(visited)@.len() as int] == block,
            self.closed_from(final(visited)@, old(visited)@.len() as int),
            final(order)@ == old(order)@ + final(visited)@.subrange(old(visited)@.len() as int, final(visited)@.len() as int),
        decreases self.candidates().len() - old(visited)@.len(),
    {
        let ghost v0 = visited@;
        let ghost o0 = order@;
        if contains_block(visited, block) {
            assert(visited@.subrange(0, v0.len() as int) =~= v0);
            assert(visited@.subrange(v0.len() as int, visited@.len() as int) =~= Seq::<MirBlockId>::empty());
            assert(order@ =~= o0 + Seq::<MirBlockId>::empty());
            return;
        }
        proof {
            self.lemma_visit_push(v0, block);
        }
        visited.push(block);
        order.push(block);
        proof {
            assert(visited@.subrange(v0.len() as int, visited@.len() as int) =~= seq![block]);
        }
        let ghost vp = visited@;
        let ghost f1: nat = (fuel - 1) as nat;
        let ghost whole = self.visit_list_spec(self.succs(block), 0, vp, f1);
        assert(self.visit_spec(block, v0, fuel) == (whole.0, seq![block] + whole.1, whole.2.push(block)));
        if let Some(n) = self.find_node(block) {
            let succs = &self.nodes[n].successors;
            assert(succs@ == self.succs(block));
            proof {
                lemma_successors_within_total(self.nodes@, n as int);
                assert(self.nodes@[n as int].successors@ == succs@);
                assert(order@.subrange((o0.len() + 1) as int, order@.len() as int) =~= Seq::<MirBlockId>::empty());
                assert(whole.1 =~= Seq::<MirBlockId>::empty() + whole.1);
            }
            let mut j: usize = 0;
            while j < succs.len()
                invariant
                    self.wf(),
                    v0 == old(visited)@,
                    succs@ == self.succs(block),
                    j <= succs@.len(),
                    self.reaches(block),
                    self.visit_ok(visited@),
                    has_prefix(visited@, v0),
                    v0.len() < visited@.len(),
                    visited@[v0.len() as int] == block,
                    fuel >= self.visit_fuel(v0.len() as int),
                    f1 == fuel - 1,
                    succs@.len() <= self.successor_total(),
                    whole == self.visit_list_spec(succs@, 0, vp, f1),
                    vp.len() == v0.len() + 1,
                    whole.0 == self.visit_list_spec(succs@, j as nat, visited@, (f1 - j) as nat).0,
                    order@.len() >= o0.len() + 1,
                    whole.1 == order@.subrange((o0.len() + 1) as int, order@.len() as int)
                        + self.visit_list_spec(succs@, j as nat, visited@, (f1 - j) as nat).1,
                    self.closed_from(visited@, (v0.len() + 1) as int),
                    forall|k: int| 0 <= k < j ==> visited@.contains(#[trigger] succs@[k]),
                    order@ == o0 + visited@.subrange(v0.len() as int, visited@.len() as int),
                    visited@.len() <= self.candidates().len(),
                decreases succs.len() - j,
            {
                let s = succs[j];
                let ghost v1 = visited@;
                let ghost o1 = order@;
                let ghost fj: nat = (f1 - j - 1) as nat;
                proof {
                    assert(self.succs(block).contains(s));
                    self.lemma_reaches_step(block, s);
                    lemma_distinct_len_bound(v1, self.candidates());
                    lemma_fuel_step(
                        self.candidates().len() as int,
                        v0.len() as int,
                        v1.len() as int,
                        self.successor_total() as int,
                        succs@.len() as int,
                        j as int,
                        fuel as int,
                    );
                }
                let ghost rest = self.visit_list_spec(succs@, (j + 1) as nat, self.visit_spec(s, v1, fj).0, fj);
                assert(self.visit_list_spec(succs@, j as nat, v1, (f1 - j) as nat) == (
                    rest.0,
                    self.visit_spec(s, v1, fj).1 + rest.1,
                    self.visit_spec(s, v1, fj).2 + rest.2,
                ));
                self.dfs_visit(s, visited, order, Ghost(fj));
                proof {
                    assert(order@.subrange((o0.len() + 1) as int, order@.len() as int) =~= o1.subrange((o0.len() + 1) as int, o1.len() as int)
                        + self.visit_spec(s, v1, fj).1);
                    assert(whole.1 =~= order@.subrange((o0.len() + 1) as int, order@.len() as int)
                        + self.visit_list_spec(succs@, (j + 1) as nat, visited@, (f1 - (j + 1)) as nat).1);
                }
                proof {
                    let v2 = visited@;
                    assert(v2.subrange(0, v1.len() as int) =~= v1);
                    assert(has_prefix(v2, v0)) by {
                        assert(v2.subrange(0, v0.len() as int) =~= v1.subrange(0, v0.len() as int));
                    }
                    assert(v2[v0.len() as int] == block) by {
                        assert(v2.subrange(0, v1.len() as int)[v0.len() as int] == v1[v0.len() as int]);
                    }
                    self.lemma_closed_from_grow(v1, v2, (v0.len() + 1) as int);
                    assert(self.closed_from(v2, (v0.len() + 1) as int));
                    assert forall|k: int| 0 <= k < j + 1 implies v2.contains(#[trigger] succs@[k]) by {
                        if k < j {
                            lemma_prefix_contains(v2, v1, succs@[k]);
                        }
                    }
                    assert(order@ =~= o0 + v2.subrange(v0.len() as int, v2.len() as int)) by {
                        assert(o1 == o0 + v1.subrange(v0.len() as int, v1.len() as int));
                        assert(v2.subrange(v0.len() as int, v2.len() as int) =~= v1.subrange(v0.len() as int, v1.len() as int)
                            + v2.subrange(v1.len() as int, v2.len() as int));
                    }
                    lemma_distinct_len_bound(v2, self.candidates());
                }
                j = j + 1;
            }
            proof {
                assert forall|i: int, y: MirBlockId|
                    v0.len() <= i < visited@.len() && #[trigger] self.succs(visited@[i]).contains(y) implies visited@.contains(y) by {
                    if i == v0.len() {
                        let k = choose|k: int| 0 <= k < succs@.len() && succs@[k] == y;
                    }
                }
            }
            proof {
                assert(self.visit_list_spec(succs@, j as nat, visited@, (f1 - j) as nat).1 =~= Seq::<MirBlockId>::empty());
                assert(order@ =~= o0 + (seq![block] + whole.1));
            }
        } else {
            proof {
                assert(whole == (vp, Seq::<MirBlockId>::empty(), Seq::<MirBlockId>::empty()));
                assert(order@ =~= o0 + (seq![block] + whole.1));
                assert forall|i: int, y: MirBlockId|
                    v0.len() <= i < visited@.len() && #[trigger] self.succs(visited@[i]).contains(y) implies visited@.contains(y) by {
                }
            }
        }
        proof {
            assert(visited@[v0.len() as int] == block);
        }
    }

    /// The blocks reachable from the entry in depth-first preorder: each
    /// block before the blocks first found through it, each block once.
    pub fn dfs(&self) -> (order: Vec<MirBlockId>)
        requires
            self.wf(),
        ensures
            order@.len() >= 1,
            order@[0] == self.entry,
            order@.no_duplicates(),
            forall|b: MirBlockId| order@.contains(b) <==> self.reaches(b),
            order@ == self.dfs_order(),
    {
        let mut visited: Vec<MirBlockId> = Vec::new();
        let mut order: Vec<MirBlockId> = Vec::new();
        proof {
            self.lemma_reaches_entry();
        }
        self.dfs_visit(self.entry, &mut visited, &mut order, Ghost(self.visit_fuel(0)));
        proof {
            assert(order@ =~= self.dfs_order());
            assert(visited@.subrange(0, visited@.len() as int) =~= visited@);
            assert(order@ =~= visited@);
            assert(self.closed_under_successors(order@)) by {
                assert forall|x: MirBlockId, y: MirBlockId|
                    order@.contains(x) && #[trigger] self.succs(x).contains(y) implies order@.contains(y) by {
                    let k = choose|k: int| 0 <= k < order@.len() && order@[k] == x;
                    assert(self.succs(visited@[k]).contains(y));
                }
            }
            assert forall|b: MirBlockId| self.reaches(b) implies order@.contains(b) by {
                self.lemma_closed_contains_reachable(order@, b);
            }
            assert(order@[0] == self.entry);
        }
        order
    }
}

/// `a` and `b` hold the same blocks, each once.
pub open spec fn same_blocks(a: Seq<MirBlockId>, b: Seq<MirBlockId>) -> bool {
    &&& a.len() == b.len()
    &&& a.no_duplicates()
    &&& forall|x: MirBlockId| a.contains(x) <==> b.contains(x)
}

pub proof fn lemma_concat_distinct(a: Seq<MirBlockId>, b: Seq<MirBlockId>)
    requires
        a.no_duplicates(),
        b.no_duplicates(),
        forall|x: MirBlockId| a.contains(x) ==> !b.contains(x),
    ensures
        (a + b).no_duplicates(),
        forall|x: MirBlockId| (a + b).contains(x) <==> (a.contains(x) || b.contains(x)),
{
    let c = a + b;
    assert forall|i: int, j: int| 0 <= i < c.len() && 0 <= j < c.len() && i != j implies c[i] != c[j] by {
        if i < a.len() && j >= a.len() {
            assert(a.contains(c[i]));
            assert(b[j - a.len()] == c[j]);
            assert(b.contains(c[j]));
        } else if i >= a.len() && j < a.len() {
            assert(a.contains(c[j]));
            assert(b[i - a.len()] == c[i]);
            assert(b.contains(c[i]));
        } else if i < a.len() && j < a.len() {
            assert(c[i] == a[i] && c[j] == a[j]);
        } else {
            assert(c[i] == b[i - a.len()] && c[j] == b[j - a.len()]);
        }
    }
    assert forall|x: MirBlockId| c.contains(x) <==> (a.contains(x) || b.contains(x)) by {
        if c.contains(x) {
            let k = choose|k: int| 0 <= k < c.len() && c[k] == x;
            if k < a.len() {
                assert(a[k] == x);
            } else {
                assert(b[k - a.len()] == x);
            }
        }
        if a.contains(x) {
            let k = choose|k: int| 0 <= k < a.len() && a[k] == x;
            assert(c[k] == x);
        }
        if b.contains(x) {
            let k = choose|k: int| 0 <= k < b.len() && b[k] == x;
            assert(c[a.len() + k] == x);
        }
    }
}

/// The part of `v` after its first `n` items.
pub open spec fn tail_from(v: Seq<MirBlockId>, n: int) -> Seq<MirBlockId> {
    v.subrange(n, v.len() as int)
}

pub proof fn lemma_tail_split(v: Seq<MirBlockId>, m: int, n: int)
    requires
        0 <= m <= n <= v.len(),
    ensures
        tail_from(v, m) == v.subrange(m, n) + tail_from(v, n),
        v.no_duplicates() ==> forall|x: MirBlockId| v.subrange(0, n).contains(x) ==> !tail_from(v, n).contains(x),
        v.no_duplicates() ==> tail_from(v, m).no_duplicates(),
{
    assert(tail_from(v, m) =~= v.subrange(m, n) + tail_from(v, n));
    if v.no_duplicates() {
        assert forall|x: MirBlockId| v.subrange(0, n).contains(x) implies !tail_from(v, n).contains(x) by {
            let i = choose|i: int| 0 <= i < n && v.subrange(0, n)[i] == x;
            if tail_from(v, n).contains(x) {
                let j = choose|j: int| 0 <= j < v.len() - n && tail_from(v, n)[j] == x;
                assert(v[i] == v[n + j]);
            }
        }
        assert forall|i: int, j: int| 0 <= i < tail_from(v, m).len() && 0 <= j < tail_from(v, m).len() && i != j
            implies tail_from(v, m)[i] != tail_from(v, m)[j] by {
            assert(tail_from(v, m)[i] == v[m + i] && tail_from(v, m)[j] == v[m + j]);
        }
    }
}

pub proof fn lemma_split_distinct(a: Seq<MirBlockId>, b: Seq<MirBlockId>)
    requires
        (a + b).no_duplicates(),
    ensures
        a.no_duplicates(),
        b.no_duplicates(),
        forall|x: MirBlockId| a.contains(x) ==> !b.contains(x),
{
    let c = a + b;
    assert forall|i: int, j: int| 0 <= i < a.len() && 0 <= j < a.len() && i != j implies a[i] != a[j] by {
        assert(c[i] == a[i] && c[j] == a[j]);
    }
    assert forall|i: int, j: int| 0 <= i < b.len() && 0 <= j < b.len() && i != j implies b[i] != b[j] by {
        assert(c[a.len() + i] == b[i] && c[a.len() + j] == b[j]);
    }
    assert forall|x: MirBlockId| a.contains(x) implies !b.contains(x) by {
        let i = choose|i: int| 0 <= i < a.len() && a[i] == x;
        if b.contains(x) {
            let j = choose|j: int| 0 <= j < b.len() && b[j] == x;
            assert(c[i] == c[a.len() + j]);
        }
    }
}

pub proof fn lemma_same_blocks_concat(oa: Seq<MirBlockId>, ob: Seq<MirBlockId>, va: Seq<MirBlockId>, vb: Seq<MirBlockId>)
    requires
        same_blocks(oa, va),
        same_blocks(ob, vb),
        (va + vb).no_duplicates(),
    ensures
        same_blocks(oa + ob, va + vb),
{
    lemma_split_distinct(va, vb);
    lemma_concat_distinct(va, vb);
    assert forall|x: MirBlockId| oa.contains(x) implies !ob.contains(x) by {
        assert(va.contains(x));
        if ob.contains(x) {
            assert(vb.contains(x));
        }
    }
    lemma_concat_distinct(oa, ob);
    assert forall|x: MirBlockId| (oa + ob).contains(x) <==> (va + vb).contains(x) by {
        assert(oa.contains(x) <==> va.contains(x));
        assert(ob.contains(x) <==> vb.contains(x));
    }
}

impl MirControlFlowGraph {
    /// Depth-first visit from `block` that records each block after all the
    /// blocks first found through it.
    fn post_order_visit(
        &self,
        block: MirBlockId,
        visited: &mut Vec<MirBlockId>,
        order: &mut Vec<MirBlockId>,
        Ghost(fuel): Ghost<nat>,
    )
        requires
            self.wf(),
            self.visit_ok(old(visited)@),
            self.reaches(block),
            fuel >= self.visit_fuel(old(visited)@.len() as int),
            forall|x: MirBlockId|
                old(visited)@.contains(x) && !old(order)@.contains(x) ==> exists|n: nat| #[trigger] self.leads_in(x, block, n),
        ensures
            self.acyclic() ==> self.successors_first(final(order)@, old(order)@.len() as int),
            final(visited)@ == self.visit_spec(block, old(visited)@, fuel).0,
            final(order)@ == old(order)@ + self.visit_spec(block, old(visited)@, fuel).2,
            self.visit_ok(final(visited)@),
            has_prefix(final(visited)@, old(visited)@),
            final(visited)@.contains(block),
            self.closed_from(final(visited)@, old(visited)@.len() as int),
            has_prefix(final(order)@, old(order)@),
            same_blocks(
                tail_from(final(order)@, old(order)@.len() as int),
                tail_from(final(visited)@, old(visited)@.len() as int),
            ),
            !old(visited)@.contains(block) ==> final(order)@.last() == block,
        decreases self.candidates().len() - old(visited)@.len(),
    {
        let ghost v0 = visited@;
        let ghost o0 = order@;
        if contains_block(visited, block) {
            assert(visited@.subrange(0, v0.len() as int) =~= v0);
            assert(order@.subrange(0, o0.len() as int) =~= o0);
            assert(tail_from(visited@, v0.len() as int) =~= Seq::<MirBlockId>::empty());
            assert(tail_from(order@, o0.len() as int) =~= Seq::<MirBlockId>::empty());
            return;
        }
        proof {
            self.lemma_visit_push(v0, block);
        }
        visited.push(block);
        proof {
            assert(tail_from(visited@, v0.len() as int) =~= seq![block]);
            assert(order@.subrange(0, o0.len() as int) =~= o0);
            assert(tail_from(order@, o0.len() as int) =~= Seq::<MirBlockId>::empty());
        }
        let ghost vp = visited@;
        let ghost f1: nat = (fuel - 1) as nat;
        let ghost whole = self.visit_list_spec(self.succs(block), 0, vp, f1);
        assert(self.visit_spec(block, v0, fuel) == (whole.0, seq![block] + whole.1, whole.2.push(block)));
        if let Some(n) = self.find_node(block) {
            let succs = &self.nodes[n].successors;
            assert(succs@ == self.succs(block));
            proof {
                lemma_successors_within_total(self.nodes@, n as int);
                assert(self.nodes@[n as int].successors@ == succs@);
                assert(order@.subrange(o0.len() as int, order@.len() as int) =~= Seq::<MirBlockId>::empty());
                assert(whole.2 =~= Seq::<MirBlockId>::empty() + whole.2);
            }
            let mut j: usize = 0;
            while j < succs.len()
                invariant
                    self.wf(),
                    v0 == old(visited)@,
                    o0 == old(order)@,
                    succs@ == self.succs(block),
                    j <= succs@.len(),
                    self.reaches(block),
                    self.visit_ok(visited@),
                    has_prefix(visited@, v0),
                    has_prefix(order@, o0),
                    v0.len() < visited@.len(),
                    visited@[v0.len() as int] == block,
                    fuel >= self.visit_fuel(v0.len() as int),
                    f1 == fuel - 1,
                    succs@.len() <= self.successor_total(),
                    whole == self.visit_list_spec(succs@, 0, vp, f1),
                    vp.len() == v0.len() + 1,
                    whole.0 == self.visit_list_spec(succs@, j as nat, visited@, (f1 - j) as nat).0,
                    order@.len() >= o0.len(),
                    whole.2 == order@.subrange(o0.len() as int, order@.len() as int)
                        + self.visit_list_spec(succs@, j as nat, visited@, (f1 - j) as nat).2,
                    self.closed_from(visited@, (v0.len() + 1) as int),
                    forall|k: int| 0 <= k < j ==> visited@.contains(#[trigger] succs@[k]),
                    same_blocks(tail_from(order@, o0.len() as int), tail_from(visited@, (v0.len() + 1) as int)),
                    visited@.len() <= self.candidates().len(),
                    forall|x: MirBlockId|
                        old(visited)@.contains(x) && !old(order)@.contains(x) ==> exists|n: nat| #[trigger] self.leads_in(x, block, n),
                    forall|x: MirBlockId|
                        #[trigger] visited@.contains(x) && !order@.contains(x) ==> (v0.contains(x) && !o0.contains(x)) || x == block,
                    self.acyclic() ==> self.successors_first(order@, o0.len() as int),
                decreases succs.len() - j,
            {
                let s = succs[j];
                let ghost v1 = visited@;
                let ghost o1 = order@;
                let ghost fj: nat = (f1 - j - 1) as nat;
                proof {
                    assert(self.succs(block).contains(s));
                    self.lemma_reaches_step(block, s);
                    lemma_distinct_len_bound(v1, self.candidates());
                    lemma_fuel_step(
                        self.candidates().len() as int,
                        v0.len() as int,
                        v1.len() as int,
                        self.successor_total() as int,
                        succs@.len() as int,
                        j as int,
                        fuel as int,
                    );
                }
                let ghost rest = self.visit_list_spec(succs@, (j + 1) as nat, self.visit_spec(s, v1, fj).0, fj);
                assert(self.visit_list_spec(succs@, j as nat, v1, (f1 - j) as nat) == (
                    rest.0,
                    self.visit_spec(s, v1, fj).1 + rest.1,
                    self.visit_spec(s, v1, fj).2 + rest.2,
                ));
                proof {
                    assert forall|x: MirBlockId| visited@.contains(x) && !order@.contains(x) implies exists|n: nat| #[trigger] self.leads_in(x, s, n) by {
                        if x == block {
                            assert(self.leads_in(s, s, 0));
                            assert(self.leads_in(block, s, 1));
                        } else {
                            let n = choose|n: nat| #[trigger] self.leads_in(x, block, n);
                            self.lemma_leads_extend(x, block, s, n);
                        }
                    }
                }
                self.post_order_visit(s, visited, order, Ghost(fj));
                proof {
                    assert(order@.subrange(o0.len() as int, order@.len() as int) =~= o1.subrange(o0.len() as int, o1.len() as int)
                        + self.visit_spec(s, v1, fj).2);
                    assert(whole.2 =~= order@.subrange(o0.len() as int, order@.len() as int)
                        + self.visit_list_spec(succs@, (j + 1) as nat, visited@, (f1 - (j + 1)) as nat).2);
                }
                proof {
                    let v2 = visited@;
                    let o2 = order@;
                    assert(v2.subrange(0, v1.len() as int) =~= v1);
                    assert(has_prefix(v2, v0)) by {
                        assert(v2.subrange(0, v0.len() as int) =~= v1.subrange(0, v0.len() as int));
                    }
                    assert(has_prefix(o2, o0)) by {
                        assert(o2.subrange(0, o1.len() as int) =~= o1);
                        assert(o2.subrange(0, o0.len() as int) =~= o1.subrange(0, o0.len() as int));
                    }
                    assert(v2[v0.len() as int] == block) by {
                        assert(v2.subrange(0, v1.len() as int)[v0.len() as int] == v1[v0.len() as int]);
                    }
                    self.lemma_closed_from_grow(v1, v2, (v0.len() + 1) as int);
                    assert forall|k: int| 0 <= k < j + 1 implies v2.contains(#[trigger] succs@[k]) by {
                        if k < j {
                            lemma_prefix_contains(v2, v1, succs@[k]);
                        }
                    }
                    // the blocks recorded by this call are the blocks it marked
                    let va = tail_from(v1, (v0.len() + 1) as int);
                    let vb = tail_from(v2, v1.len() as int);
                    let oa = tail_from(o1, o0.len() as int);
                    let ob = tail_from(o2, o1.len() as int);
                    lemma_tail_split(v2, (v0.len() + 1) as int, v1.len() as int);
                    assert(v2.subrange((v0.len() + 1) as int, v1.len() as int) =~= va);
                    lemma_tail_split(o2, o0.len() as int, o1.len() as int);
                    assert(o2.subrange(o0.len() as int, o1.len() as int) =~= oa);
                    assert(tail_from(v2, (v0.len() + 1) as int) == va + vb);
                    assert(tail_from(o2, o0.len() as int) == oa + ob);
                    lemma_same_blocks_concat(oa, ob, va, vb);
                    lemma_distinct_len_bound(v2, self.candidates());
                    assert forall|x: MirBlockId| #[trigger] v2.contains(x) && !o2.contains(x) implies (v0.contains(x) && !o0.contains(x)) || x == block by {
                        if v1.contains(x) {
                            if o1.contains(x) {
                                lemma_prefix_contains(o2, o1, x);
                            }
                        } else {
                            let i = choose|i: int| 0 <= i < v2.len() && v2[i] == x;
                            if i < v1.len() {
                                assert(v2.subrange(0, v1.len() as int)[i] == v1[i]);
                            }
                            assert(vb[i - v1.len()] == x);
                            assert(vb.contains(x));
                            assert(ob.contains(x));
                            let m = choose|m: int| 0 <= m < ob.len() && ob[m] == x;
                            assert(o2[o1.len() + m] == x);
                        }
                    }
                    if self.acyclic() {
                        assert forall|k: int, y: MirBlockId|
                            o0.len() <= k < o2.len() && #[trigger] self.succs(o2[k]).contains(y) implies o2.subrange(0, k).contains(y) by {
                            if k < o1.len() {
                                assert(o2.subrange(0, o1.len() as int)[k] == o1[k]);
                                assert(o1.subrange(0, k).contains(y));
                                assert(o2.subrange(0, k) =~= o1.subrange(0, k));
                            }
                        }
                    }
                }
                j = j + 1;
            }
            proof {
                assert forall|i: int, y: MirBlockId|
                    v0.len() <= i < visited@.len() && #[trigger] self.succs(visited@[i]).contains(y) implies visited@.contains(y) by {
                    if i == v0.len() {
                        let k = choose|k: int| 0 <= k < succs@.len() && succs@[k] == y;
                    }
                }
            }
            proof {
                assert(self.visit_list_spec(succs@, j as nat, visited@, (f1 - j) as nat).2 =~= Seq::<MirBlockId>::empty());
                assert(order@ =~= o0 + whole.2);
                if self.acyclic() {
                    assert forall|y: MirBlockId| #[trigger] self.succs(block).contains(y) implies order@.contains(y) by {
                        assert(self.succs(visited@[v0.len() as int]).contains(y));
                        assert(visited@.contains(y));
                        if !order@.contains(y) {
                            if y == block {
                                assert(self.leads_in(block, block, 0));
                                self.lemma_leads_extend(block, block, block, 0);
                            } else {
                                let n = choose|n: nat| #[trigger] self.leads_in(y, block, n);
                                self.lemma_leads_extend(y, block, y, n);
                            }
                        }
                    }
                }
            }
        } else {
            proof {
                assert(whole == (vp, Seq::<MirBlockId>::empty(), Seq::<MirBlockId>::empty()));
                assert(order@ =~= o0 + whole.2);
                assert forall|i: int, y: MirBlockId|
                    v0.len() <= i < visited@.len() && #[trigger] self.succs(visited@[i]).contains(y) implies visited@.contains(y) by {
                }
                assert(tail_from(visited@, (v0.len() + 1) as int) =~= Seq::<MirBlockId>::empty());
            }
        }
        let ghost o3 = order@;
        order.push(block);
        assert(order@ =~= o0 + whole.2.push(block));
        proof {
            let fo = order@;
            if self.acyclic() {
                assert forall|k: int, y: MirBlockId|
                    o0.len() <= k < fo.len() && #[trigger] self.succs(fo[k]).contains(y) implies fo.subrange(0, k).contains(y) by {
                    if k < o3.len() {
                        assert(fo[k] == o3[k]);
                        assert(fo.subrange(0, k) =~= o3.subrange(0, k));
                    } else {
                        assert(fo[k] == block);
                        assert(fo.subrange(0, k) =~= o3);
                    }
                }
            }
        }
        proof {
            let v = visited@;
            lemma_tail_split(v, v0.len() as int, (v0.len() + 1) as int);
            assert(v.subrange(v0.len() as int, (v0.len() + 1) as int) =~= seq![block]);
            let rest = tail_from(v, (v0.len() + 1) as int);
            assert(tail_from(order@, o0.len() as int) =~= tail_from(o3, o0.len() as int).push(block));
            assert(!rest.contains(block)) by {
                assert(v.subrange(0, (v0.len() + 1) as int)[v0.len() as int] == block);
            }
            assert(tail_from(o3, o0.len() as int).push(block) =~= tail_from(o3, o0.len() as int) + seq![block]);
            assert(has_prefix(order@, o0)) by {
                assert(order@.subrange(0, o0.len() as int) =~= o3.subrange(0, o0.len() as int));
            }
            assert(seq![block] + rest =~= tail_from(v, v0.len() as int));
            assert(same_blocks(seq![block], seq![block]));
            assert(rest.no_duplicates()) by {
                lemma_tail_split(v, (v0.len() + 1) as int, (v0.len() + 1) as int);
            }
            assert(seq![block].no_duplicates());
            lemma_concat_distinct(seq![block], rest);
            lemma_concat_distinct(rest, seq![block]);
            lemma_same_blocks_concat(tail_from(o3, o0.len() as int), seq![block], rest, seq![block]);
            let t = tail_from(o3, o0.len() as int) + seq![block];
            assert(same_blocks(t, rest + seq![block]));
            assert(tail_from(order@, o0.len() as int) == t);
            assert forall|x: MirBlockId| t.contains(x) <==> tail_from(v, v0.len() as int).contains(x) by {
                assert((rest + seq![block]).contains(x) <==> (rest.contains(x) || seq![block].contains(x)));
                assert((seq![block] + rest).contains(x) <==> (rest.contains(x) || seq![block].contains(x)));
            }
            assert(visited@[v0.len() as int] == block);
            assert(visited@.contains(block));
        }
    }

    /// The blocks reachable from the entry in depth-first postorder: each
    /// block after the blocks first found through it, each block once; the
    /// entry comes last. When no reachable block lies on a cycle, each block
    /// comes after all its successors.
    pub fn post_order(&self) -> (order: Vec<MirBlockId>)
        requires
            self.wf(),
        ensures
            order@.len() >= 1,
            order@.last() == self.entry,
            order@.no_duplicates(),
            forall|b: MirBlockId| order@.contains(b) <==> self.reaches(b),
            order@ == self.post_order_seq(),
            self.acyclic() ==> forall|k: int, y: MirBlockId|
                0 <= k < order@.len() && #[trigger] self.succs(order@[k]).contains(y) ==> order@.subrange(0, k).contains(y),
    {
        let mut visited: Vec<MirBlockId> = Vec::new();
        let mut order: Vec<MirBlockId> = Vec::new();
        proof {
            self.lemma_reaches_entry();
        }
        self.post_order_visit(self.entry, &mut visited, &mut order, Ghost(self.visit_fuel(0)));
        proof {
            assert(order@ =~= self.post_order_seq());
            assert(tail_from(visited@, 0) =~= visited@);
            assert(tail_from(order@, 0) =~= order@);
            assert(self.closed_under_successors(visited@)) by {
                assert forall|x: MirBlockId, y: MirBlockId|
                    visited@.contains(x) && #[trigger] self.succs(x).contains(y) implies visited@.contains(y) by {
                    let k = choose|k: int| 0 <= k < visited@.len() && visited@[k] == x;
                    assert(self.succs(visited@[k]).contains(y));
                }
            }
            assert forall|b: MirBlockId| self.reaches(b) implies order@.contains(b) by {
                self.lemma_closed_contains_reachable(visited@, b);
            }
        }
        order
    }

    /// The reverse of `post_order`: when no reachable block lies on a cycle,
    /// each block comes before all its successors.
    pub fn reverse_post_order(&self) -> (order: Vec<MirBlockId>)
        requires
            self.wf(),
        ensures
            order@ == self.post_order_seq().reverse(),
            order@.len() >= 1,
            order@[0] == self.entry,
            order@.no_duplicates(),
            forall|b: MirBlockId| order@.contains(b) <==> self.reaches(b),
            self.acyclic() ==> forall|k: int, y: MirBlockId|
                0 <= k < order@.len() && #[trigger] self.succs(order@[k]).contains(y) ==> order@.subrange(k + 1, order@.len() as int).contains(y),
    {
        let post = self.post_order();
        let reversed = reverse_blocks(&post);
        proof {
            let r = reversed@;
            if self.acyclic() {
                assert forall|k: int, y: MirBlockId|
                    0 <= k < r.len() && #[trigger] self.succs(r[k]).contains(y) implies r.subrange(k + 1, r.len() as int).contains(y) by {
                    let pk = post@.len() - 1 - k;
                    assert(r[k] == post@[pk]);
                    assert(self.succs(post@[pk]).contains(y));
                    assert(post@.subrange(0, pk).contains(y));
                    let m = choose|m: int| 0 <= m < pk && post@.subrange(0, pk)[m] == y;
                    assert(post@[m] == y);
                    let rm = post@.len() - 1 - m;
                    assert(r[rm] == y);
                    assert(r.subrange(k + 1, r.len() as int)[rm - k - 1] == y);
                }
            }
            assert(r.reverse() =~= post@) by {
                assert(post@.reverse().reverse() =~= post@);
            }
            assert(r[0] == post@.last());
            assert forall|i: int, j: int| 0 <= i < r.len() && 0 <= j < r.len() && i != j implies r[i] != r[j] by {
                assert(r[i] == post@[post@.len() - 1 - i] && r[j] == post@[post@.len() - 1 - j]);
            }
            assert forall|b: MirBlockId| r.contains(b) <==> post@.contains(b) by {
                if r.contains(b) {
                    let k = choose|k: int| 0 <= k < r.len() && r[k] == b;
                    assert(post@[post@.len() - 1 - k] == b);
                }
                if post@.contains(b) {
                    let k = choose|k: int| 0 <= k < post@.len() && post@[k] == b;
                    assert(r[post@.len() - 1 - k] == b);
                }
            }
            assert(post@.reverse() == r);
            assert(r =~= self.post_order_seq().reverse());
        }
        reversed
    }
}

/// The blocks of `v` in reverse order.
pub fn reverse_blocks(v: &Vec<MirBlockId>) -> (result: Vec<MirBlockId>)
    ensures
        result@ == v@.reverse(),
{
    let mut result: Vec<MirBlockId> = Vec::new();
    let mut i: usize = v.len();
    while i > 0
        invariant
            i <= v@.len(),
            result@ == v@.subrange(i as int, v@.len() as int).reverse(),
        decreases i,
    {
        i = i - 1;
        result.push(v[i]);
        assert(result@ =~= v@.subrange(i as int, v@.len() as int).reverse());
    }
    assert(v@.subrange(0, v@.len() as int) =~= v@);
    result
}

/// The ids of `v` increase strictly along it.
pub open spec fn strictly_sorted(v: Seq<MirBlockId>) -> bool {
    forall|i: int, j: int| 0 <= i < j < v.len() ==> v[i].0 < v[j].0
}

pub proof fn lemma_sorted_distinct(v: Seq<MirBlockId>)
    requires
        strictly_sorted(v),
    ensures
        v.no_duplicates(),
{
    assert forall|i: int, j: int| 0 <= i < v.len() && 0 <= j < v.len() && i != j implies v[i] != v[j] by {
        if i < j {
            assert(v[i].0 < v[j].0);
        } else {
            assert(v[j].0 < v[i].0);
        }
    }
}

/// Two strictly sorted lists of the same blocks are the same list.
pub proof fn lemma_sorted_unique(a: Seq<MirBlockId>, b: Seq<MirBlockId>)
    requires
        strictly_sorted(a),
        strictly_sorted(b),
        forall|x: MirBlockId| a.contains(x) <==> b.contains(x),
    ensures
        a == b,
    decreases a.len(),
{
    if a.len() == 0 {
        if b.len() > 0 {
            assert(b.contains(b[0]));
        }
        assert(a =~= b);
    } else {
        assert(a.contains(a[0]));
        assert(b.len() > 0);
        assert(b.contains(b[0]));
        let k = choose|k: int| 0 <= k < b.len() && b[k] == a[0];
        let m = choose|m: int| 0 <= m < a.len() && a[m] == b[0];
        assert(a[0].0 <= a[m].0);
        assert(b[0].0 <= b[k].0);
        assert(a[0] == b[0]);
        let ta = a.drop_first();
        let tb = b.drop_first();
        assert forall|x: MirBlockId| ta.contains(x) <==> tb.contains(x) by {
            if ta.contains(x) {
                let i = choose|i: int| 0 <= i < ta.len() && ta[i] == x;
                assert(a[i + 1] == x);
                assert(a[0].0 < x.0);
                assert(b.contains(x));
                let j = choose|j: int| 0 <= j < b.len() && b[j] == x;
                assert(j != 0);
                assert(tb[j - 1] == x);
            }
            if tb.contains(x) {
                let i = choose|i: int| 0 <= i < tb.len() && tb[i] == x;
                assert(b[i + 1] == x);
                assert(b[0].0 < x.0);
                assert(a.contains(x));
                let j = choose|j: int| 0 <= j < a.len() && a[j] == x;
                assert(j != 0);
                assert(ta[j - 1] == x);
            }
        }
        lemma_sorted_unique(ta, tb);
        assert(a =~= seq![a[0]] + ta);
        assert(b =~= seq![b[0]] + tb);
    }
}

/// The blocks of `g` marked reachable, ordered by id.
pub open spec fn reachable_ids(g: MirControlFlowGraph) -> Seq<MirBlockId> {
    choose|s: Seq<MirBlockId>| strictly_sorted(s) && forall|x: MirBlockId| s.contains(x) <==> g.marked_reachable(x)
}

/// The blocks of `v` ordered by id.
pub fn sort_blocks(v: &Vec<MirBlockId>) -> (result: Vec<MirBlockId>)
    requires
        v@.no_duplicates(),
    ensures
        strictly_sorted(result@),
        same_blocks(result@, v@),
{
    let mut result: Vec<MirBlockId> = Vec::new();
    let mut k: usize = 0;
    while k < v.len()
        invariant
            k <= v@.len(),
            v@.no_duplicates(),
            strictly_sorted(result@),
            result@.len() == k,
            forall|x: MirBlockId| result@.contains(x) <==> v@.subrange(0, k as int).contains(x),
        decreases v.len() - k,
    {
        let x = v[k];
        let mut p: usize = 0;
        while p < result.len() && result[p].0 < x.0
            invariant
                p <= result@.len(),
                forall|i: int| 0 <= i < p ==> result@[i].0 < x.0,
            decreases result.len() - p,
        {
            p = p + 1;
        }
        let ghost before = result@;
        proof {
            assert forall|i: int| 0 <= i < before.len() implies before[i].0 != x.0 by {
                assert(v@.subrange(0, k as int).contains(before[i])) by {
                    assert(before.contains(before[i]));
                }
                let m = choose|m: int| 0 <= m < k && v@.subrange(0, k as int)[m] == before[i];
                assert(v@[m] == before[i]);
                if before[i].0 == x.0 {
                    assert(before[i] == x);
                    assert(v@[m] == v@[k as int]);
                }
            }
        }
        result.insert(p, x);
        proof {
            let r = result@;
            assert(r == before.insert(p as int, x));
            assert forall|i: int, j: int| 0 <= i < j < r.len() implies r[i].0 < r[j].0 by {
                if j < p {
                    assert(r[i] == before[i] && r[j] == before[j]);
                } else if j == p {
                    assert(r[i] == before[i]);
                } else if i < p {
                    assert(r[i] == before[i] && r[j] == before[j - 1]);
                    if p < before.len() {
                        assert(before[p as int].0 >= x.0);
                        assert(before[p as int].0 != x.0);
                    }
                    if j - 1 > p {
                        assert(before[p as int].0 < before[j - 1].0);
                    }
                } else if i == p {
                    assert(r[j] == before[j - 1]);
                    assert(before[p as int].0 >= x.0 && before[p as int].0 != x.0);
                    if j - 1 > p {
                        assert(before[p as int].0 < before[j - 1].0);
                    }
                } else {
                    assert(r[i] == before[i - 1] && r[j] == before[j - 1]);
                }
            }
            let nxt = v@.subrange(0, k + 1);
            assert(nxt =~= v@.subrange(0, k as int).push(x));
            assert forall|y: MirBlockId| r.contains(y) <==> nxt.contains(y) by {
                if r.contains(y) {
                    let m = choose|m: int| 0 <= m < r.len() && r[m] == y;
                    if m < p {
                        assert(before[m] == y);
                        assert(before.contains(y));
                    } else if m > p {
                        assert(before[m - 1] == y);
                        assert(before.contains(y));
                    }
                    if y != x {
                        assert(v@.subrange(0, k as int).contains(y));
                        let n = choose|n: int| 0 <= n < k && v@.subrange(0, k as int)[n] == y;
                        assert(nxt[n] == y);
                    } else {
                        assert(nxt[k as int] == y);
                    }
                }
                if nxt.contains(y) {
                    let n = choose|n: int| 0 <= n < k + 1 && nxt[n] == y;
                    if n < k {
                        assert(v@.subrange(0, k as int)[n] == y);
                        assert(before.contains(y));
                        let m = choose|m: int| 0 <= m < before.len() && before[m] == y;
                        if m < p {
                            assert(r[m] == y);
                        } else {
                            assert(r[m + 1] == y);
                        }
                    } else {
                        assert(r[p as int] == y);
                    }
                }
            }
        }
        k = k + 1;
    }
    proof {
        assert(v@.subrange(0, v@.len() as int) =~= v@);
        lemma_sorted_distinct(result@);
    }
    result
}

impl MirControlFlowGraph {
    /// The ids of all nodes, ordered by id.
    fn ordered_blocks(&self) -> (result: Vec<MirBlockId>)
        requires
            self.wf(),
        ensures
            strictly_sorted(result@),
            forall|x: MirBlockId| result@.contains(x) <==> self.has_node(x),
    {
        let mut ids: Vec<MirBlockId> = Vec::new();
        let mut i: usize = 0;
        while i < self.nodes.len()
            invariant
                i <= self.nodes@.len(),
                ids@ == self.node_ids().subrange(0, i as int),
            decreases self.nodes.len() - i,
        {
            ids.push(self.nodes[i].block_id);
            i = i + 1;
            assert(ids@ =~= self.node_ids().subrange(0, i as int));
        }
        assert(ids@ =~= self.node_ids());
        let result = sort_blocks(&ids);
        proof {
            assert forall|x: MirBlockId| result@.contains(x) <==> self.has_node(x) by {
                if ids@.contains(x) {
                    let k = choose|k: int| 0 <= k < ids@.len() && ids@[k] == x;
                    assert(self.nodes@[k].block_id == x);
                }
                if self.has_node(x) {
                    let k = choose|k: int| 0 <= k < self.nodes@.len() && #[trigger] self.nodes@[k].block_id == x;
                    assert(ids@[k] == x);
                }
            }
        }
        result
    }

    /// The blocks whose nodes carry the reachability mark `wanted`, ordered
    /// by id.
    #[verifier::spinoff_prover]
    fn marked_blocks(&self, wanted: bool) -> (result: Vec<MirBlockId>)
        requires
            self.wf(),
        ensures
            strictly_sorted(result@),
            forall|x: MirBlockId| result@.contains(x) <==>
                (self.has_node(x) && self.nodes@[self.node_index(x)].reachable == wanted),
    {
        let ordered = self.ordered_blocks();
        let mut result: Vec<MirBlockId> = Vec::new();
        let mut k: usize = 0;
        while k < ordered.len()
            invariant
                self.wf(),
                k <= ordered@.len(),
                strictly_sorted(ordered@),
                forall|x: MirBlockId| ordered@.contains(x) <==> self.has_node(x),
                forall|i: int| 0 <= i < result@.len() ==> exists|j: int| 0 <= j < k && ordered@[j] == #[trigger] result@[i],
                forall|i: int, j: int| 0 <= i < result@.len() && k <= j < ordered@.len() ==> result@[i].0 < ordered@[j].0,
                strictly_sorted(result@),
                forall|x: MirBlockId| result@.contains(x) <==>
                    (ordered@.subrange(0, k as int).contains(x) && self.nodes@[self.node_index(x)].reachable == wanted),
            decreases ordered.len() - k,
        {
            let b = ordered[k];
            assert(ordered@.contains(b));
            let n = self.find_node(b);
            let i = n.unwrap();
            let ghost before = result@;
            if self.nodes[i].reachable == wanted {
                result.push(b);
            }
            proof {
                assert(ordered@.subrange(0, k + 1) =~= ordered@.subrange(0, k as int).push(b));
                assert forall|m: int| 0 <= m < result@.len() implies exists|j: int| 0 <= j < k + 1 && ordered@[j] == #[trigger] result@[m] by {
                    if m < before.len() {
                        assert(result@[m] == before[m]);
                        let j = choose|j: int| 0 <= j < k && ordered@[j] == before[m];
                    } else {
                        assert(ordered@[k as int] == result@[m]);
                    }
                }
                assert forall|m: int, j: int| 0 <= m < result@.len() && k + 1 <= j < ordered@.len() implies result@[m].0 < ordered@[j].0 by {
                    if m < before.len() {
                        assert(result@[m] == before[m]);
                    }
                }
                assert(!before.contains(b)) by {
                    if before.contains(b) {
                        let m = choose|m: int| 0 <= m < before.len() && before[m] == b;
                        assert(result@.len() > m);
                        let j = choose|j: int| 0 <= j < k && ordered@[j] == #[trigger] before[m];
                        assert(ordered@[j].0 < ordered@[k as int].0);
                    }
                }
                let nxt = ordered@.subrange(0, k + 1);
                assert forall|x: MirBlockId| result@.contains(x) <==>
                    (nxt.contains(x) && self.nodes@[self.node_index(x)].reachable == wanted) by {
                    if x == b {
                        assert(nxt[k as int] == b);
                        if self.nodes@[self.node_index(x)].reachable == wanted {
                            assert(result@[before.len() as int] == b);
                        } else {
                            assert(result@ == before);
                        }
                    } else {
                        if result@.contains(x) {
                            let m = choose|m: int| 0 <= m < result@.len() && result@[m] == x;
                            assert(before[m] == x);
                            assert(before.contains(x));
                            let n = choose|n: int| 0 <= n < k && ordered@.subrange(0, k as int)[n] == x;
                            assert(nxt[n] == x);
                        }
                        if nxt.contains(x) && self.nodes@[self.node_index(x)].reachable == wanted {
                            let n = choose|n: int| 0 <= n < k + 1 && nxt[n] == x;
                            assert(ordered@.subrange(0, k as int)[n] == x);
                            assert(before.contains(x));
                            let m = choose|m: int| 0 <= m < before.len() && before[m] == x;
                            assert(result@[m] == x);
                        }
                    }
                }
                assert forall|x: MirBlockId| result@.contains(x) <==>
                    (ordered@.subrange(0, (k + 1) as int).contains(x) && self.nodes@[self.node_index(x)].reachable == wanted) by {
                    assert(nxt =~= ordered@.subrange(0, (k + 1) as int));
                    assert(result@.contains(x) <==> (nxt.contains(x) && self.nodes@[self.node_index(x)].reachable == wanted));
                }
            }
            k = k + 1;
        }
        assert(ordered@.subrange(0, ordered@.len() as int) =~= ordered@);
        result
    }

    /// The blocks marked reachable, ordered by id.
    #[verifier::spinoff_prover]
    pub fn reachable_blocks(&self) -> (result: Vec<MirBlockId>)
        requires
            self.wf(),
        ensures
            strictly_sorted(result@),
            forall|x: MirBlockId| result@.contains(x) <==> self.marked_reachable(x),
    {
        let result = self.marked_blocks(true);
        assert forall|x: MirBlockId| result@.contains(x) <==> self.marked_reachable(x) by {
            assert(result@.contains(x) <==> (self.has_node(x) && self.nodes@[self.node_index(x)].reachable == true));
        }
        result
    }

    /// The blocks with a node not marked reachable, ordered by id.
    #[verifier::spinoff_prover]
    pub fn unreachable_blocks(&self) -> (result: Vec<MirBlockId>)
        requires
            self.wf(),
        ensures
            strictly_sorted(result@),
            forall|x: MirBlockId| result@.contains(x) <==> (self.has_node(x) && !self.marked_reachable(x)),
    {
        let result = self.marked_blocks(false);
        assert forall|x: MirBlockId| result@.contains(x) <==> (self.has_node(x) && !self.marked_reachable(x)) by {
            assert(result@.contains(x) <==> (self.has_node(x) && self.nodes@[self.node_index(x)].reachable == false));
        }
        result
    }
}


impl MirControlFlowGraph {
    /// The reachable and the unreachable blocks split the graph's nodes:
    /// no block is in both lists, every node is in one of them, and the two
    /// lists together are exactly as long as the node list.
    pub proof fn lemma_reachable_unreachable_partition(self, r: Seq<MirBlockId>, u: Seq<MirBlockId>)
        requires
            self.wf(),
            strictly_sorted(r),
            strictly_sorted(u),
            forall|x: MirBlockId| r.contains(x) <==> self.marked_reachable(x),
            forall|x: MirBlockId| u.contains(x) <==> (self.has_node(x) && !self.marked_reachable(x)),
        ensures
            forall|x: MirBlockId| !(r.contains(x) && u.contains(x)),
            forall|x: MirBlockId| (r.contains(x) || u.contains(x)) <==> self.has_node(x),
            r.len() + u.len() == self.nodes@.len(),
    {
        lemma_sorted_distinct(r);
        lemma_sorted_distinct(u);
        r.unique_seq_to_set();
        u.unique_seq_to_set();
        let ids = self.node_ids();
        ids.unique_seq_to_set();
        assert forall|x: MirBlockId| ids.to_set().contains(x) <==> self.has_node(x) by {
            if self.has_node(x) {
                let i = choose|i: int| 0 <= i < self.nodes@.len() && #[trigger] self.nodes@[i].block_id == x;
                assert(ids[i] == x);
            }
            if ids.to_set().contains(x) {
                assert(ids.contains(x));
                let i = choose|i: int| 0 <= i < ids.len() && ids[i] == x;
                assert(self.nodes@[i].block_id == x);
            }
        }
        assert(r.to_set().disjoint(u.to_set()));
        assert(r.to_set().union(u.to_set()) =~= ids.to_set());
        vstd::set_lib::lemma_set_disjoint_lens(r.to_set(), u.to_set());
    }
}


impl MirControlFlowGraph {
    /// A graph built from blocks with distinct ids has no edge problem: the
    /// only thing `validate` can report about it is each predecessor of the
    /// entry block (an edge back to the entry).
    pub proof fn lemma_built_validates(self, blocks: Seq<MirBasicBlock>)
        requires
            self.shaped_by(blocks, self.entry),
            block_ids(blocks).no_duplicates(),
            block_ids(blocks).contains(self.entry),
        ensures
            self.validation_errors() == self.preds(self.entry).map_values(
                |p: MirBlockId| MirCfgValidationError::EntryHasPredecessor { entry: self.entry, predecessor: p },
            ),
    {
        let ids = block_ids(blocks);
        assert(self.has_node(self.entry));
        assert forall|k: nat| k <= self.edges@.len() implies #[trigger] self.edges_errors(k) == Seq::<MirCfgValidationError>::empty() by {
            self.lemma_no_edge_errors(blocks, k);
        }
        assert(self.edges_errors(self.edges@.len()) == Seq::<MirCfgValidationError>::empty());
        let tail = self.preds(self.entry).map_values(
            |p: MirBlockId| MirCfgValidationError::EntryHasPredecessor { entry: self.entry, predecessor: p },
        );
        assert(Seq::<MirCfgValidationError>::empty() + Seq::<MirCfgValidationError>::empty() + tail =~= tail);
    }

    proof fn lemma_no_edge_errors(self, blocks: Seq<MirBasicBlock>, k: nat)
        requires
            self.shaped_by(blocks, self.entry),
            block_ids(blocks).no_duplicates(),
            k <= self.edges@.len(),
        ensures
            self.edges_errors(k) == Seq::<MirCfgValidationError>::empty(),
        decreases k,
    {
        if k > 0 {
            self.lemma_no_edge_errors(blocks, (k - 1) as nat);
            let ids = block_ids(blocks);
            let m = k - 1;
            let e = self.edges@[m];
            let j = lemma_edge_origin(blocks, ids, m);
            assert(ids[j] == blocks[j].id);
            assert(ids.contains(e.source));
            assert(self.has_node(e.source) && self.has_node(e.target));
            lemma_unique_last(blocks, j);
            assert(self.succs(blocks[j].id) == block_successors(blocks[j].terminator));
            assert(self.succs(e.source).contains(e.target));
            assert(self.edges@[m].source == e.source && self.edges@[m].target == e.target);
            assert(self.preds(e.target).contains(e.source));
            assert(self.edge_errors(e) =~= Seq::<MirCfgValidationError>::empty());
            assert(self.edges_errors(k) =~= Seq::<MirCfgValidationError>::empty());
        }
    }
}


/// What `build` gives for a function whose blocks have distinct ids passes
/// `validate`, except for the predecessors of the entry block.
pub proof fn lemma_build_validates(function: MirFunction, g: MirControlFlowGraph)
    requires
        built_from(function, Some(g)),
        block_ids(function.blocks@).no_duplicates(),
    ensures
        g.validation_errors() == g.preds(g.entry).map_values(
            |p: MirBlockId| MirCfgValidationError::EntryHasPredecessor { entry: g.entry, predecessor: p },
        ),
{
    let k = function.entry_block.unwrap() as int;
    assert(block_ids(function.blocks@)[k] == function.blocks@[k].id);
    g.lemma_built_validates(function.blocks@);
}

/// The position of `b` in `r` (meaningful when `r` holds `b`).
pub open spec fn pos(r: Seq<MirBlockId>, b: MirBlockId) -> int {
    choose|i: int| 0 <= i < r.len() && r[i] == b
}

pub proof fn lemma_pos(r: Seq<MirBlockId>, i: int)
    requires
        r.no_duplicates(),
        0 <= i < r.len(),
    ensures
        pos(r, r[i]) == i,
{
    let j = pos(r, r[i]);
    assert(0 <= j < r.len() && r[j] == r[i]);
}

/// The sets held by a table of block lists.
pub open spec fn block_sets(doms: Seq<Vec<MirBlockId>>) -> Seq<Set<MirBlockId>> {
    doms.map_values(|v: Vec<MirBlockId>| v@.to_set())
}

/// The summed lengths of a table of block lists.
pub open spec fn total_len(doms: Seq<Vec<MirBlockId>>) -> nat
    decreases doms.len(),
{
    if doms.len() == 0 {
        0
    } else {
        total_len(doms.drop_last()) + doms.last()@.len()
    }
}

proof fn lemma_total_len_update(doms: Seq<Vec<MirBlockId>>, i: int, v: Vec<MirBlockId>)
    requires
        0 <= i < doms.len(),
    ensures
        total_len(doms.update(i, v)) == total_len(doms) - doms[i]@.len() + v@.len(),
    decreases doms.len(),
{
    if i == doms.len() - 1 {
        assert(doms.update(i, v).drop_last() =~= doms.drop_last());
    } else {
        lemma_total_len_update(doms.drop_last(), i, v);
        assert(doms.update(i, v).drop_last() =~= doms.drop_last().update(i, v));
    }
}

/// Every set of `x` holds only blocks of `r`, one set per block of `r`.
pub open spec fn dom_within(r: Seq<MirBlockId>, x: Seq<Set<MirBlockId>>) -> bool {
    &&& x.len() == r.len()
    &&& forall|i: int| 0 <= i < r.len() ==> #[trigger] x[i].subset_of(r.to_set())
}

/// Each set of `y` lies inside the set of `x` at the same position.
pub open spec fn dom_below(y: Seq<Set<MirBlockId>>, x: Seq<Set<MirBlockId>>) -> bool {
    &&& y.len() == x.len()
    &&& forall|i: int| 0 <= i < x.len() ==> #[trigger] y[i].subset_of(x[i])
}

/// The blocks of a list, each once.
pub fn copy_blocks(v: &Vec<MirBlockId>) -> (result: Vec<MirBlockId>)
    ensures
        result@ == v@,
{
    let mut result: Vec<MirBlockId> = Vec::new();
    let mut i: usize = 0;
    while i < v.len()
        invariant
            i <= v@.len(),
            result@ == v@.subrange(0, i as int),
        decreases v.len() - i,
    {
        result.push(v[i]);
        i = i + 1;
        assert(result@ =~= v@.subrange(0, i as int));
    }
    assert(v@.subrange(0, v@.len() as int) =~= v@);
    result
}

/// Where `b` sits in `r`.
pub fn position_of(r: &Vec<MirBlockId>, b: MirBlockId) -> (result: Option<usize>)
    requires
        r@.no_duplicates(),
    ensures
        match result {
            Some(i) => i < r@.len() && r@[i as int] == b && pos(r@, b) == i,
            None => !r@.contains(b),
        },
{
    let mut i: usize = 0;
    while i < r.len()
        invariant
            i <= r@.len(),
            r@.no_duplicates(),
            forall|k: int| 0 <= k < i ==> r@[k] != b,
        decreases r.len() - i,
    {
        if r[i] == b {
            proof {
                lemma_pos(r@, i as int);
            }
            return Some(i);
        }
        i = i + 1;
    }
    None
}

/// The blocks of `a` that also occur in `b`, in the order of `a`.
pub fn intersect_blocks(a: &Vec<MirBlockId>, b: &Vec<MirBlockId>) -> (result: Vec<MirBlockId>)
    requires
        a@.no_duplicates(),
    ensures
        result@.no_duplicates(),
        forall|x: MirBlockId| result@.contains(x) <==> (a@.contains(x) && b@.contains(x)),
{
    let mut result: Vec<MirBlockId> = Vec::new();
    let mut i: usize = 0;
    while i < a.len()
        invariant
            i <= a@.len(),
            a@.no_duplicates(),
            result@.no_duplicates(),
            forall|x: MirBlockId| result@.contains(x) <==> (a@.subrange(0, i as int).contains(x) && b@.contains(x)),
        decreases a.len() - i,
    {
        let x = a[i];
        let ghost before = result@;
        let ghost pre = a@.subrange(0, i as int);
        let ghost nxt = a@.subrange(0, i + 1);
        proof {
            assert(nxt =~= pre.push(x));
            assert(!pre.contains(x)) by {
                if pre.contains(x) {
                    let k = choose|k: int| 0 <= k < pre.len() && pre[k] == x;
                    assert(a@[k] == a@[i as int]);
                }
            }
        }
        if contains_block(b, x) {
            result.push(x);
            proof {
                lemma_concat_distinct(before, seq![x]);
                assert(before + seq![x] =~= result@);
            }
        }
        proof {
            assert forall|y: MirBlockId| result@.contains(y) <==> (nxt.contains(y) && b@.contains(y)) by {
                if result@.contains(y) && y != x {
                    let k = choose|k: int| 0 <= k < result@.len() && result@[k] == y;
                    assert(before[k] == y);
                    assert(before.contains(y));
                }
                if nxt.contains(y) && y != x {
                    let k = choose|k: int| 0 <= k < nxt.len() && nxt[k] == y;
                    assert(pre[k] == y);
                }
                if before.contains(y) {
                    let k = choose|k: int| 0 <= k < before.len() && before[k] == y;
                    assert(result@[k] == y);
                }
                if y == x && b@.contains(y) {
                    assert(result@[before.len() as int] == x);
                }
                if y == x {
                    assert(nxt[i as int] == x);
                }
            }
        }
        i = i + 1;
    }
    assert(a@.subrange(0, a@.len() as int) =~= a@);
    result
}

/// Two lists without repeats whose sets are nested have the same sets
/// exactly when they have the same length, and the inner one is shorter
/// otherwise.
pub proof fn lemma_nested_lists(a: Seq<MirBlockId>, b: Seq<MirBlockId>)
    requires
        a.no_duplicates(),
        b.no_duplicates(),
        a.to_set().subset_of(b.to_set()),
    ensures
        a.len() <= b.len(),
        (a.len() == b.len()) <==> (a.to_set() == b.to_set()),
{
    a.unique_seq_to_set();
    b.unique_seq_to_set();
    vstd::set_lib::lemma_len_subset(a.to_set(), b.to_set());
    if a.len() == b.len() {
        vstd::set_lib::lemma_subset_equality(a.to_set(), b.to_set());
    }
}

impl MirControlFlowGraph {
    /// The dominator equation at block `b`, over the blocks `r` and the
    /// current sets `x` (one per block of `r`): the entry is dominated by
    /// itself alone; any other block by itself and by every block that
    /// dominates all of its predecessors in `r`.
    pub open spec fn dom_step(self, r: Seq<MirBlockId>, x: Seq<Set<MirBlockId>>, b: MirBlockId) -> Set<MirBlockId> {
        if b == self.entry {
            set![self.entry]
        } else if !(exists|p: MirBlockId| #[trigger] self.preds(b).contains(p) && r.contains(p)) {
            set![b]
        } else {
            Set::new(
                |d: MirBlockId|
                    forall|p: MirBlockId| #[trigger] self.preds(b).contains(p) && r.contains(p) ==> x[pos(r, p)].contains(d),
            ).insert(b)
        }
    }

    /// `x` solves the dominator equations over `r`.
    pub open spec fn dom_fixpoint(self, r: Seq<MirBlockId>, x: Seq<Set<MirBlockId>>) -> bool {
        &&& x.len() == r.len()
        &&& forall|i: int| 0 <= i < r.len() ==> #[trigger] x[i] == self.dom_step(r, x, r[i])
    }

    /// Every solution of the dominator equations over `r` lies inside `x`.
    pub open spec fn dom_greatest(self, r: Seq<MirBlockId>, x: Seq<Set<MirBlockId>>) -> bool {
        forall|y: Seq<Set<MirBlockId>>| #[trigger] self.dom_fixpoint(r, y) && dom_within(r, y) ==> dom_below(y, x)
    }

    /// Shrinking the sets shrinks what the equations give.
    pub proof fn lemma_dom_step_monotone(self, r: Seq<MirBlockId>, y: Seq<Set<MirBlockId>>, x: Seq<Set<MirBlockId>>, b: MirBlockId)
        requires
            dom_below(y, x),
            x.len() == r.len(),
        ensures
            self.dom_step(r, y, b).subset_of(self.dom_step(r, x, b)),
    {
        if b != self.entry && (exists|p: MirBlockId| #[trigger] self.preds(b).contains(p) && r.contains(p)) {
            assert forall|d: MirBlockId| self.dom_step(r, y, b).contains(d) implies self.dom_step(r, x, b).contains(d) by {
                if d != b {
                    assert forall|p: MirBlockId| #[trigger] self.preds(b).contains(p) && r.contains(p) implies x[pos(r, p)].contains(d) by {
                        assert(y[pos(r, p)].contains(d));
                        let i = pos(r, p);
                        assert(0 <= i < r.len());
                        assert(y[i].subset_of(x[i]));
                    }
                }
            }
        }
    }

    /// The dominator equation at `b`, computed from the current table.
    fn dominator_step(&self, r: &Vec<MirBlockId>, doms: &Vec<Vec<MirBlockId>>, b: MirBlockId) -> (result: Vec<MirBlockId>)
        requires
            self.wf(),
            b != self.entry,
            r@.no_duplicates(),
            doms@.len() == r@.len(),
            forall|i: int| 0 <= i < doms@.len() ==> (#[trigger] doms@[i])@.no_duplicates(),
        ensures
            result@.no_duplicates(),
            result@.to_set() == self.dom_step(r@, block_sets(doms@), b),
    {
        let ghost x = block_sets(doms@);
        let ghost meet = Set::new(
            |d: MirBlockId|
                forall|p: MirBlockId| #[trigger] self.preds(b).contains(p) && r@.contains(p) ==> x[pos(r@, p)].contains(d),
        );
        let mut cur: Vec<MirBlockId> = Vec::new();
        let mut first = true;
        let node = self.find_node(b);
        if let Some(n) = node {
            let preds = &self.nodes[n].predecessors;
            assert(preds@ == self.preds(b));
            let mut k: usize = 0;
            while k < preds.len()
                invariant
                    r@.no_duplicates(),
                    doms@.len() == r@.len(),
                    forall|i: int| 0 <= i < doms@.len() ==> (#[trigger] doms@[i])@.no_duplicates(),
                    x == block_sets(doms@),
                    k <= preds@.len(),
                    cur@.no_duplicates(),
                    first ==> forall|j: int| 0 <= j < k ==> !r@.contains(#[trigger] preds@[j]),
                    !first ==> exists|j: int| 0 <= j < k && r@.contains(#[trigger] preds@[j]),
                    !first ==> forall|d: MirBlockId| cur@.contains(d) <==>
                        (forall|j: int| 0 <= j < k && r@.contains(#[trigger] preds@[j]) ==> x[pos(r@, preds@[j])].contains(d)),
                decreases preds.len() - k,
            {
                let p = preds[k];
                match position_of(r, p) {
                    Some(ip) => {
                        assert(x[ip as int] == doms@[ip as int]@.to_set());
                        if first {
                            cur = copy_blocks(&doms[ip]);
                            first = false;
                            proof {
                                assert forall|d: MirBlockId| cur@.contains(d) <==>
                                    (forall|j: int| 0 <= j < k + 1 && r@.contains(#[trigger] preds@[j]) ==> x[pos(r@, preds@[j])].contains(d)) by {
                                    if cur@.contains(d) {
                                        assert forall|j: int| 0 <= j < k + 1 && r@.contains(#[trigger] preds@[j]) implies x[pos(r@, preds@[j])].contains(d) by {
                                            assert(j == k);
                                        }
                                    }
                                    if forall|j: int| 0 <= j < k + 1 && r@.contains(#[trigger] preds@[j]) ==> x[pos(r@, preds@[j])].contains(d) {
                                        assert(r@.contains(preds@[k as int]));
                                    }
                                }
                                assert(r@.contains(preds@[k as int]));
                            }
                        } else {
                            let ghost before = cur@;
                            cur = intersect_blocks(&cur, &doms[ip]);
                            proof {
                                assert forall|d: MirBlockId| cur@.contains(d) <==>
                                    (forall|j: int| 0 <= j < k + 1 && r@.contains(#[trigger] preds@[j]) ==> x[pos(r@, preds@[j])].contains(d)) by {
                                    assert(r@.contains(preds@[k as int]));
                                }
                            }
                        }
                    },
                    None => {
                        proof {
                            if !first {
                                assert forall|d: MirBlockId| cur@.contains(d) <==>
                                    (forall|j: int| 0 <= j < k + 1 && r@.contains(#[trigger] preds@[j]) ==> x[pos(r@, preds@[j])].contains(d)) by {
                                    assert(!r@.contains(preds@[k as int]));
                                }
                            }
                        }
                    },
                }
                k = k + 1;
            }
            proof {
                let step = self.dom_step(r@, x, b);
                if first {
                    assert(!(exists|p: MirBlockId| #[trigger] self.preds(b).contains(p) && r@.contains(p))) by {
                        if exists|p: MirBlockId| #[trigger] self.preds(b).contains(p) && r@.contains(p) {
                            let p = choose|p: MirBlockId| #[trigger] self.preds(b).contains(p) && r@.contains(p);
                            let j = choose|j: int| 0 <= j < preds@.len() && preds@[j] == p;
                            assert(!r@.contains(preds@[j]));
                        }
                    }
                } else {
                    let j0 = choose|j: int| 0 <= j < k && r@.contains(#[trigger] preds@[j]);
                    assert(self.preds(b).contains(preds@[j0]));
                    assert forall|d: MirBlockId| cur@.contains(d) <==>
                        (forall|p: MirBlockId| #[trigger] self.preds(b).contains(p) && r@.contains(p) ==> x[pos(r@, p)].contains(d)) by {
                        if cur@.contains(d) {
                            assert forall|p: MirBlockId| #[trigger] self.preds(b).contains(p) && r@.contains(p) implies x[pos(r@, p)].contains(d) by {
                                let j = choose|j: int| 0 <= j < preds@.len() && preds@[j] == p;
                                assert(r@.contains(preds@[j]));
                            }
                        }
                        if forall|p: MirBlockId| #[trigger] self.preds(b).contains(p) && r@.contains(p) ==> x[pos(r@, p)].contains(d) {
                            assert forall|j: int| 0 <= j < k && r@.contains(#[trigger] preds@[j]) implies x[pos(r@, preds@[j])].contains(d) by {
                                assert(self.preds(b).contains(preds@[j]));
                            }
                        }
                    }
                    assert(self.preds(b).contains(preds@[j0]) && r@.contains(preds@[j0]));
                    assert(forall|d: MirBlockId| cur@.contains(d) <==> meet.contains(d));
                    assert(self.dom_step(r@, x, b) == meet.insert(b));
                }
            }
        } else {
            proof {
                assert(self.preds(b) =~= Seq::<MirBlockId>::empty());
                assert(!(exists|p: MirBlockId| #[trigger] self.preds(b).contains(p) && r@.contains(p)));
            }
        }
        if first {
            cur = Vec::new();
            cur.push(b);
            proof {
                assert forall|d: MirBlockId| cur@.contains(d) <==> d == b by {
                    if d == b {
                        assert(cur@[0] == b);
                    }
                }
                assert(cur@.to_set() =~= set![b]);
            }
        } else {
            let ghost before = cur@;
            if !contains_block(&cur, b) {
                cur.push(b);
                proof {
                    lemma_concat_distinct(before, seq![b]);
                    assert(before + seq![b] =~= cur@);
                }
            }
            proof {
                assert(self.dom_step(r@, x, b) == meet.insert(b));
                assert(forall|d: MirBlockId| before.contains(d) <==> meet.contains(d));
                assert(cur@.to_set() =~= self.dom_step(r@, x, b)) by {
                    assert forall|d: MirBlockId| cur@.contains(d) <==> (before.contains(d) || d == b) by {
                        if cur@.contains(d) && d != b {
                            let k = choose|k: int| 0 <= k < cur@.len() && cur@[k] == d;
                            assert(before[k] == d);
                        }
                        if before.contains(d) {
                            let k = choose|k: int| 0 <= k < before.len() && before[k] == d;
                            assert(cur@[k] == d);
                        }
                        if d == b && !before.contains(b) {
                            assert(cur@[before.len() as int] == b);
                        }
                    }
                }
            }
        }
        cur
    }
}

impl MirControlFlowGraph {
    /// The successor and predecessor lists agree with each other: `y` lists
    /// `x` as a predecessor exactly when `x` lists `y` as a successor.
    pub open spec fn preds_consistent(self) -> bool {
        &&& forall|x: MirBlockId, y: MirBlockId| self.has_node(y) && #[trigger] self.succs(x).contains(y) ==> self.preds(y).contains(x)
        &&& forall|x: MirBlockId, y: MirBlockId| #[trigger] self.preds(y).contains(x) ==> self.succs(x).contains(y)
    }

    /// The reachability marks are exactly the blocks some walk reaches.
    pub open spec fn marks_match(self) -> bool {
        forall|b: MirBlockId| #[trigger] self.marked_reachable(b) <==> (self.has_node(b) && self.reaches(b))
    }

    /// `d` dominates `b`: `d` is marked reachable and every walk from the
    /// entry to `b` passes through `d`.
    pub open spec fn dominates(self, d: MirBlockId, b: MirBlockId) -> bool {
        &&& self.marked_reachable(d)
        &&& forall|w: Seq<MirBlockId>| #[trigger] self.is_walk(w) && w.last() == b ==> w.contains(d)
    }

    proof fn lemma_walk_drop_last(self, w: Seq<MirBlockId>)
        requires
            self.is_walk(w),
            w.len() >= 2,
        ensures
            self.is_walk(w.drop_last()),
            self.succs(w[w.len() - 2]).contains(w.last()),
            self.reaches(w[w.len() - 2]),
            self.has_node(w[w.len() - 2]),
    {
        let v = w.drop_last();
        assert forall|k: int| 0 <= k < v.len() - 1 implies #[trigger] self.succs(v[k]).contains(v[k + 1]) by {
            assert(self.succs(w[k]).contains(w[k + 1]));
        }
        assert(self.succs(w[w.len() - 2]).contains(w[w.len() - 2 + 1]));
        assert(self.is_walk(v) && v.last() == w[w.len() - 2]);
    }

    proof fn lemma_walk_push(self, w: Seq<MirBlockId>, b: MirBlockId)
        requires
            self.is_walk(w),
            self.succs(w.last()).contains(b),
        ensures
            self.is_walk(w.push(b)),
    {
        let v = w.push(b);
        assert forall|k: int| 0 <= k < v.len() - 1 implies #[trigger] self.succs(v[k]).contains(v[k + 1]) by {
            if k < w.len() - 1 {
                assert(v[k] == w[k] && v[k + 1] == w[k + 1]);
            } else {
                assert(v[k] == w.last() && v[k + 1] == b);
            }
        }
    }

    /// The block before the last on a walk to `b` (not the entry) is a
    /// marked predecessor of `b`.
    proof fn lemma_walk_penultimate(self, r: Seq<MirBlockId>, w: Seq<MirBlockId>)
        requires
            self.preds_consistent(),
            self.marks_match(),
            forall|x: MirBlockId| r.contains(x) <==> self.marked_reachable(x),
            self.is_walk(w),
            self.has_node(w.last()),
            w.last() != self.entry,
        ensures
            w.len() >= 2,
            self.preds(w.last()).contains(w[w.len() - 2]),
            r.contains(w[w.len() - 2]),
            self.is_walk(w.drop_last()),
    {
        if w.len() == 1 {
            assert(w.last() == w[0]);
        }
        self.lemma_walk_drop_last(w);
        let p = w[w.len() - 2];
        assert(self.marked_reachable(p));
    }

    /// A solution of the dominator equations only names blocks that lie on
    /// every walk.
    proof fn lemma_fixpoint_sound(self, r: Seq<MirBlockId>, x: Seq<Set<MirBlockId>>, w: Seq<MirBlockId>, d: MirBlockId)
        requires
            self.preds_consistent(),
            self.marks_match(),
            r.no_duplicates(),
            forall|b: MirBlockId| r.contains(b) <==> self.marked_reachable(b),
            self.dom_fixpoint(r, x),
            self.is_walk(w),
            r.contains(w.last()),
            x[pos(r, w.last())].contains(d),
        ensures
            w.contains(d),
        decreases w.len(),
    {
        let b = w.last();
        let i = pos(r, b);
        assert(x[i] == self.dom_step(r, x, r[i]));
        assert(self.marked_reachable(b));
        if b == self.entry {
            assert(d == self.entry);
            assert(w[0] == d);
        } else if d == b {
            assert(w[w.len() - 1] == d);
        } else {
            self.lemma_walk_penultimate(r, w);
            let p = w[w.len() - 2];
            assert(self.preds(b).contains(p) && r.contains(p));
            assert(x[pos(r, p)].contains(d));
            assert(w.drop_last().last() == p);
            self.lemma_fixpoint_sound(r, x, w.drop_last(), d);
            let k = choose|k: int| 0 <= k < w.drop_last().len() && w.drop_last()[k] == d;
            assert(w[k] == d);
        }
    }

    /// The sets of path dominators, one per block of `r`.
    pub open spec fn path_dominators(self, r: Seq<MirBlockId>) -> Seq<Set<MirBlockId>> {
        Seq::new(r.len(), |i: int| Set::new(|d: MirBlockId| self.dominates(d, r[i])))
    }

    /// Path dominance solves the dominator equations.
    proof fn lemma_path_dominators_fixpoint(self, r: Seq<MirBlockId>)
        requires
            self.wf(),
            self.preds_consistent(),
            self.marks_match(),
            r.no_duplicates(),
            forall|b: MirBlockId| r.contains(b) <==> self.marked_reachable(b),
        ensures
            self.dom_fixpoint(r, self.path_dominators(r)),
            dom_within(r, self.path_dominators(r)),
    {
        let td = self.path_dominators(r);
        assert forall|i: int| 0 <= i < r.len() implies #[trigger] td[i].subset_of(r.to_set()) by {
            assert forall|d: MirBlockId| td[i].contains(d) implies r.to_set().contains(d) by {
                assert(self.dominates(d, r[i]));
            }
        }
        assert forall|i: int| 0 <= i < r.len() implies #[trigger] td[i] == self.dom_step(r, td, r[i]) by {
            let b = r[i];
            assert(r.contains(b));
            assert(self.marked_reachable(b));
            assert(self.has_node(b) && self.reaches(b));
            if b == self.entry {
                assert forall|d: MirBlockId| td[i].contains(d) <==> d == self.entry by {
                    if td[i].contains(d) {
                        let w = seq![self.entry];
                        assert(self.is_walk(w));
                        assert(w.contains(d));
                    }
                    if d == self.entry {
                        assert forall|w: Seq<MirBlockId>| #[trigger] self.is_walk(w) && w.last() == b implies w.contains(d) by {
                            assert(w[0] == d);
                        }
                    }
                }
                assert(td[i] =~= self.dom_step(r, td, b));
            } else {
                let w0 = choose|w: Seq<MirBlockId>| #[trigger] self.is_walk(w) && w.last() == b;
                self.lemma_walk_penultimate(r, w0);
                let p0 = w0[w0.len() - 2];
                assert(self.preds(b).contains(p0) && r.contains(p0));
                let meet = Set::new(
                    |d: MirBlockId|
                        forall|p: MirBlockId| #[trigger] self.preds(b).contains(p) && r.contains(p) ==> td[pos(r, p)].contains(d),
                );
                assert(self.dom_step(r, td, b) == meet.insert(b));
                assert forall|d: MirBlockId| td[i].contains(d) <==> (d == b || meet.contains(d)) by {
                    if td[i].contains(d) && d != b {
                        assert forall|p: MirBlockId| #[trigger] self.preds(b).contains(p) && r.contains(p) implies td[pos(r, p)].contains(d) by {
                            let j = pos(r, p);
                            assert(r[j] == p);
                            assert forall|w: Seq<MirBlockId>| #[trigger] self.is_walk(w) && w.last() == p implies w.contains(d) by {
                                assert(self.succs(p).contains(b));
                                self.lemma_walk_push(w, b);
                                assert(self.is_walk(w.push(b)) && w.push(b).last() == b);
                                assert(w.push(b).contains(d));
                                let k = choose|k: int| 0 <= k < w.push(b).len() && w.push(b)[k] == d;
                                assert(k < w.len());
                                assert(w[k] == d);
                            }
                            assert(self.dominates(d, r[j]));
                        }
                    }
                    if d == b {
                        assert forall|w: Seq<MirBlockId>| #[trigger] self.is_walk(w) && w.last() == b implies w.contains(d) by {
                            assert(w[w.len() - 1] == d);
                        }
                        assert(self.dominates(d, r[i]));
                    }
                    if d != b && meet.contains(d) {
                        assert(td[pos(r, p0)].contains(d));
                        assert(self.dominates(d, r[pos(r, p0)]));
                        assert forall|w: Seq<MirBlockId>| #[trigger] self.is_walk(w) && w.last() == b implies w.contains(d) by {
                            self.lemma_walk_penultimate(r, w);
                            let p = w[w.len() - 2];
                            assert(self.preds(b).contains(p) && r.contains(p));
                            assert(td[pos(r, p)].contains(d));
                            let j = pos(r, p);
                            assert(r[j] == p);
                            assert(self.dominates(d, p));
                            assert(self.is_walk(w.drop_last()) && w.drop_last().last() == p);
                            assert(w.drop_last().contains(d));
                            let k = choose|k: int| 0 <= k < w.drop_last().len() && w.drop_last()[k] == d;
                            assert(w[k] == d);
                        }
                        assert(self.dominates(d, r[i]));
                    }
                }
                assert(td[i] =~= self.dom_step(r, td, b));
            }
        }
    }

    /// When the predecessor lists agree with the successor lists and the
    /// marks are exactly the reachable blocks, the greatest solution of the
    /// dominator equations is path dominance.
    pub proof fn lemma_greatest_fixpoint_is_path_dominance(self, r: Seq<MirBlockId>, x: Seq<Set<MirBlockId>>)
        requires
            self.wf(),
            self.preds_consistent(),
            self.marks_match(),
            r.no_duplicates(),
            forall|b: MirBlockId| r.contains(b) <==> self.marked_reachable(b),
            dom_within(r, x),
            self.dom_fixpoint(r, x),
            self.dom_greatest(r, x),
        ensures
            forall|i: int, d: MirBlockId| 0 <= i < r.len() ==> (#[trigger] x[i].contains(d) <==> self.dominates(d, r[i])),
    {
        self.lemma_path_dominators_fixpoint(r);
        let td = self.path_dominators(r);
        assert(self.dom_fixpoint(r, td) && dom_within(r, td));
        assert(dom_below(td, x));
        assert forall|i: int, d: MirBlockId| 0 <= i < r.len() implies (#[trigger] x[i].contains(d) <==> self.dominates(d, r[i])) by {
            if self.dominates(d, r[i]) {
                assert(td[i].contains(d));
                assert(td[i].subset_of(x[i]));
            }
            if x[i].contains(d) {
                assert(x[i].subset_of(r.to_set()));
                assert(r.contains(d));
                assert forall|w: Seq<MirBlockId>| #[trigger] self.is_walk(w) && w.last() == r[i] implies w.contains(d) by {
                    lemma_pos(r, i);
                    assert(r.contains(r[i]));
                    self.lemma_fixpoint_sound(r, x, w, d);
                }
            }
        }
    }
}

/// The blocks of a dominator table, in order.
pub open spec fn dom_keys(m: Seq<(MirBlockId, Vec<MirBlockId>)>) -> Seq<MirBlockId> {
    m.map_values(|e: (MirBlockId, Vec<MirBlockId>)| e.0)
}

/// The dominator sets of a dominator table, in order.
pub open spec fn dom_sets(m: Seq<(MirBlockId, Vec<MirBlockId>)>) -> Seq<Set<MirBlockId>> {
    m.map_values(|e: (MirBlockId, Vec<MirBlockId>)| e.1@.to_set())
}

impl MirControlFlowGraph {
    /// `m` lists each block marked reachable once, ordered by id, with the
    /// blocks that dominate it: the greatest solution of the dominator
    /// equations over the marked blocks.
    pub open spec fn is_dominator_table(self, m: Seq<(MirBlockId, Vec<MirBlockId>)>) -> bool {
        &&& strictly_sorted(dom_keys(m))
        &&& forall|b: MirBlockId| dom_keys(m).contains(b) <==> self.marked_reachable(b)
        &&& forall|i: int| 0 <= i < m.len() ==> (#[trigger] m[i]).1@.no_duplicates()
        &&& dom_within(dom_keys(m), dom_sets(m))
        &&& self.dom_fixpoint(dom_keys(m), dom_sets(m))
        &&& self.dom_greatest(dom_keys(m), dom_sets(m))
    }
}

impl MirControlFlowGraph {
    /// For each block marked reachable (ordered by id), the blocks that
    /// dominate it: the greatest solution of the dominator equations over
    /// the marked blocks.
    pub fn dominators(&self) -> (result: Vec<(MirBlockId, Vec<MirBlockId>)>)
        requires
            self.wf(),
        ensures
            self.is_dominator_table(result@),
            self.preds_consistent() && self.marks_match() ==> forall|i: int, d: MirBlockId| 0 <= i < result@.len() ==>
                (#[trigger] dom_sets(result@)[i].contains(d) <==> self.dominates(d, dom_keys(result@)[i])),
    {
        let r = self.reachable_blocks();
        proof {
            lemma_sorted_distinct(r@);
        }
        let mut doms: Vec<Vec<MirBlockId>> = Vec::new();
        let mut i: usize = 0;
        while i < r.len()
            invariant
                i <= r@.len(),
                r@.no_duplicates(),
                doms@.len() == i,
                forall|j: int| 0 <= j < i ==> (#[trigger] doms@[j])@.no_duplicates(),
                forall|j: int| 0 <= j < i ==> #[trigger] block_sets(doms@)[j] == (if r@[j] == self.entry {
                    set![self.entry]
                } else {
                    r@.to_set()
                }),
            decreases r.len() - i,
        {
            let ghost before = doms@;
            if r[i] == self.entry {
                let mut only: Vec<MirBlockId> = Vec::new();
                only.push(self.entry);
                proof {
                    assert forall|d: MirBlockId| only@.contains(d) <==> d == self.entry by {
                        if d == self.entry {
                            assert(only@[0] == d);
                        }
                    }
                    assert(only@.to_set() =~= set![self.entry]);
                }
                doms.push(only);
            } else {
                doms.push(copy_blocks(&r));
            }
            proof {
                assert forall|j: int| 0 <= j < i + 1 implies #[trigger] block_sets(doms@)[j] == (if r@[j] == self.entry {
                    set![self.entry]
                } else {
                    r@.to_set()
                }) by {
                    assert(block_sets(doms@)[j] == doms@[j]@.to_set());
                    if j < i {
                        assert(doms@[j] == before[j]);
                        assert(block_sets(before)[j] == before[j]@.to_set());
                    } else {
                        assert(doms@[j]@.to_set() =~= (if r@[j] == self.entry {
                            set![self.entry]
                        } else {
                            r@.to_set()
                        }));
                    }
                }
            }
            i = i + 1;
        }
        proof {
            let x = block_sets(doms@);
            // the starting table lies above every solution, and above what the
            // equations give for it
            assert forall|k: int| 0 <= k < r@.len() implies #[trigger] self.dom_step(r@, x, r@[k]).subset_of(x[k]) by {
                if r@[k] != self.entry {
                    assert(r@.to_set().contains(r@[k]));
                    assert forall|d: MirBlockId| self.dom_step(r@, x, r@[k]).contains(d) implies x[k].contains(d) by {
                        if d != r@[k] {
                            let p = choose|p: MirBlockId| #[trigger] self.preds(r@[k]).contains(p) && r@.contains(p);
                            let ip = pos(r@, p);
                            assert(x[ip].contains(d));
                            if r@[ip] == self.entry {
                                assert(d == self.entry);
                                assert(r@.to_set().contains(self.entry));
                            } else {
                                assert(r@.to_set().contains(d));
                            }
                        }
                    }
                }
            }
            assert forall|y: Seq<Set<MirBlockId>>| #[trigger] self.dom_fixpoint(r@, y) && dom_within(r@, y) implies dom_below(y, x) by {
                assert forall|k: int| 0 <= k < x.len() implies #[trigger] y[k].subset_of(x[k]) by {
                    assert(y[k].subset_of(r@.to_set()));
                    if r@[k] == self.entry {
                        assert(y[k] == self.dom_step(r@, y, r@[k]));
                    }
                }
            }
            assert forall|k: int| 0 <= k < r@.len() implies #[trigger] x[k].subset_of(r@.to_set()) by {
                if r@[k] == self.entry {
                    assert(r@[k] == self.entry);
                    assert(r@.to_set().contains(self.entry));
                }
            }
        }
        let mut changed = true;
        while changed
            invariant
                self.wf(),
                r@.no_duplicates(),
                strictly_sorted(r@),
                forall|b: MirBlockId| r@.contains(b) <==> self.marked_reachable(b),
                doms@.len() == r@.len(),
                forall|j: int| 0 <= j < doms@.len() ==> (#[trigger] doms@[j])@.no_duplicates(),
                forall|j: int| 0 <= j < r@.len() && r@[j] == self.entry ==> #[trigger] block_sets(doms@)[j] == set![self.entry],
                dom_within(r@, block_sets(doms@)),
                forall|k: int| 0 <= k < r@.len() ==> #[trigger] self.dom_step(r@, block_sets(doms@), r@[k]).subset_of(block_sets(doms@)[k]),
                self.dom_greatest(r@, block_sets(doms@)),
                !changed ==> self.dom_fixpoint(r@, block_sets(doms@)),
            decreases total_len(doms@) + (if changed { 1int } else { 0int }),
        {
            changed = false;
            let ghost start_total = total_len(doms@);
            let mut i: usize = 0;
            while i < r.len()
                invariant
                    self.wf(),
                    r@.no_duplicates(),
                    i <= r@.len(),
                    doms@.len() == r@.len(),
                    forall|j: int| 0 <= j < doms@.len() ==> (#[trigger] doms@[j])@.no_duplicates(),
                    forall|j: int| 0 <= j < r@.len() && r@[j] == self.entry ==> #[trigger] block_sets(doms@)[j] == set![self.entry],
                    dom_within(r@, block_sets(doms@)),
                    forall|k: int| 0 <= k < r@.len() ==> #[trigger] self.dom_step(r@, block_sets(doms@), r@[k]).subset_of(block_sets(doms@)[k]),
                    self.dom_greatest(r@, block_sets(doms@)),
                    !changed ==> forall|k: int| 0 <= k < i ==> #[trigger] block_sets(doms@)[k] == self.dom_step(r@, block_sets(doms@), r@[k]),
                    !changed ==> total_len(doms@) == start_total,
                    changed ==> total_len(doms@) < start_total,
                decreases r.len() - i,
            {
                let b = r[i];
                let ghost x = block_sets(doms@);
                if b != self.entry {
                    let next = self.dominator_step(&r, &doms, b);
                    proof {
                        assert(self.dom_step(r@, x, r@[i as int]).subset_of(x[i as int]));
                        lemma_nested_lists(next@, doms@[i as int]@);
                    }
                    if next.len() != doms[i].len() {
                        let ghost old_doms = doms@;
                        proof {
                            lemma_total_len_update(old_doms, i as int, next);
                        }
                        doms.set(i, next);
                        proof {
                            let y = block_sets(doms@);
                            assert(y =~= x.update(i as int, next@.to_set()));
                            assert(dom_below(y, x)) by {
                                assert forall|k: int| 0 <= k < x.len() implies #[trigger] y[k].subset_of(x[k]) by {
                                    if k == i {
                                        assert(y[k] == next@.to_set());
                                    } else {
                                        assert(y[k] == x[k]);
                                    }
                                }
                            }
                            assert forall|k: int| 0 <= k < r@.len() implies #[trigger] self.dom_step(r@, y, r@[k]).subset_of(y[k]) by {
                                self.lemma_dom_step_monotone(r@, y, x, r@[k]);
                                let a = self.dom_step(r@, y, r@[k]);
                                let c = self.dom_step(r@, x, r@[k]);
                                assert(a.subset_of(c));
                                if k != i {
                                    assert(y[k] == x[k]);
                                    assert(c.subset_of(x[k]));
                                    assert forall|d: MirBlockId| a.contains(d) implies y[k].contains(d) by {
                                        assert(c.contains(d));
                                    }
                                } else {
                                    assert(y[k] == next@.to_set());
                                    assert(c == next@.to_set());
                                }
                            }
                            assert forall|z: Seq<Set<MirBlockId>>| #[trigger] self.dom_fixpoint(r@, z) && dom_within(r@, z) implies dom_below(z, y) by {
                                assert(dom_below(z, x));
                                assert forall|k: int| 0 <= k < y.len() implies #[trigger] z[k].subset_of(y[k]) by {
                                    if k == i {
                                        self.lemma_dom_step_monotone(r@, z, x, b);
                                        assert(z[k] == self.dom_step(r@, z, r@[k]));
                                        assert(y[k] == next@.to_set());
                                    } else {
                                        assert(z[k].subset_of(x[k]));
                                        assert(y[k] == x[k]);
                                    }
                                }
                            }
                            assert forall|k: int| 0 <= k < r@.len() implies #[trigger] y[k].subset_of(r@.to_set()) by {
                                assert(x[k].subset_of(r@.to_set()));
                                if k == i {
                                    assert(y[k] == next@.to_set());
                                } else {
                                    assert(y[k] == x[k]);
                                }
                            }
                            assert forall|j: int| 0 <= j < r@.len() && r@[j] == self.entry implies #[trigger] y[j] == set![self.entry] by {
                                assert(j != i);
                                assert(y[j] == x[j]);
                            }
                        }
                        changed = true;
                    } else {
                        proof {
                            assert(x[i as int] == self.dom_step(r@, x, b));
                        }
                    }
                } else {
                    proof {
                        assert(x[i as int] == set![self.entry]);
                    }
                }
                i = i + 1;
            }
        }
        let mut result: Vec<(MirBlockId, Vec<MirBlockId>)> = Vec::new();
        let ghost final_doms = doms@;
        let mut k: usize = 0;
        while k < r.len()
            invariant
                k <= r@.len(),
                doms@.len() == r@.len(),
                result@.len() == k,
                forall|j: int| 0 <= j < doms@.len() ==> (#[trigger] doms@[j])@.no_duplicates(),
                forall|j: int| 0 <= j < k ==> (#[trigger] result@[j]).0 == r@[j] && result@[j].1@ == doms@[j]@,
            decreases r.len() - k,
        {
            let d = copy_blocks(&doms[k]);
            result.push((r[k], d));
            k = k + 1;
        }
        proof {
            assert(dom_keys(result@) =~= r@);
            assert(dom_sets(result@) =~= block_sets(doms@));
            assert forall|i: int| 0 <= i < result@.len() implies (#[trigger] result@[i]).1@.no_duplicates() by {
                assert(result@[i].1@ == doms@[i]@);
            }
            if self.preds_consistent() && self.marks_match() {
                self.lemma_greatest_fixpoint_is_path_dominance(r@, block_sets(doms@));
            }
        }
        result
    }
}

/// The dominator set a table records for `c`; empty when `c` has no entry.
pub open spec fn table_doms(m: Seq<(MirBlockId, Vec<MirBlockId>)>, c: MirBlockId) -> Set<MirBlockId> {
    if dom_keys(m).contains(c) {
        dom_sets(m)[pos(dom_keys(m), c)]
    } else {
        Set::empty()
    }
}

/// `c` is a strict dominator of the `i`-th block of the table that no other
/// strict dominator of that block dominates.
pub open spec fn idom_candidate(m: Seq<(MirBlockId, Vec<MirBlockId>)>, i: int, c: MirBlockId) -> bool {
    &&& dom_sets(m)[i].contains(c)
    &&& c != m[i].0
    &&& forall|o: MirBlockId|
        #![trigger table_doms(m, c).contains(o)]
        dom_sets(m)[i].contains(o) && o != m[i].0 && o != c ==> !table_doms(m, c).contains(o)
}

/// Finds the entry of `c` in a dominator table whose blocks do not repeat.
pub fn find_in_table(m: &Vec<(MirBlockId, Vec<MirBlockId>)>, c: MirBlockId) -> (result: Option<usize>)
    requires
        dom_keys(m@).no_duplicates(),
    ensures
        match result {
            Some(i) => i < m@.len() && m@[i as int].0 == c && pos(dom_keys(m@), c) == i,
            None => !dom_keys(m@).contains(c),
        },
{
    let mut i: usize = 0;
    while i < m.len()
        invariant
            i <= m@.len(),
            dom_keys(m@).no_duplicates(),
            forall|k: int| 0 <= k < i ==> m@[k].0 != c,
        decreases m.len() - i,
    {
        if m[i].0 == c {
            proof {
                assert(dom_keys(m@)[i as int] == c);
                lemma_pos(dom_keys(m@), i as int);
            }
            return Some(i);
        }
        i = i + 1;
    }
    proof {
        if dom_keys(m@).contains(c) {
            let k = choose|k: int| 0 <= k < dom_keys(m@).len() && dom_keys(m@)[k] == c;
            assert(m@[k].0 == c);
        }
    }
    None
}

impl MirControlFlowGraph {
    /// The block `b` of the table is not the entry and has a candidate
    /// immediate dominator.
    pub open spec fn has_idom(self, m: Seq<(MirBlockId, Vec<MirBlockId>)>, b: MirBlockId) -> bool {
        &&& b != self.entry
        &&& exists|c: MirBlockId| idom_candidate(m, pos(dom_keys(m), b), c)
    }

    /// The immediate dominators computed from the table `m`: for each block
    /// of `m` other than the entry, in table order, a strict dominator that no
    /// other strict dominator dominates, when there is one.
    fn idoms_from_table(&self, m: &Vec<(MirBlockId, Vec<MirBlockId>)>) -> (result: Vec<(MirBlockId, MirBlockId)>)
        requires
            self.is_dominator_table(m@),
        ensures
            result@.map_values(|e: (MirBlockId, MirBlockId)| e.0) == dom_keys(m@).filter(|b: MirBlockId| self.has_idom(m@, b)),
            forall|j: int| 0 <= j < result@.len() ==> idom_candidate(m@, pos(dom_keys(m@), (#[trigger] result@[j]).0), result@[j].1),
    {
        let ghost keys = dom_keys(m@);
        let ghost pred = |b: MirBlockId| self.has_idom(m@, b);
        proof {
            lemma_sorted_distinct(keys);
        }
        let mut result: Vec<(MirBlockId, MirBlockId)> = Vec::new();
        let mut i: usize = 0;
        while i < m.len()
            invariant
                self.is_dominator_table(m@),
                keys == dom_keys(m@),
                keys.no_duplicates(),
                pred == (|b: MirBlockId| self.has_idom(m@, b)),
                i <= m@.len(),
                result@.map_values(|e: (MirBlockId, MirBlockId)| e.0) == keys.subrange(0, i as int).filter(pred),
                forall|j: int| 0 <= j < result@.len() ==> idom_candidate(m@, pos(keys, (#[trigger] result@[j]).0), result@[j].1),
            decreases m.len() - i,
        {
            let b = m[i].0;
            let ds = &m[i].1;
            proof {
                assert(keys[i as int] == b);
                lemma_pos(keys, i as int);
                assert(dom_sets(m@)[i as int] == ds@.to_set());
            }
            let mut found: Option<MirBlockId> = None;
            if b != self.entry {
                let mut j: usize = 0;
                while j < ds.len() && found.is_none()
                    invariant
                        self.is_dominator_table(m@),
                        keys == dom_keys(m@),
                        keys.no_duplicates(),
                        i < m@.len(),
                        b == m@[i as int].0,
                        ds@ == m@[i as int].1@,
                        dom_sets(m@)[i as int] == ds@.to_set(),
                        j <= ds@.len(),
                        found.is_none() ==> forall|k: int| 0 <= k < j ==> !idom_candidate(m@, i as int, #[trigger] ds@[k]),
                        found matches Some(c) ==> idom_candidate(m@, i as int, c),
                    decreases ds.len() - j,
                {
                    let c = ds[j];
                    if c != b {
                        let mut dominated = false;
                        let cd = find_in_table(m, c);
                        if let Some(ci) = cd {
                            let cds = &m[ci].1;
                            proof {
                                assert(dom_keys(m@)[ci as int] == c);
                                assert(dom_keys(m@).contains(c));
                                assert(dom_sets(m@)[ci as int] == m@[ci as int].1@.to_set());
                            }
                            assert(table_doms(m@, c) == cds@.to_set());
                            let mut k: usize = 0;
                            while k < ds.len()
                                invariant
                                    k <= ds@.len(),
                                    table_doms(m@, c) == cds@.to_set(),
                                    !dominated ==> forall|t: int| 0 <= t < k ==> !(ds@[t] != b && ds@[t] != c
                                        && table_doms(m@, c).contains(#[trigger] ds@[t])),
                                    dominated ==> exists|o: MirBlockId| ds@.contains(o) && o != b && o != c
                                        && #[trigger] table_doms(m@, c).contains(o),
                                decreases ds.len() - k,
                            {
                                let o = ds[k];
                                if o != b && o != c && contains_block(cds, o) {
                                    proof {
                                        assert(ds@.contains(o));
                                        assert(cds@.to_set().contains(o));
                                        assert(table_doms(m@, c).contains(o));
                                    }
                                    dominated = true;
                                }
                                k = k + 1;
                            }
                        } else {
                            assert(table_doms(m@, c) == Set::<MirBlockId>::empty());
                        }
                        proof {
                            assert(ds@.contains(c));
                            if dominated {
                                let o = choose|o: MirBlockId| ds@.contains(o) && o != b && o != c
                                    && #[trigger] table_doms(m@, c).contains(o);
                                assert(!idom_candidate(m@, i as int, c));
                            } else {
                                assert forall|o: MirBlockId|
                                    dom_sets(m@)[i as int].contains(o) && o != b && o != c implies !#[trigger] table_doms(m@, c).contains(o) by {
                                    let t = choose|t: int| 0 <= t < ds@.len() && ds@[t] == o;
                                    if cd.is_some() {
                                        assert(!(ds@[t] != b && ds@[t] != c && table_doms(m@, c).contains(ds@[t])));
                                    }
                                }
                                assert(idom_candidate(m@, i as int, c));
                            }
                        }
                        if !dominated {
                            found = Some(c);
                        }
                    }
                    j = j + 1;
                }
                proof {
                    if found.is_none() {
                        assert forall|c: MirBlockId| !idom_candidate(m@, i as int, c) by {
                            if idom_candidate(m@, i as int, c) {
                                assert(ds@.to_set().contains(c));
                                let k = choose|k: int| 0 <= k < ds@.len() && ds@[k] == c;
                                assert(!idom_candidate(m@, i as int, ds@[k]));
                            }
                        }
                    }
                }
            }
            let ghost before = result@;
            proof {
                let nxt = keys.subrange(0, i + 1);
                reveal(Seq::filter);
                assert(nxt.drop_last() =~= keys.subrange(0, i as int));
                assert(nxt.last() == b);
                assert(nxt.filter(pred) == (if pred(b) {
                    keys.subrange(0, i as int).filter(pred).push(b)
                } else {
                    keys.subrange(0, i as int).filter(pred)
                }));
                assert(pred(b) == self.has_idom(m@, b));
                assert(pos(keys, b) == i);
                if found.is_none() && b != self.entry {
                    assert(!self.has_idom(m@, b));
                }
                if let Some(c) = found {
                    assert(self.has_idom(m@, b));
                }
            }
            if let Some(c) = found {
                result.push((b, c));
                proof {
                    assert(result@.map_values(|e: (MirBlockId, MirBlockId)| e.0) =~= before.map_values(
                        |e: (MirBlockId, MirBlockId)| e.0,
                    ).push(b));
                    assert forall|j: int| 0 <= j < result@.len() implies idom_candidate(m@, pos(keys, (#[trigger] result@[j]).0), result@[j].1) by {
                        if j < before.len() {
                            assert(result@[j] == before[j]);
                        }
                    }
                }
            }
            i = i + 1;
        }
        proof {
            assert(keys.subrange(0, m@.len() as int) =~= keys);
        }
        result
    }

    /// For each block marked reachable other than the entry, ordered by id,
    /// a strict dominator of it that no other of its strict dominators
    /// dominates, when there is one. When the predecessor lists agree with
    /// the successor lists, the marks are exactly the reachable blocks and
    /// the entry has a node, that block is always the entry.
    pub fn immediate_dominators(&self) -> (result: Vec<(MirBlockId, MirBlockId)>)
        requires
            self.wf(),
        ensures
            exists|m: Seq<(MirBlockId, Vec<MirBlockId>)>| #[trigger] self.is_dominator_table(m)
                && result@.map_values(|e: (MirBlockId, MirBlockId)| e.0) == dom_keys(m).filter(|b: MirBlockId| self.has_idom(m, b))
                && forall|j: int| 0 <= j < result@.len() ==> idom_candidate(m, pos(dom_keys(m), (#[trigger] result@[j]).0), result@[j].1),
    {
        let m = self.dominators();
        let result = self.idoms_from_table(&m);
        assert(self.is_dominator_table(m@));
        result
    }
}

/// Every predecessor list of `nodes`, one after another.
pub open spec fn all_predecessors(nodes: Seq<MirCfgNode>) -> Seq<MirBlockId>
    decreases nodes.len(),
{
    if nodes.len() == 0 {
        seq![]
    } else {
        all_predecessors(nodes.drop_last()) + nodes.last().predecessors@
    }
}

proof fn lemma_all_predecessors(nodes: Seq<MirCfgNode>, i: int, s: MirBlockId)
    requires
        0 <= i < nodes.len(),
        nodes[i].predecessors@.contains(s),
    ensures
        all_predecessors(nodes).contains(s),
    decreases nodes.len(),
{
    let rest = all_predecessors(nodes.drop_last());
    let last = nodes.last().predecessors@;
    if i == nodes.len() - 1 {
        let k = choose|k: int| 0 <= k < last.len() && last[k] == s;
        assert((rest + last)[rest.len() + k] == s);
    } else {
        lemma_all_predecessors(nodes.drop_last(), i, s);
        let k = choose|k: int| 0 <= k < rest.len() && rest[k] == s;
        assert((rest + last)[k] == s);
    }
}

impl MirControlFlowGraph {
    /// `c` walks backwards from `latch` along predecessor lists and meets
    /// `header` at most at its two ends.
    pub open spec fn is_back_chain(self, latch: MirBlockId, header: MirBlockId, c: Seq<MirBlockId>) -> bool {
        &&& c.len() >= 1
        &&& c[0] == latch
        &&& forall|k: int| 0 <= k < c.len() - 1 ==> #[trigger] self.preds(c[k]).contains(c[k + 1])
        &&& forall|k: int| 1 <= k < c.len() - 1 ==> #[trigger] c[k] != header
    }

    /// The natural loop of the back edge `latch -> header`: the header and
    /// every block that reaches the latch without passing through the header.
    pub open spec fn in_natural_loop(self, latch: MirBlockId, header: MirBlockId, y: MirBlockId) -> bool {
        ||| y == header
        ||| exists|c: Seq<MirBlockId>| #[trigger] self.is_back_chain(latch, header, c) && c.last() == y
    }

    proof fn lemma_back_chain_push(self, latch: MirBlockId, header: MirBlockId, c: Seq<MirBlockId>, p: MirBlockId)
        requires
            self.is_back_chain(latch, header, c),
            c.len() == 1 || c.last() != header,
            self.preds(c.last()).contains(p),
        ensures
            self.is_back_chain(latch, header, c.push(p)),
    {
        let d = c.push(p);
        assert forall|k: int| 0 <= k < d.len() - 1 implies #[trigger] self.preds(d[k]).contains(d[k + 1]) by {
            if k < c.len() - 1 {
                assert(d[k] == c[k] && d[k + 1] == c[k + 1]);
            } else {
                assert(d[k] == c.last() && d[k + 1] == p);
            }
        }
        assert forall|k: int| 1 <= k < d.len() - 1 implies #[trigger] d[k] != header by {
            if k < c.len() - 1 {
                assert(d[k] == c[k]);
            } else {
                assert(d[k] == c.last());
            }
        }
    }

    proof fn lemma_back_chain_in(self, latch: MirBlockId, header: MirBlockId, l: Seq<MirBlockId>, c: Seq<MirBlockId>, k: int)
        requires
            self.is_back_chain(latch, header, c),
            0 <= k < c.len(),
            l.contains(latch),
            forall|y: MirBlockId, p: MirBlockId| l.contains(y) && (y != header || y == latch)
                && #[trigger] self.preds(y).contains(p) ==> l.contains(p),
        ensures
            l.contains(c[k]),
        decreases k,
    {
        if k > 0 {
            self.lemma_back_chain_in(latch, header, l, c, k - 1);
            assert(self.preds(c[k - 1]).contains(c[k - 1 + 1]));
            if k - 1 >= 1 {
                assert(c[k - 1] != header);
            }
        }
    }

    /// The blocks of the natural loop of the back edge `latch -> header`,
    /// ordered by id.
    fn natural_loop_blocks(&self, latch: MirBlockId, header: MirBlockId) -> (result: Vec<MirBlockId>)
        requires
            self.wf(),
        ensures
            strictly_sorted(result@),
            forall|y: MirBlockId| result@.contains(y) <==> self.in_natural_loop(latch, header, y),
    {
        let ghost cands = seq![header, latch] + all_predecessors(self.nodes@);
        let mut blocks: Vec<MirBlockId> = Vec::new();
        blocks.push(header);
        if latch != header {
            blocks.push(latch);
        }
        let mut stack: Vec<MirBlockId> = Vec::new();
        stack.push(latch);
        proof {
            assert(self.is_back_chain(latch, header, seq![latch]));
            assert(cands[0] == header && cands[1] == latch);
            assert(blocks@[0] == header);
            if latch != header {
                assert(blocks@[1] == latch);
            }
            assert(stack@[0] == latch);
            lemma_distinct_len_bound(blocks@, cands);
        }
        while stack.len() > 0
            invariant
                self.wf(),
                cands == seq![header, latch] + all_predecessors(self.nodes@),
                blocks@.no_duplicates(),
                blocks@.len() <= cands.len(),
                blocks@.contains(header),
                blocks@.contains(latch),
                forall|y: MirBlockId| blocks@.contains(y) ==> cands.contains(y),
                forall|y: MirBlockId| blocks@.contains(y) && y != header ==>
                    exists|c: Seq<MirBlockId>| #[trigger] self.is_back_chain(latch, header, c) && c.last() == y,
                forall|y: MirBlockId| stack@.contains(y) ==> blocks@.contains(y) && (y != header || y == latch),
                forall|y: MirBlockId, p: MirBlockId| blocks@.contains(y) && (y != header || y == latch)
                    && #[trigger] self.preds(y).contains(p) ==> stack@.contains(y) || blocks@.contains(p),
            decreases cands.len() - blocks@.len(), stack@.len(),
        {
            let ghost st_before = stack@;
            let x = stack.pop().unwrap();
            let ghost st0 = stack@;
            proof {
                assert(st_before[st_before.len() - 1] == x);
                assert(st_before.contains(x));
                assert(blocks@.contains(x) && (x != header || x == latch));
                assert forall|y: MirBlockId| st0.contains(y) implies st_before.contains(y) by {
                    let k = choose|k: int| 0 <= k < st0.len() && st0[k] == y;
                    assert(st_before[k] == y);
                }
                if x != latch {
                    assert(exists|c: Seq<MirBlockId>| #[trigger] self.is_back_chain(latch, header, c) && c.last() == x);
                }
                assert(st_before =~= st0.push(x));
                assert forall|y: MirBlockId, p: MirBlockId| blocks@.contains(y) && (y != header || y == latch) && y != x
                    && #[trigger] self.preds(y).contains(p) implies st0.contains(y) || blocks@.contains(p) by {
                    if st_before.contains(y) {
                        let k = choose|k: int| 0 <= k < st_before.len() && st_before[k] == y;
                        assert(k != st_before.len() - 1);
                        assert(st0[k] == y);
                    }
                }
            }
            let ghost bl0 = blocks@;
            if let Some(n) = self.find_node(x) {
                let preds = &self.nodes[n].predecessors;
                assert(preds@ == self.preds(x));
                let ghost cx = if x == latch {
                    seq![latch]
                } else {
                    choose|c: Seq<MirBlockId>| #[trigger] self.is_back_chain(latch, header, c) && c.last() == x
                };
                proof {
                    assert(self.is_back_chain(latch, header, seq![latch]));
                    assert(blocks@.subrange(0, bl0.len() as int) =~= bl0);
                    assert(stack@.subrange(0, st0.len() as int) =~= st0);
                }
                let mut j: usize = 0;
                while j < preds.len()
                    invariant
                        self.wf(),
                        cands == seq![header, latch] + all_predecessors(self.nodes@),
                        n < self.nodes@.len(),
                        self.nodes@[n as int].block_id == x,
                        preds@ == self.preds(x),
                        preds@ == self.nodes@[n as int].predecessors@,
                        j <= preds@.len(),
                        self.is_back_chain(latch, header, cx) && cx.last() == x,
                        cx.len() == 1 || cx.last() != header,
                        has_prefix(blocks@, bl0),
                        has_prefix(stack@, st0),
                        blocks@.no_duplicates(),
                        blocks@.len() <= cands.len(),
                        blocks@.contains(header),
                        blocks@.contains(latch),
                        blocks@.contains(x),
                        forall|y: MirBlockId| blocks@.contains(y) ==> cands.contains(y),
                        forall|y: MirBlockId| blocks@.contains(y) && y != header ==>
                            exists|c: Seq<MirBlockId>| #[trigger] self.is_back_chain(latch, header, c) && c.last() == y,
                        forall|y: MirBlockId| stack@.contains(y) ==> blocks@.contains(y) && (y != header || y == latch),
                        forall|y: MirBlockId, p: MirBlockId| blocks@.contains(y) && (y != header || y == latch) && y != x
                            && #[trigger] self.preds(y).contains(p) ==> stack@.contains(y) || blocks@.contains(p),
                        forall|k: int| 0 <= k < j ==> blocks@.contains(#[trigger] preds@[k]),
                        stack@.len() >= st0.len(),
                        blocks@.len() - bl0.len() == stack@.len() - st0.len(),
                    decreases preds.len() - j,
                {
                    let p = preds[j];
                    if !contains_block(&blocks, p) {
                        let ghost b1 = blocks@;
                        let ghost s1 = stack@;
                        proof {
                            self.lemma_back_chain_push(latch, header, cx, p);
                            assert(self.is_back_chain(latch, header, cx.push(p)) && cx.push(p).last() == p);
                            lemma_all_predecessors(self.nodes@, n as int, p);
                            let ap = all_predecessors(self.nodes@);
                            let k = choose|k: int| 0 <= k < ap.len() && ap[k] == p;
                            assert(cands[k + 2] == p);
                        }
                        blocks.push(p);
                        stack.push(p);
                        proof {
                            lemma_concat_distinct(b1, seq![p]);
                            assert(b1 + seq![p] =~= blocks@);
                            lemma_distinct_len_bound(blocks@, cands);
                            assert(blocks@.subrange(0, b1.len() as int) =~= b1);
                            assert(stack@.subrange(0, s1.len() as int) =~= s1);
                            assert(has_prefix(blocks@, bl0)) by {
                                assert(blocks@.subrange(0, bl0.len() as int) =~= b1.subrange(0, bl0.len() as int));
                            }
                            assert(has_prefix(stack@, st0)) by {
                                assert(stack@.subrange(0, st0.len() as int) =~= s1.subrange(0, st0.len() as int));
                            }
                            assert forall|y: MirBlockId| blocks@.contains(y) implies (b1.contains(y) || y == p) by {
                                let k = choose|k: int| 0 <= k < blocks@.len() && blocks@[k] == y;
                                if k < b1.len() {
                                    assert(b1[k] == y);
                                }
                            }
                            assert forall|y: MirBlockId| stack@.contains(y) implies (s1.contains(y) || y == p) by {
                                let k = choose|k: int| 0 <= k < stack@.len() && stack@[k] == y;
                                if k < s1.len() {
                                    assert(s1[k] == y);
                                }
                            }
                            assert forall|y: MirBlockId| b1.contains(y) implies blocks@.contains(y) by {
                                lemma_prefix_contains(blocks@, b1, y);
                            }
                            assert forall|y: MirBlockId| s1.contains(y) implies stack@.contains(y) by {
                                lemma_prefix_contains(stack@, s1, y);
                            }
                            assert(blocks@[b1.len() as int] == p);
                            assert(stack@[s1.len() as int] == p);
                            assert(p != header) by {
                                assert(b1.contains(header));
                            }
                            assert forall|y: MirBlockId| blocks@.contains(y) && y != header implies
                                exists|c: Seq<MirBlockId>| #[trigger] self.is_back_chain(latch, header, c) && c.last() == y by {
                                if y == p {
                                    assert(self.is_back_chain(latch, header, cx.push(p)) && cx.push(p).last() == p);
                                } else {
                                    assert(b1.contains(y));
                                }
                            }
                            assert forall|y: MirBlockId| stack@.contains(y) implies blocks@.contains(y) && (y != header || y == latch) by {
                                if y != p {
                                    assert(s1.contains(y));
                                }
                            }
                        }
                    }
                    j = j + 1;
                }
            }
            proof {
                assert forall|y: MirBlockId, p: MirBlockId| blocks@.contains(y) && (y != header || y == latch)
                    && #[trigger] self.preds(y).contains(p) implies stack@.contains(y) || blocks@.contains(p) by {
                    if y == x {
                        if self.has_node(x) {
                            let k = choose|k: int| 0 <= k < self.preds(x).len() && self.preds(x)[k] == p;
                        }
                    } else {
                        if !blocks@.contains(p) {
                            // y was waiting on the stack before the pop; it is not x, so it still is
                            assert(bl0.contains(y) || stack@.contains(y)) by {
                                if !bl0.contains(y) {
                                    assert(blocks@.contains(y));
                                }
                            }
                        }
                    }
                }
            }
        }
        let result = sort_blocks(&blocks);
        proof {
            assert forall|y: MirBlockId| result@.contains(y) <==> self.in_natural_loop(latch, header, y) by {
                if self.in_natural_loop(latch, header, y) && y != header {
                    let c = choose|c: Seq<MirBlockId>| #[trigger] self.is_back_chain(latch, header, c) && c.last() == y;
                    self.lemma_back_chain_in(latch, header, blocks@, c, c.len() - 1);
                }
            }
        }
        result
    }
}

/// The edge `e` closes a loop according to the dominator table `m`: its
/// target dominates its source.
pub open spec fn is_back_edge(m: Seq<(MirBlockId, Vec<MirBlockId>)>, e: MirCfgEdge) -> bool {
    dom_keys(m).contains(e.source) && dom_sets(m)[pos(dom_keys(m), e.source)].contains(e.target)
}

impl MirControlFlowGraph {
    /// The edges that leave the set of blocks `body`.
    pub open spec fn exit_edges_of(self, body: Seq<MirBlockId>) -> Seq<MirCfgEdge> {
        self.edges@.filter(|c: MirCfgEdge| body.contains(c.source) && !body.contains(c.target))
    }

    /// `lp` is the natural loop of the back edge `e`.
    pub open spec fn loop_of_edge(self, e: MirCfgEdge, lp: MirLoop) -> bool {
        &&& lp.header == e.target
        &&& lp.back_edge == e
        &&& strictly_sorted(lp.body_blocks@)
        &&& forall|y: MirBlockId| lp.body_blocks@.contains(y) <==> self.in_natural_loop(e.source, e.target, y)
        &&& lp.exit_edges@ == self.exit_edges_of(lp.body_blocks@)
    }

    /// `loops` holds, in edge order, the natural loop of each back edge
    /// named by the dominator table `m`.
    pub open spec fn loops_from_table(self, m: Seq<(MirBlockId, Vec<MirBlockId>)>, loops: Seq<MirLoop>) -> bool {
        let back = self.edges@.filter(|e: MirCfgEdge| is_back_edge(m, e));
        &&& loops.len() == back.len()
        &&& forall|i: int| 0 <= i < loops.len() ==> #[trigger] self.loop_of_edge(back[i], loops[i])
    }

    /// The edges leaving `body`, in edge order.
    fn exit_edges(&self, body: &Vec<MirBlockId>) -> (result: Vec<MirCfgEdge>)
        ensures
            result@ == self.exit_edges_of(body@),
    {
        let ghost pred = |c: MirCfgEdge| body@.contains(c.source) && !body@.contains(c.target);
        let mut result: Vec<MirCfgEdge> = Vec::new();
        let mut k: usize = 0;
        while k < self.edges.len()
            invariant
                k <= self.edges@.len(),
                pred == (|c: MirCfgEdge| body@.contains(c.source) && !body@.contains(c.target)),
                result@ == self.edges@.subrange(0, k as int).filter(pred),
            decreases self.edges.len() - k,
        {
            let e = self.edges[k];
            proof {
                reveal(Seq::filter);
                assert(self.edges@.subrange(0, k + 1).drop_last() =~= self.edges@.subrange(0, k as int));
            }
            if contains_block(body, e.source) && !contains_block(body, e.target) {
                result.push(e);
            }
            k = k + 1;
        }
        assert(self.edges@.subrange(0, self.edges@.len() as int) =~= self.edges@);
        result
    }

    /// The natural loops of the back edges according to the table `m`.
    fn loops_from_dominators(&self, m: &Vec<(MirBlockId, Vec<MirBlockId>)>) -> (result: Vec<MirLoop>)
        requires
            self.wf(),
            self.is_dominator_table(m@),
        ensures
            self.loops_from_table(m@, result@),
    {
        let ghost pred = |e: MirCfgEdge| is_back_edge(m@, e);
        proof {
            lemma_sorted_distinct(dom_keys(m@));
        }
        let mut loops: Vec<MirLoop> = Vec::new();
        let mut k: usize = 0;
        while k < self.edges.len()
            invariant
                self.wf(),
                self.is_dominator_table(m@),
                dom_keys(m@).no_duplicates(),
                k <= self.edges@.len(),
                pred == (|e: MirCfgEdge| is_back_edge(m@, e)),
                loops@.len() == self.edges@.subrange(0, k as int).filter(pred).len(),
                forall|i: int| 0 <= i < loops@.len() ==>
                    #[trigger] self.loop_of_edge(self.edges@.subrange(0, k as int).filter(pred)[i], loops@[i]),
            decreases self.edges.len() - k,
        {
            let e = self.edges[k];
            let ghost prev = self.edges@.subrange(0, k as int).filter(pred);
            proof {
                reveal(Seq::filter);
                assert(self.edges@.subrange(0, k + 1).drop_last() =~= self.edges@.subrange(0, k as int));
            }
            let source = find_in_table(m, e.source);
            let back = match source {
                Some(si) => contains_block(&m[si].1, e.target),
                None => false,
            };
            proof {
                if let Some(si) = source {
                    assert(dom_keys(m@)[si as int] == e.source);
                    assert(dom_sets(m@)[si as int] == m@[si as int].1@.to_set());
                }
                assert(back == pred(e));
            }
            if back {
                let body_blocks = self.natural_loop_blocks(e.source, e.target);
                let exit_edges = self.exit_edges(&body_blocks);
                let lp = MirLoop { header: e.target, back_edge: e, body_blocks, exit_edges };
                let ghost before = loops@;
                loops.push(lp);
                proof {
                    let nxt = self.edges@.subrange(0, k + 1).filter(pred);
                    assert(nxt == prev.push(e));
                    assert forall|i: int| 0 <= i < loops@.len() implies #[trigger] self.loop_of_edge(nxt[i], loops@[i]) by {
                        if i < before.len() {
                            assert(loops@[i] == before[i] && nxt[i] == prev[i]);
                        }
                    }
                }
            }
            k = k + 1;
        }
        assert(self.edges@.subrange(0, self.edges@.len() as int) =~= self.edges@);
        loops
    }

    /// The natural loops of the back edges, in edge order: an edge is a back
    /// edge when its target dominates its source.
    fn detect_loops(&self) -> (result: Vec<MirLoop>)
        requires
            self.wf(),
        ensures
            exists|m: Seq<(MirBlockId, Vec<MirBlockId>)>| #[trigger] self.is_dominator_table(m)
                && self.loops_from_table(m, result@),
    {
        let m = self.dominators();
        let result = self.loops_from_dominators(&m);
        assert(self.is_dominator_table(m@));
        result
    }

    /// Two graphs with the same entry and the same nodes, up to the
    /// reachability marks and predecessor lists, reach the same blocks.
    pub proof fn lemma_same_shape(self, other: MirControlFlowGraph)
        requires
            self.wf(),
            self.entry == other.entry,
            self.nodes@.len() == other.nodes@.len(),
            forall|i: int| 0 <= i < self.nodes@.len() ==> (#[trigger] self.nodes@[i]).block_id == other.nodes@[i].block_id
                && self.nodes@[i].successors@ == other.nodes@[i].successors@,
        ensures
            other.wf(),
            forall|b: MirBlockId| #[trigger] self.has_node(b) == other.has_node(b),
            forall|b: MirBlockId| #[trigger] self.succs(b) == other.succs(b),
            forall|b: MirBlockId| #[trigger] self.reaches(b) == other.reaches(b),
            (forall|i: int| 0 <= i < self.nodes@.len() ==> (#[trigger] self.nodes@[i]).predecessors@ == other.nodes@[i].predecessors@)
                ==> forall|b: MirBlockId| #[trigger] self.preds(b) == other.preds(b),
    {
        assert(self.node_ids() =~= other.node_ids());
        assert forall|b: MirBlockId| #[trigger] self.has_node(b) == other.has_node(b) by {
            if self.has_node(b) {
                let i = choose|i: int| 0 <= i < self.nodes@.len() && #[trigger] self.nodes@[i].block_id == b;
                assert(other.nodes@[i].block_id == b);
            }
            if other.has_node(b) {
                let i = choose|i: int| 0 <= i < other.nodes@.len() && #[trigger] other.nodes@[i].block_id == b;
                assert(self.nodes@[i].block_id == b);
            }
        }
        assert forall|b: MirBlockId| #[trigger] self.succs(b) == other.succs(b) by {
            if self.has_node(b) {
                let i = self.node_index(b);
                self.lemma_node_index(i);
                other.lemma_node_index(i);
            }
        }
        if forall|i: int| 0 <= i < self.nodes@.len() ==> (#[trigger] self.nodes@[i]).predecessors@ == other.nodes@[i].predecessors@ {
            assert forall|b: MirBlockId| #[trigger] self.preds(b) == other.preds(b) by {
                if self.has_node(b) {
                    let i = self.node_index(b);
                    self.lemma_node_index(i);
                    other.lemma_node_index(i);
                }
            }
        }
        assert forall|b: MirBlockId| #[trigger] self.reaches(b) == other.reaches(b) by {
            if self.reaches(b) {
                let w = choose|w: Seq<MirBlockId>| #[trigger] self.is_walk(w) && w.last() == b;
                assert forall|k: int| 0 <= k < w.len() - 1 implies #[trigger] other.succs(w[k]).contains(w[k + 1]) by {
                    assert(self.succs(w[k]).contains(w[k + 1]));
                }
                assert(other.is_walk(w));
            }
            if other.reaches(b) {
                let w = choose|w: Seq<MirBlockId>| #[trigger] other.is_walk(w) && w.last() == b;
                assert forall|k: int| 0 <= k < w.len() - 1 implies #[trigger] self.succs(w[k]).contains(w[k + 1]) by {
                    assert(other.succs(w[k]).contains(w[k + 1]));
                }
                assert(self.is_walk(w));
            }
        }
    }

    /// Marks every block reachable from the entry.
    fn mark_reachable(&mut self)
        requires
            old(self).wf(),
        ensures
            final(self).entry == old(self).entry,
            final(self).exits == old(self).exits,
            final(self).edges == old(self).edges,
            final(self).loops == old(self).loops,
            final(self).nodes@.len() == old(self).nodes@.len(),
            forall|i: int| 0 <= i < final(self).nodes@.len() ==> (#[trigger] final(self).nodes@[i]).block_id == old(self).nodes@[i].block_id
                && final(self).nodes@[i].successors@ == old(self).nodes@[i].successors@
                && final(self).nodes@[i].predecessors@ == old(self).nodes@[i].predecessors@
                && final(self).nodes@[i].reachable == (old(self).nodes@[i].reachable || old(self).reaches(old(self).nodes@[i].block_id)),
    {
        let ghost g0 = *self;
        let order = self.bfs();
        let mut k: usize = 0;
        while k < order.len()
            invariant
                g0.wf(),
                order@.no_duplicates(),
                forall|b: MirBlockId| order@.contains(b) <==> g0.reaches(b),
                k <= order@.len(),
                self.entry == g0.entry,
                self.exits == g0.exits,
                self.edges == g0.edges,
                self.loops == g0.loops,
                self.nodes@.len() == g0.nodes@.len(),
                forall|i: int| 0 <= i < self.nodes@.len() ==> (#[trigger] self.nodes@[i]).block_id == g0.nodes@[i].block_id
                    && self.nodes@[i].successors@ == g0.nodes@[i].successors@
                    && self.nodes@[i].predecessors@ == g0.nodes@[i].predecessors@
                    && self.nodes@[i].reachable == (g0.nodes@[i].reachable || order@.subrange(0, k as int).contains(g0.nodes@[i].block_id)),
            decreases order.len() - k,
        {
            let b = order[k];
            proof {
                g0.lemma_same_shape(*self);
            }
            let found = self.find_node(b);
            let ghost before = self.nodes@;
            if let Some(i) = found {
                let mut node = self.nodes.remove(i);
                node.reachable = true;
                self.nodes.insert(i, node);
                proof {
                    assert(self.nodes@ =~= before.update(i as int, node));
                }
            }
            proof {
                let nxt = order@.subrange(0, k + 1);
                assert(nxt =~= order@.subrange(0, k as int).push(b));
                assert forall|i: int| 0 <= i < self.nodes@.len() implies (#[trigger] self.nodes@[i]).block_id == g0.nodes@[i].block_id
                    && self.nodes@[i].successors@ == g0.nodes@[i].successors@
                    && self.nodes@[i].predecessors@ == g0.nodes@[i].predecessors@
                    && self.nodes@[i].reachable == (g0.nodes@[i].reachable || nxt.contains(g0.nodes@[i].block_id)) by {
                    let id = g0.nodes@[i].block_id;
                    lemma_push_contains(order@.subrange(0, k as int), b, id);
                    assert(nxt.contains(id) <==> (order@.subrange(0, k as int).contains(id) || id == b));
                    if let Some(fi) = found {
                        if i != fi {
                            assert(self.nodes@[i] == before[i]);
                            assert(id != b) by {
                                assert(g0.node_ids()[i] == id && g0.node_ids()[fi as int] == before[fi as int].block_id);
                            }
                        }
                    } else {
                        assert(self.nodes@[i] == before[i]);
                        assert(id != b) by {
                            assert(before[i].block_id == id);
                        }
                    }
                }
            }
            k = k + 1;
        }
        assert(order@.subrange(0, order@.len() as int) =~= order@);
    }
}

/// One edge of a Graphviz dump.
pub open spec fn dot_edge_line(e: MirCfgEdge) -> Seq<char> {
    "  Block"@ + decimal(e.source.0 as nat) + " -> Block"@ + decimal(e.target.0 as nat) + " [label=\""@
        + edge_kind_label(e.kind) + "\"];\n"@
}

/// The edge lines of a Graphviz dump, in edge order.
pub open spec fn dot_edges(edges: Seq<MirCfgEdge>) -> Seq<char>
    decreases edges.len(),
{
    if edges.len() == 0 {
        seq![]
    } else {
        dot_edges(edges.drop_last()) + dot_edge_line(edges.last())
    }
}

impl MirControlFlowGraph {
    /// The Graphviz rendering of the graph: one labelled line per edge.
    pub open spec fn dot_text(self, function_name: Seq<char>) -> Seq<char> {
        "digraph \""@ + function_name + "\" {\n"@ + dot_edges(self.edges@) + "}\n"@
    }

    #[verifier::spinoff_prover]
    #[verifier::rlimit(30)]
    pub fn to_dot(&self, function_name: &str) -> (result: String)
        ensures
            result@ == self.dot_text(function_name@),
    {
        let mut output = String::new();
        push_str(&mut output, "digraph \"");
        push_str(&mut output, function_name);
        push_str(&mut output, "\" {\n");
        let ghost head = output@;
        let mut k: usize = 0;
        while k < self.edges.len()
            invariant
                k <= self.edges@.len(),
                output@ == head + dot_edges(self.edges@.subrange(0, k as int)),
            decreases self.edges.len() - k,
        {
            let edge = self.edges[k];
            push_str(&mut output, "  Block");
            push_decimal(&mut output, edge.source.0);
            push_str(&mut output, " -> Block");
            push_decimal(&mut output, edge.target.0);
            push_str(&mut output, " [label=\"");
            push_str(&mut output, edge.kind.label());
            push_str(&mut output, "\"];\n");
            proof {
                assert(self.edges@.subrange(0, k + 1).drop_last() =~= self.edges@.subrange(0, k as int));
                assert(output@ =~= head + dot_edges(self.edges@.subrange(0, k + 1)));
            }
            k = k + 1;
        }
        push_str(&mut output, "}\n");
        assert(self.edges@.subrange(0, self.edges@.len() as int) =~= self.edges@);
        assert(output@ =~= self.dot_text(function_name@));
        output
    }
}

/// The successors a block's terminator names; none without a terminator.
pub open spec fn block_successors(terminator: Option<MirTerminator>) -> Seq<MirBlockId> {
    match terminator {
        Some(t) => terminator_successors(t),
        None => seq![],
    }
}

/// The block ids of `blocks`, in order.
pub open spec fn block_ids(blocks: Seq<MirBasicBlock>) -> Seq<MirBlockId> {
    blocks.map_values(|b: MirBasicBlock| b.id)
}

/// The edges of `blocks`, block by block, keeping those whose target is one
/// of `ids`.
pub open spec fn blocks_edges(blocks: Seq<MirBasicBlock>, ids: Seq<MirBlockId>) -> Seq<MirCfgEdge>
    decreases blocks.len(),
{
    if blocks.len() == 0 {
        seq![]
    } else {
        blocks_edges(blocks.drop_last(), ids) + terminator_edges(blocks.last().id, blocks.last().terminator).filter(
            |e: MirCfgEdge| ids.contains(e.target),
        )
    }
}

/// The ids of the blocks that end with a return, in order.
pub open spec fn return_ids(blocks: Seq<MirBasicBlock>) -> Seq<MirBlockId>
    decreases blocks.len(),
{
    if blocks.len() == 0 {
        seq![]
    } else {
        return_ids(blocks.drop_last()) + (if blocks.last().terminator matches Some(MirTerminator::Return { .. }) {
            seq![blocks.last().id]
        } else {
            seq![]
        })
    }
}

/// No block after position `j` has the id of block `j`.
pub open spec fn last_with_id(blocks: Seq<MirBasicBlock>, j: int) -> bool {
    forall|k: int| j < k < blocks.len() ==> blocks[k].id != blocks[j].id
}

/// What `MirControlFlowGraph::build` gives for `function`: nothing when it
/// has no entry block; otherwise a graph shaped by its blocks, with the
/// blocks reachable from the entry marked, the natural loops of the back
/// edges recorded, and (when no two blocks share an id) predecessor lists
/// that agree with the successor lists.
pub open spec fn built_from(function: MirFunction, result: Option<MirControlFlowGraph>) -> bool {
    &&& result.is_none() <==> (function.entry_block.is_none() || function.entry_block.unwrap() >= function.blocks@.len())
    &&& result matches Some(g) ==> {
        &&& g.shaped_by(function.blocks@, function.blocks@[function.entry_block.unwrap() as int].id)
        &&& g.marks_match()
        &&& exists|m: Seq<(MirBlockId, Vec<MirBlockId>)>| #[trigger] g.is_dominator_table(m) && g.loops_from_table(m, g.loops@)
        &&& block_ids(function.blocks@).no_duplicates() ==> g.preds_consistent()
    }
}

impl MirControlFlowGraph {
    fn edges_for_terminator(source: MirBlockId, terminator: Option<MirTerminator>) -> (result: Vec<MirCfgEdge>)
        ensures
            result@ == terminator_edges(source, terminator),
    {
        match terminator {
            Some(MirTerminator::Jump { target }) => vec![MirCfgEdge { source, target, kind: MirCfgEdgeKind::Unconditional }],
            Some(MirTerminator::Branch { true_block, false_block, .. }) => vec![
                MirCfgEdge { source, target: true_block, kind: MirCfgEdgeKind::TrueBranch },
                MirCfgEdge { source, target: false_block, kind: MirCfgEdgeKind::FalseBranch },
            ],
            _ => Vec::new(),
        }
    }

    /// The graph is the one `build` makes of `blocks` with entry `entry`,
    /// before its reachability marks and loops are filled in: one node per
    /// block id carrying the successors of the last block with that id, the
    /// edges of every block whose target is a block, each recorded
    /// predecessor once, and the blocks that return as exits.
    pub open spec fn shaped_by(self, blocks: Seq<MirBasicBlock>, entry: MirBlockId) -> bool {
        &&& self.wf()
        &&& self.entry == entry
        &&& forall|x: MirBlockId| #[trigger] self.has_node(x) <==> block_ids(blocks).contains(x)
        &&& forall|j: int| 0 <= j < blocks.len() && last_with_id(blocks, j) ==>
            #[trigger] self.succs(blocks[j].id) == block_successors(blocks[j].terminator)
        &&& self.edges@ == blocks_edges(blocks, block_ids(blocks))
        &&& forall|x: MirBlockId| #[trigger] self.preds(x).no_duplicates()
        &&& forall|x: MirBlockId, p: MirBlockId| #[trigger] self.preds(x).contains(p) <==>
            exists|m: int| 0 <= m < self.edges@.len() && #[trigger] self.edges@[m].source == p && self.edges@[m].target == x
        &&& self.exits@ == return_ids(blocks)
    }

    /// The control-flow graph of a function, or `None` when it has no entry
    /// block. Blocks reachable from the entry are marked, and the natural
    /// loops of the back edges are recorded. When no two blocks share an id,
    /// the predecessor lists agree with the successor lists, so the
    /// dominators of the result are exactly its path dominators.
    pub fn build(function: &MirFunction) -> (result: Option<Self>)
        ensures
            built_from(*function, result),
            block_ids(function.blocks@).no_duplicates() ==> (result matches Some(g) ==> g.validation_errors()
                == g.preds(g.entry).map_values(
                |p: MirBlockId| MirCfgValidationError::EntryHasPredecessor { entry: g.entry, predecessor: p },
            )),
    {
        let entry_index = match function.entry_block {
            Some(i) => i,
            None => {
                return None;
            },
        };
        if entry_index >= function.blocks.len() {
            return None;
        }
        let blocks = &function.blocks;
        let entry = blocks[entry_index].id;
        let ghost bs = blocks@;
        let mut ids: Vec<MirBlockId> = Vec::new();
        let mut k: usize = 0;
        while k < blocks.len()
            invariant
                k <= bs.len(),
                bs == blocks@,
                ids@ == block_ids(bs).subrange(0, k as int),
            decreases blocks.len() - k,
        {
            ids.push(blocks[k].id);
            k = k + 1;
            assert(ids@ =~= block_ids(bs).subrange(0, k as int));
        }
        assert(ids@ =~= block_ids(bs));
        let mut g = MirControlFlowGraph { entry, exits: Vec::new(), nodes: Vec::new(), edges: Vec::new(), loops: Vec::new() };
        let mut k: usize = 0;
        while k < blocks.len()
            invariant
                k <= bs.len(),
                bs == blocks@,
                ids@ == block_ids(bs),
                g.entry == entry,
                g.exits@.len() == 0,
                g.loops@.len() == 0,
                g.wf(),
                forall|x: MirBlockId| #[trigger] g.has_node(x) <==> block_ids(bs).subrange(0, k as int).contains(x),
                forall|i: int| 0 <= i < g.nodes@.len() ==> (#[trigger] g.nodes@[i]).predecessors@.len() == 0 && !g.nodes@[i].reachable,
                forall|j: int| 0 <= j < k && (forall|m: int| j < m < k ==> bs[m].id != bs[j].id) ==>
                    #[trigger] g.succs(bs[j].id) == block_successors(bs[j].terminator),
                g.edges@ == blocks_edges(bs.subrange(0, k as int), ids@),
            decreases blocks.len() - k,
        {
            let block = &blocks[k];
            let ghost g_before = g;
            let edges = Self::edges_for_terminator(block.id, block.terminator);
            let mut kept: Vec<MirCfgEdge> = Vec::new();
            let mut m: usize = 0;
            while m < edges.len()
                invariant
                    m <= edges@.len(),
                    kept@ == edges@.subrange(0, m as int).filter(|e: MirCfgEdge| ids@.contains(e.target)),
                decreases edges.len() - m,
            {
                let edge = edges[m];
                proof {
                    reveal(Seq::filter);
                    assert(edges@.subrange(0, m + 1).drop_last() =~= edges@.subrange(0, m as int));
                }
                if contains_block(&ids, edge.target) {
                    kept.push(edge);
                }
                m = m + 1;
            }
            let ghost e_before = g.edges@;
            g.edges.append(&mut kept);
            let successors = match block.terminator {
                Some(t) => t.successors(),
                None => Vec::new(),
            };
            assert(g.nodes == g_before.nodes);
            let node = MirCfgNode { block_id: block.id, predecessors: Vec::new(), successors, reachable: false };
            let found = g.find_node(block.id);
            match found {
                Some(i) => {
                    g.nodes.remove(i);
                    g.nodes.insert(i, node);
                    proof {
                        assert(g.nodes@ =~= g_before.nodes@.update(i as int, node));
                    }
                },
                None => {
                    g.nodes.push(node);
                },
            }
            proof {
                assert(g.node_ids() =~= (if found.is_some() {
                    g_before.node_ids()
                } else {
                    g_before.node_ids().push(block.id)
                }));
                if found.is_none() {
                    assert(!g_before.node_ids().contains(block.id)) by {
                        if g_before.node_ids().contains(block.id) {
                            let q = choose|q: int| 0 <= q < g_before.node_ids().len() && g_before.node_ids()[q] == block.id;
                            assert(g_before.nodes@[q].block_id == block.id);
                        }
                    }
                    lemma_concat_distinct(g_before.node_ids(), seq![block.id]);
                    assert(g_before.node_ids() + seq![block.id] =~= g.node_ids());
                }
                let fi: int = if let Some(i) = found { i as int } else { g_before.nodes@.len() as int };
                assert(g.nodes@[fi] == node);
                g.lemma_node_index(fi);
                assert(g.succs(block.id) == block_successors(block.terminator));
                let pre = block_ids(bs).subrange(0, k as int);
                let nxt = block_ids(bs).subrange(0, k + 1);
                assert(nxt =~= pre.push(block.id));
                assert forall|x: MirBlockId| #[trigger] g.has_node(x) <==> nxt.contains(x) by {
                    lemma_push_contains(pre, block.id, x);
                    if g.has_node(x) {
                        let q = choose|q: int| 0 <= q < g.nodes@.len() && #[trigger] g.nodes@[q].block_id == x;
                        if q != fi {
                            assert(g_before.nodes@[q].block_id == x);
                        }
                    }
                    if g_before.has_node(x) {
                        let q = choose|q: int| 0 <= q < g_before.nodes@.len() && #[trigger] g_before.nodes@[q].block_id == x;
                        if q != fi {
                            assert(g.nodes@[q].block_id == x);
                        } else {
                            assert(g.nodes@[q].block_id == x);
                        }
                    }
                }
                assert forall|j: int| 0 <= j < k + 1 && (forall|m: int| j < m < k + 1 ==> bs[m].id != bs[j].id) implies
                    #[trigger] g.succs(bs[j].id) == block_successors(bs[j].terminator) by {
                    if j < k {
                        assert(bs[j].id != block.id);
                        assert(g_before.succs(bs[j].id) == block_successors(bs[j].terminator));
                        assert(block_ids(bs)[j] == bs[j].id);
                        assert(pre[j] == bs[j].id);
                        assert(g_before.has_node(bs[j].id));
                        let q = g_before.node_index(bs[j].id);
                        g_before.lemma_node_index(q);
                        assert(q != fi) by {
                            if q == fi {
                                assert(g_before.nodes@[q].block_id == block.id);
                            }
                        }
                        assert(g.nodes@[q] == g_before.nodes@[q]);
                        g.lemma_node_index(q);
                    }
                }
            }
            proof {
                assert(edges@.subrange(0, edges@.len() as int) =~= edges@);
                assert(bs.subrange(0, k + 1).drop_last() =~= bs.subrange(0, k as int));
                assert(bs.subrange(0, k + 1).last() == bs[k as int]);
            }
            k = k + 1;
        }
        proof {
            assert(bs.subrange(0, bs.len() as int) =~= bs);
            assert(block_ids(bs).subrange(0, bs.len() as int) =~= block_ids(bs));
        }
        let ghost ga = g;
        // the blocks that return are the exits
        let mut exits: Vec<MirBlockId> = Vec::new();
        let mut k: usize = 0;
        while k < blocks.len()
            invariant
                k <= bs.len(),
                bs == blocks@,
                exits@ == return_ids(bs.subrange(0, k as int)),
            decreases blocks.len() - k,
        {
            proof {
                assert(bs.subrange(0, k + 1).drop_last() =~= bs.subrange(0, k as int));
            }
            if let Some(MirTerminator::Return { .. }) = blocks[k].terminator {
                exits.push(blocks[k].id);
            }
            k = k + 1;
        }
        assert(bs.subrange(0, bs.len() as int) =~= bs);
        g.exits = exits;
        proof {
            ga.lemma_same_shape(g);
        }
        // record each edge's source on its target
        let mut k: usize = 0;
        let ghost g1 = g;
        assert(g1.edges@ == blocks_edges(bs, ids@));
        while k < g.edges.len()
            invariant
                g1.wf(),
                g.wf(),
                g.entry == g1.entry,
                g.edges == g1.edges,
                g.exits == g1.exits,
                g.loops == g1.loops,
                g.nodes@.len() == g1.nodes@.len(),
                forall|i: int| 0 <= i < g.nodes@.len() ==> (#[trigger] g.nodes@[i]).block_id == g1.nodes@[i].block_id
                    && g.nodes@[i].successors@ == g1.nodes@[i].successors@ && !g.nodes@[i].reachable,
                k <= g.edges@.len(),
                forall|i: int| 0 <= i < g.nodes@.len() ==> (#[trigger] g.nodes@[i]).predecessors@.no_duplicates(),
                forall|i: int, p: MirBlockId| 0 <= i < g.nodes@.len() ==> (#[trigger] g.nodes@[i].predecessors@.contains(p) <==>
                    exists|m: int| 0 <= m < k && #[trigger] g.edges@[m].source == p && g.edges@[m].target == g.nodes@[i].block_id),
            decreases g.edges.len() - k,
        {
            let edge = g.edges[k];
            let found = g.find_node(edge.target);
            let ghost before = g.nodes@;
            if let Some(i) = found {
                if !contains_block(&g.nodes[i].predecessors, edge.source) {
                    let mut node = g.nodes.remove(i);
                    let ghost old_preds = node.predecessors@;
                    node.predecessors.push(edge.source);
                    g.nodes.insert(i, node);
                    proof {
                        assert(g.nodes@ =~= before.update(i as int, node));
                        lemma_concat_distinct(old_preds, seq![edge.source]);
                        assert(old_preds + seq![edge.source] =~= node.predecessors@);
                    }
                }
            }
            proof {
                assert(g.node_ids() =~= g1.node_ids());
                assert forall|i: int, p: MirBlockId| 0 <= i < g.nodes@.len() implies (#[trigger] g.nodes@[i].predecessors@.contains(p) <==>
                    exists|m: int| 0 <= m < k + 1 && #[trigger] g.edges@[m].source == p && g.edges@[m].target == g.nodes@[i].block_id) by {
                    if let Some(fi) = found {
                        if i == fi {
                            lemma_push_contains(before[i].predecessors@, edge.source, p);
                        } else {
                            assert(g.nodes@[i] == before[i]);
                            assert(edge.target != g.nodes@[i].block_id) by {
                                assert(g.node_ids()[i] == g.nodes@[i].block_id);
                                assert(g.node_ids()[fi as int] == edge.target);
                            }
                        }
                    } else {
                        assert(g.nodes@[i] == before[i]);
                        assert(!g.has_node(edge.target));
                        assert(edge.target != g.nodes@[i].block_id) by {
                            if edge.target == g.nodes@[i].block_id {
                                assert(g.nodes@[i].block_id == edge.target);
                            }
                        }
                    }
                }
            }
            k = k + 1;
        }
        proof {
            g1.lemma_same_shape(g);
            assert forall|x: MirBlockId| #[trigger] g.has_node(x) <==> block_ids(bs).contains(x) by {
                assert(ga.has_node(x) == g1.has_node(x));
                assert(g1.has_node(x) == g.has_node(x));
            }
            assert forall|j: int| 0 <= j < bs.len() && last_with_id(bs, j) implies
                #[trigger] g.succs(bs[j].id) == block_successors(bs[j].terminator) by {
                assert(ga.succs(bs[j].id) == g1.succs(bs[j].id));
                assert(g1.succs(bs[j].id) == g.succs(bs[j].id));
                assert(forall|m: int| j < m < bs.len() ==> bs[m].id != bs[j].id);
            }
        }
        proof {
            assert forall|x: MirBlockId| #[trigger] g.preds(x).no_duplicates() by {
                if g.has_node(x) {
                    let i = g.node_index(x);
                }
            }
            assert forall|x: MirBlockId, p: MirBlockId| #[trigger] g.preds(x).contains(p) <==>
                exists|m: int| 0 <= m < g.edges@.len() && #[trigger] g.edges@[m].source == p && g.edges@[m].target == x by {
                if g.has_node(x) {
                    let i = g.node_index(x);
                    assert(g.nodes@[i].block_id == x);
                } else {
                    if exists|m: int| 0 <= m < g.edges@.len() && #[trigger] g.edges@[m].source == p && g.edges@[m].target == x {
                        let m = choose|m: int| 0 <= m < g.edges@.len() && #[trigger] g.edges@[m].source == p && g.edges@[m].target == x;
                        lemma_edge_target_is_block(bs, block_ids(bs), m);
                    }
                }
            }
            assert(g.shaped_by(bs, entry));
        }
        let ghost g2 = g;
        g.mark_reachable();
        proof {
            g2.lemma_same_shape(g);
            assert forall|b: MirBlockId| #[trigger] g.marked_reachable(b) <==> (g.has_node(b) && g.reaches(b)) by {
                if g.has_node(b) {
                    let i = g.node_index(b);
                    g.lemma_node_index(i);
                    g2.lemma_node_index(i);
                }
            }
            assert(g.node_ids() =~= g2.node_ids());
            g2.lemma_shaped_transfer(g, bs, entry);
        }
        let loops = g.detect_loops();
        let ghost g3 = g;
        g.loops = loops;
        proof {
            g3.lemma_shaped_transfer(g, bs, entry);
            g3.lemma_same_shape(g);
            assert forall|b: MirBlockId| #[trigger] g.marked_reachable(b) <==> (g.has_node(b) && g.reaches(b)) by {
                assert(g3.marked_reachable(b) <==> (g3.has_node(b) && g3.reaches(b)));
                assert(g3.has_node(b) == g.has_node(b));
                assert(g3.reaches(b) == g.reaches(b));
                if g.has_node(b) {
                    let i = g.node_index(b);
                    g.lemma_node_index(i);
                    g3.lemma_node_index(i);
                }
            }
            let m = choose|m: Seq<(MirBlockId, Vec<MirBlockId>)>| #[trigger] g3.is_dominator_table(m) && g3.loops_from_table(m, loops@);
            g3.lemma_loops_field_irrelevant(g);
            assert(g.is_dominator_table(m) && g.loops_from_table(m, g.loops@));
            if block_ids(bs).no_duplicates() {
                g.lemma_built_consistent(bs);
            }
        }
        assert(block_ids(function.blocks@).no_duplicates() ==> g.validation_errors() == g.preds(g.entry).map_values(
            |p: MirBlockId| MirCfgValidationError::EntryHasPredecessor { entry: g.entry, predecessor: p },
        )) by {
            if block_ids(function.blocks@).no_duplicates() {
                lemma_build_validates(*function, g);
            }
        }
        Some(g)
    }

    /// Being shaped by a list of blocks does not depend on reachability marks
    /// or loops.
    pub proof fn lemma_shaped_transfer(self, other: MirControlFlowGraph, blocks: Seq<MirBasicBlock>, entry: MirBlockId)
        requires
            self.shaped_by(blocks, entry),
            self.entry == other.entry,
            self.edges == other.edges,
            self.exits == other.exits,
            self.nodes@.len() == other.nodes@.len(),
            forall|i: int| 0 <= i < self.nodes@.len() ==> (#[trigger] self.nodes@[i]).block_id == other.nodes@[i].block_id
                && self.nodes@[i].successors@ == other.nodes@[i].successors@
                && self.nodes@[i].predecessors@ == other.nodes@[i].predecessors@,
        ensures
            other.shaped_by(blocks, entry),
    {
        self.lemma_same_shape(other);
        assert forall|x: MirBlockId| #[trigger] other.has_node(x) <==> block_ids(blocks).contains(x) by {
            assert(self.has_node(x) == other.has_node(x));
        }
        assert forall|j: int| 0 <= j < blocks.len() && last_with_id(blocks, j) implies
            #[trigger] other.succs(blocks[j].id) == block_successors(blocks[j].terminator) by {
            assert(self.succs(blocks[j].id) == other.succs(blocks[j].id));
        }
        assert forall|x: MirBlockId| #[trigger] other.preds(x).no_duplicates() by {
            assert(self.preds(x) == other.preds(x));
        }
        assert forall|x: MirBlockId, p: MirBlockId| #[trigger] other.preds(x).contains(p) <==>
            exists|m: int| 0 <= m < other.edges@.len() && #[trigger] other.edges@[m].source == p && other.edges@[m].target == x by {
            assert(self.preds(x) == other.preds(x));
            assert(self.preds(x).contains(p) <==>
                exists|m: int| 0 <= m < self.edges@.len() && #[trigger] self.edges@[m].source == p && self.edges@[m].target == x);
        }
    }

    /// The dominator tables and loop lists that describe a graph do not
    /// depend on the loops it records.
    pub proof fn lemma_loops_field_irrelevant(self, other: MirControlFlowGraph)
        requires
            self.wf(),
            self.entry == other.entry,
            self.nodes == other.nodes,
            self.edges == other.edges,
        ensures
            forall|m: Seq<(MirBlockId, Vec<MirBlockId>)>| #[trigger] self.is_dominator_table(m) == other.is_dominator_table(m),
            forall|m: Seq<(MirBlockId, Vec<MirBlockId>)>, l: Seq<MirLoop>| #[trigger] self.loops_from_table(m, l) == other.loops_from_table(m, l),
    {
        self.lemma_same_shape(other);
        assert forall|b: MirBlockId| #[trigger] self.marked_reachable(b) == other.marked_reachable(b) by {
            if self.has_node(b) {
                let i = self.node_index(b);
                self.lemma_node_index(i);
                other.lemma_node_index(i);
            }
        }
        assert forall|b: MirBlockId| #[trigger] self.preds(b) == other.preds(b) by {
            if self.has_node(b) {
                let i = self.node_index(b);
                self.lemma_node_index(i);
                other.lemma_node_index(i);
            }
        }
        assert forall|r: Seq<MirBlockId>, x: Seq<Set<MirBlockId>>, b: MirBlockId| #[trigger] self.dom_step(r, x, b) == other.dom_step(r, x, b) by {
            assert(self.preds(b) == other.preds(b));
            if b != self.entry && (exists|p: MirBlockId| #[trigger] self.preds(b).contains(p) && r.contains(p)) {
                assert(self.dom_step(r, x, b) =~= other.dom_step(r, x, b));
            }
        }
        assert forall|r: Seq<MirBlockId>, y: Seq<Set<MirBlockId>>| #[trigger] self.dom_fixpoint(r, y) == other.dom_fixpoint(r, y) by {
            assert forall|i: int| 0 <= i < r.len() implies self.dom_step(r, y, r[i]) == other.dom_step(r, y, r[i]) by {}
        }
        assert forall|m: Seq<(MirBlockId, Vec<MirBlockId>)>| #[trigger] self.is_dominator_table(m) == other.is_dominator_table(m) by {
            let keys = dom_keys(m);
            let sets = dom_sets(m);
            assert(self.dom_fixpoint(keys, sets) == other.dom_fixpoint(keys, sets));
            assert(self.dom_greatest(keys, sets) == other.dom_greatest(keys, sets)) by {
                if self.dom_greatest(keys, sets) {
                    assert forall|y: Seq<Set<MirBlockId>>| #[trigger] other.dom_fixpoint(keys, y) && dom_within(keys, y) implies dom_below(y, sets) by {
                        assert(self.dom_fixpoint(keys, y) == other.dom_fixpoint(keys, y));
                    }
                }
                if other.dom_greatest(keys, sets) {
                    assert forall|y: Seq<Set<MirBlockId>>| #[trigger] self.dom_fixpoint(keys, y) && dom_within(keys, y) implies dom_below(y, sets) by {
                        assert(self.dom_fixpoint(keys, y) == other.dom_fixpoint(keys, y));
                    }
                }
            }
            assert((forall|b: MirBlockId| keys.contains(b) <==> self.marked_reachable(b))
                == (forall|b: MirBlockId| keys.contains(b) <==> other.marked_reachable(b)));
        }
        assert forall|latch: MirBlockId, header: MirBlockId, c: Seq<MirBlockId>|
            #[trigger] self.is_back_chain(latch, header, c) == other.is_back_chain(latch, header, c) by {
            assert forall|k: int| 0 <= k < c.len() - 1 implies self.preds(c[k]) == other.preds(c[k]) by {}
        }
        assert forall|latch: MirBlockId, header: MirBlockId, y: MirBlockId|
            #[trigger] self.in_natural_loop(latch, header, y) == other.in_natural_loop(latch, header, y) by {
            if self.in_natural_loop(latch, header, y) && y != header {
                let c = choose|c: Seq<MirBlockId>| #[trigger] self.is_back_chain(latch, header, c) && c.last() == y;
                assert(other.is_back_chain(latch, header, c));
            }
            if other.in_natural_loop(latch, header, y) && y != header {
                let c = choose|c: Seq<MirBlockId>| #[trigger] other.is_back_chain(latch, header, c) && c.last() == y;
                assert(self.is_back_chain(latch, header, c));
            }
        }
        assert forall|m: Seq<(MirBlockId, Vec<MirBlockId>)>, l: Seq<MirLoop>| #[trigger] self.loops_from_table(m, l) == other.loops_from_table(m, l) by {
            assert forall|e: MirCfgEdge, lp: MirLoop| #[trigger] self.loop_of_edge(e, lp) == other.loop_of_edge(e, lp) by {
                assert(forall|y: MirBlockId| self.in_natural_loop(e.source, e.target, y) == other.in_natural_loop(e.source, e.target, y));
            }
            let back = self.edges@.filter(|e: MirCfgEdge| is_back_edge(m, e));
            assert(back == other.edges@.filter(|e: MirCfgEdge| is_back_edge(m, e)));
            if self.loops_from_table(m, l) {
                assert forall|i: int| 0 <= i < l.len() implies #[trigger] other.loop_of_edge(back[i], l[i]) by {
                    assert(self.loop_of_edge(back[i], l[i]));
                }
            }
            if other.loops_from_table(m, l) {
                assert forall|i: int| 0 <= i < l.len() implies #[trigger] self.loop_of_edge(back[i], l[i]) by {
                    assert(other.loop_of_edge(back[i], l[i]));
                }
            }
        }
    }

    /// With distinct block ids, a graph shaped by the blocks has predecessor
    /// lists that agree with its successor lists.
    pub proof fn lemma_built_consistent(self, blocks: Seq<MirBasicBlock>)
        requires
            self.shaped_by(blocks, self.entry),
            block_ids(blocks).no_duplicates(),
        ensures
            self.preds_consistent(),
    {
        let ids = block_ids(blocks);
        assert forall|x: MirBlockId, y: MirBlockId| self.has_node(y) && #[trigger] self.succs(x).contains(y) implies self.preds(y).contains(x) by {
            let j = choose|j: int| 0 <= j < ids.len() && ids[j] == x;
            assert(blocks[j].id == x);
            lemma_unique_last(blocks, j);
            assert(self.succs(x) == block_successors(blocks[j].terminator));
            assert(ids.contains(y));
            let m = lemma_successor_edge(blocks, ids, j, y);
            assert(self.edges@[m].source == x && self.edges@[m].target == y);
        }
        assert forall|x: MirBlockId, y: MirBlockId| #[trigger] self.preds(y).contains(x) implies self.succs(x).contains(y) by {
            let m = choose|m: int| 0 <= m < self.edges@.len() && #[trigger] self.edges@[m].source == x && self.edges@[m].target == y;
            let j = lemma_edge_origin(blocks, ids, m);
            lemma_unique_last(blocks, j);
            assert(ids[j] == x);
            assert(self.has_node(x));
            assert(self.succs(x) == block_successors(blocks[j].terminator));
        }
    }
}

/// With distinct ids, every block is the last with its id.
pub proof fn lemma_unique_last(blocks: Seq<MirBasicBlock>, j: int)
    requires
        block_ids(blocks).no_duplicates(),
        0 <= j < blocks.len(),
    ensures
        last_with_id(blocks, j),
{
    assert forall|k: int| j < k < blocks.len() implies blocks[k].id != blocks[j].id by {
        assert(block_ids(blocks)[k] == blocks[k].id && block_ids(blocks)[j] == blocks[j].id);
    }
}

/// Every edge of `blocks_edges` comes from some block's terminator and ends
/// at one of `ids`.
pub proof fn lemma_edge_origin(blocks: Seq<MirBasicBlock>, ids: Seq<MirBlockId>, m: int) -> (j: int)
    requires
        0 <= m < blocks_edges(blocks, ids).len(),
    ensures
        0 <= j < blocks.len(),
        blocks_edges(blocks, ids)[m].source == blocks[j].id,
        block_successors(blocks[j].terminator).contains(blocks_edges(blocks, ids)[m].target),
        ids.contains(blocks_edges(blocks, ids)[m].target),
    decreases blocks.len(),
{
    let rest = blocks_edges(blocks.drop_last(), ids);
    let last = blocks.last();
    let tail = terminator_edges(last.id, last.terminator).filter(|e: MirCfgEdge| ids.contains(e.target));
    assert(blocks_edges(blocks, ids) == rest + tail);
    if m < rest.len() {
        assert(blocks_edges(blocks, ids)[m] == rest[m]);
        let j = lemma_edge_origin(blocks.drop_last(), ids, m);
        assert(blocks.drop_last()[j] == blocks[j]);
        j
    } else {
        let e = tail[m - rest.len()];
        assert(blocks_edges(blocks, ids)[m] == e);
        let all = terminator_edges(last.id, last.terminator);
        reveal(Seq::filter);
        all.lemma_filter_contains_rev(|e: MirCfgEdge| ids.contains(e.target), e);
        assert(tail.contains(e));
        assert(all.contains(e) && ids.contains(e.target));
        let q = choose|q: int| 0 <= q < all.len() && all[q] == e;
        assert(e.source == last.id);
        assert(block_successors(last.terminator)[q] == e.target);
        blocks.len() - 1
    }
}

/// A successor of block `j` that is one of `ids` has its edge in
/// `blocks_edges`.
pub proof fn lemma_successor_edge(blocks: Seq<MirBasicBlock>, ids: Seq<MirBlockId>, j: int, y: MirBlockId) -> (m: int)
    requires
        0 <= j < blocks.len(),
        block_successors(blocks[j].terminator).contains(y),
        ids.contains(y),
    ensures
        0 <= m < blocks_edges(blocks, ids).len(),
        blocks_edges(blocks, ids)[m].source == blocks[j].id,
        blocks_edges(blocks, ids)[m].target == y,
    decreases blocks.len(),
{
    let rest = blocks_edges(blocks.drop_last(), ids);
    let last = blocks.last();
    let pred = |e: MirCfgEdge| ids.contains(e.target);
    let tail = terminator_edges(last.id, last.terminator).filter(pred);
    assert(blocks_edges(blocks, ids) == rest + tail);
    if j < blocks.len() - 1 {
        assert(blocks.drop_last()[j] == blocks[j]);
        let m = lemma_successor_edge(blocks.drop_last(), ids, j, y);
        assert((rest + tail)[m] == rest[m]);
        m
    } else {
        let all = terminator_edges(last.id, last.terminator);
        let q = choose|q: int| 0 <= q < block_successors(last.terminator).len() && block_successors(last.terminator)[q] == y;
        assert(all[q].source == last.id && all[q].target == y);
        reveal(Seq::filter);
        all.lemma_filter_contains(pred, q);
        assert(tail.contains(all[q]));
        let r = choose|r: int| 0 <= r < tail.len() && tail[r] == all[q];
        assert((rest + tail)[rest.len() + r] == all[q]);
        rest.len() + r
    }
}

/// An edge of `blocks_edges` ends at one of `ids`.
pub proof fn lemma_edge_target_is_block(blocks: Seq<MirBasicBlock>, ids: Seq<MirBlockId>, m: int)
    requires
        0 <= m < blocks_edges(blocks, ids).len(),
    ensures
        ids.contains(blocks_edges(blocks, ids)[m].target),
{
    lemma_edge_origin(blocks, ids, m);
}
} // verus!
