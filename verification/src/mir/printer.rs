//! The textual dump of the mid-level representation.
use vstd::prelude::*;

use crate::mir::cfg::{edge_kind_label, MirCfgEdge, MirControlFlowGraph, MirLoop};
use crate::mir::instruction::{MirInstruction, MirInstructionKind};
use crate::mir::types::{MirBlockId, MirCompareOperator, MirValue, MirValueId};
use crate::text::{decimal, push_char, push_decimal, push_decimal_u64, push_repeat, push_str, repeat_char, to_owned_string};

verus! {

/// Dumps functions, blocks and instructions with two spaces of indentation
/// per level.
pub struct MirPrinter {
    indent: usize,
}

/// `%N`.
pub open spec fn value_ref(v: MirValueId) -> Seq<char> {
    "%"@ + decimal(v.0 as nat)
}

/// `BlockN`.
pub open spec fn block_ref(b: MirBlockId) -> Seq<char> {
    "Block"@ + decimal(b.0 as nat)
}

/// The decimal text of a signed integer.
pub open spec fn signed_text(i: int) -> Seq<char> {
    if i < 0 {
        "-"@ + decimal((-i) as nat)
    } else {
        decimal(i as nat)
    }
}

/// How a constant is shown.
pub open spec fn value_text(v: MirValue) -> Seq<char> {
    match v {
        MirValue::Integer(n) => signed_text(n as int),
        MirValue::Float(text) => text@,
        MirValue::Boolean(b) => if b {
            "true"@
        } else {
            "false"@
        },
        MirValue::String(s) => "\""@ + s@ + "\""@,
        MirValue::Nil => "nil"@,
        MirValue::Unit => "()"@,
    }
}

/// The mnemonic of a comparison.
pub open spec fn compare_text(op: MirCompareOperator) -> Seq<char> {
    match op {
        MirCompareOperator::Equal => "eq"@,
        MirCompareOperator::NotEqual => "ne"@,
        MirCompareOperator::LessThan => "lt"@,
        MirCompareOperator::LessEqual => "le"@,
        MirCompareOperator::GreaterThan => "gt"@,
        MirCompareOperator::GreaterEqual => "ge"@,
    }
}

/// `OP %R, %L, %M`.
pub open spec fn three_text(op: Seq<char>, a: MirValueId, b: MirValueId, c: MirValueId) -> Seq<char> {
    op + " "@ + value_ref(a) + ", "@ + value_ref(b) + ", "@ + value_ref(c) + "\n"@
}

/// The first `n` values of `args`, each as `%N`, separated by commas.
pub open spec fn refs_text(args: Seq<MirValueId>, n: int) -> Seq<char>
    decreases n,
{
    if n <= 0 || n > args.len() {
        seq![]
    } else if n == 1 {
        value_ref(args[0])
    } else {
        refs_text(args, n - 1) + ", "@ + value_ref(args[n - 1])
    }
}

/// How an instruction is shown (without indentation).
pub open spec fn instruction_dump(kind: MirInstructionKind) -> Seq<char> {
    match kind {
        MirInstructionKind::Const { result, value } => "const "@ + value_ref(result) + " = "@ + value_text(value) + "\n"@,
        MirInstructionKind::Add { result, left, right } => three_text("add"@, result, left, right),
        MirInstructionKind::Subtract { result, left, right } => three_text("sub"@, result, left, right),
        MirInstructionKind::Multiply { result, left, right } => three_text("mul"@, result, left, right),
        MirInstructionKind::Divide { result, left, right } => three_text("div"@, result, left, right),
        MirInstructionKind::Modulo { result, left, right } => three_text("mod"@, result, left, right),
        MirInstructionKind::Equal { result, left, right } => three_text("eq"@, result, left, right),
        MirInstructionKind::NotEqual { result, left, right } => three_text("ne"@, result, left, right),
        MirInstructionKind::LessThan { result, left, right } => three_text("lt"@, result, left, right),
        MirInstructionKind::LessEqual { result, left, right } => three_text("le"@, result, left, right),
        MirInstructionKind::GreaterThan { result, left, right } => three_text("gt"@, result, left, right),
        MirInstructionKind::GreaterEqual { result, left, right } => three_text("ge"@, result, left, right),
        MirInstructionKind::And { result, left, right } => three_text("and"@, result, left, right),
        MirInstructionKind::Or { result, left, right } => three_text("or"@, result, left, right),
        MirInstructionKind::Not { result, operand } => "not "@ + value_ref(result) + ", "@ + value_ref(operand) + "\n"@,
        MirInstructionKind::Load { result, name } => "load "@ + value_ref(result) + ", "@ + name@ + "\n"@,
        MirInstructionKind::Store { name, value } => "store "@ + name@ + ", "@ + value_ref(value) + "\n"@,
        MirInstructionKind::Move { result, value } => "move "@ + value_ref(result) + ", "@ + value_ref(value) + "\n"@,
        MirInstructionKind::AllocateLocal { local, name } => "alloc_local "@ + value_ref(local) + ", "@ + name@ + "\n"@,
        MirInstructionKind::Branch { condition, true_block, false_block } => "branch "@ + value_ref(condition) + ", "@
            + block_ref(true_block) + ", "@ + block_ref(false_block) + "\n"@,
        MirInstructionKind::Jump { target } => "jump "@ + block_ref(target) + "\n"@,
        MirInstructionKind::Unreachable => "unreachable\n"@,
        MirInstructionKind::Call { result, function, arguments } => "call "@ + (match result {
            Some(r) => value_ref(r) + " = "@,
            None => seq![],
        }) + function@ + "("@ + refs_text(arguments@, arguments@.len() as int) + ")\n"@,
        MirInstructionKind::Compare { result, operator, left, right } => "cmp "@ + compare_text(operator) + " "@
            + value_ref(result) + ", "@ + value_ref(left) + ", "@ + value_ref(right) + "\n"@,
        MirInstructionKind::Return { value } => match value {
            Some(v) => "return "@ + value_ref(v) + "\n"@,
            None => "return\n"@,
        },
        MirInstructionKind::TableNew { result } => "table_new "@ + value_ref(result) + "\n"@,
        MirInstructionKind::TableSet { table, key, value } => three_text("table_set"@, table, key, value),
        MirInstructionKind::TableGet { result, table, key } => three_text("table_get"@, result, table, key),
        MirInstructionKind::Error => "<error>\n"@,
    }
}

fn push_value_ref(out: &mut String, v: MirValueId)
    ensures
        final(out)@ == old(out)@ + value_ref(v),
{
    push_str(out, "%");
    push_decimal(out, v.0);
}

fn push_block_ref(out: &mut String, b: MirBlockId)
    ensures
        final(out)@ == old(out)@ + block_ref(b),
{
    push_str(out, "Block");
    push_decimal(out, b.0);
}

/// `BlockA, BlockB, ...`.
pub open spec fn block_list_text(ids: Seq<MirBlockId>) -> Seq<char>
    decreases ids.len(),
{
    if ids.len() == 0 {
        seq![]
    } else if ids.len() == 1 {
        block_ref(ids[0])
    } else {
        block_list_text(ids.drop_last()) + ", "@ + block_ref(ids.last())
    }
}

/// One line `edge BlockA -> BlockB (kind)` per edge, each after `pad`.
pub open spec fn edges_text(pad: Seq<char>, es: Seq<MirCfgEdge>) -> Seq<char>
    decreases es.len(),
{
    if es.len() == 0 {
        seq![]
    } else {
        let e = es.last();
        edges_text(pad, es.drop_last()) + pad + "edge "@ + block_ref(e.source) + " -> "@ + block_ref(e.target) + " ("@
            + edge_kind_label(e.kind) + ")\n"@
    }
}

/// One line `loop header BlockH body [...]` per loop, each after `pad`.
pub open spec fn loops_text(pad: Seq<char>, ls: Seq<MirLoop>) -> Seq<char>
    decreases ls.len(),
{
    if ls.len() == 0 {
        seq![]
    } else {
        let l = ls.last();
        loops_text(pad, ls.drop_last()) + pad + "loop header "@ + block_ref(l.header) + " body ["@ + block_list_text(
            l.body_blocks@,
        ) + "]\n"@
    }
}

/// The listing of a control flow graph at indentation `indent`: its entry,
/// its exits (when there are any), its edges and its loops.
pub open spec fn cfg_text(indent: nat, g: MirControlFlowGraph) -> Seq<char> {
    let pad = repeat_char(' ', indent + 2);
    repeat_char(' ', indent) + "CFG:\n"@ + pad + "entry: "@ + block_ref(g.entry) + "\n"@ + (if g.exits@.len() > 0 {
        pad + "exits: "@ + block_list_text(g.exits@) + "\n"@
    } else {
        seq![]
    }) + edges_text(pad, g.edges@) + loops_text(pad, g.loops@)
}

/// Appends `BlockA, BlockB, ...` for the blocks `ids`.
fn push_block_list(out: &mut String, ids: &Vec<MirBlockId>)
    ensures
        final(out)@ == old(out)@ + block_list_text(ids@),
{
    let ghost start = out@;
    let mut i: usize = 0;
    while i < ids.len()
        invariant
            i <= ids@.len(),
            out@ == start + block_list_text(ids@.subrange(0, i as int)),
        decreases ids.len() - i,
    {
        proof {
            assert(ids@.subrange(0, i + 1).drop_last() =~= ids@.subrange(0, i as int));
        }
        if i > 0 {
            push_str(out, ", ");
        }
        push_block_ref(out, ids[i]);
        i = i + 1;
        proof {
            if i == 1 {
                assert(block_list_text(ids@.subrange(0, 0)) =~= Seq::<char>::empty());
            }
            assert(out@ =~= start + block_list_text(ids@.subrange(0, i as int)));
        }
    }
    assert(ids@.subrange(0, ids@.len() as int) =~= ids@);
}

fn push_three(out: &mut String, op: &str, a: MirValueId, b: MirValueId, c: MirValueId)
    ensures
        final(out)@ == old(out)@ + three_text(op@, a, b, c),
{
    push_str(out, op);
    push_str(out, " ");
    push_value_ref(out, a);
    push_str(out, ", ");
    push_value_ref(out, b);
    push_str(out, ", ");
    push_value_ref(out, c);
    push_str(out, "\n");
}

/// Appends the decimal text of a signed integer.
fn push_signed(out: &mut String, i: i64)
    ensures
        final(out)@ == old(out)@ + signed_text(i as int),
{
    if i < 0 {
        push_char(out, '-');
        let wide: i128 = i as i128;
        let magnitude: u64 = (0i128 - wide) as u64;
        push_decimal_u64(out, magnitude);
        assert(final(out)@ =~= old(out)@ + ("-"@ + decimal((-(i as int)) as nat))) by {
            reveal_strlit("-");
        }
    } else {
        push_decimal_u64(out, i as u64);
    }
}

impl MirPrinter {
    pub closed spec fn indent_level(self) -> nat {
        self.indent as nat
    }

    pub fn new() -> (result: Self)
        ensures
            result.indent_level() == 0,
    {
        MirPrinter { indent: 0 }
    }

    /// The current indentation.
    fn indent_str(&self) -> (result: String)
        ensures
            result@ == repeat_char(' ', self.indent as nat),
    {
        let mut s = String::new();
        push_repeat(&mut s, ' ', self.indent);
        assert(s@ =~= repeat_char(' ', self.indent as nat));
        s
    }

    fn print_value(&self, value: &MirValue) -> (result: String)
        ensures
            result@ == value_text(*value),
    {
        let mut out = String::new();
        match value {
            MirValue::Integer(n) => push_signed(&mut out, *n),
            MirValue::Float(text) => push_str(&mut out, text.as_str()),
            MirValue::Boolean(b) => push_str(&mut out, if *b { "true" } else { "false" }),
            MirValue::String(s) => {
                push_str(&mut out, "\"");
                push_str(&mut out, s.as_str());
                push_str(&mut out, "\"");
            },
            MirValue::Nil => push_str(&mut out, "nil"),
            MirValue::Unit => push_str(&mut out, "()"),
        }
        assert(out@ =~= value_text(*value));
        out
    }

    fn print_compare_operator(&self, operator: &MirCompareOperator) -> (result: &'static str)
        ensures
            result@ == compare_text(*operator),
    {
        match operator {
            MirCompareOperator::Equal => "eq",
            MirCompareOperator::NotEqual => "ne",
            MirCompareOperator::LessThan => "lt",
            MirCompareOperator::LessEqual => "le",
            MirCompareOperator::GreaterThan => "gt",
            MirCompareOperator::GreaterEqual => "ge",
        }
    }

    /// One instruction, indented.
    #[verifier::spinoff_prover]
    pub fn print_instruction(&mut self, instruction: &MirInstruction) -> (result: String)
        ensures
            result@ == repeat_char(' ', old(self).indent_level()) + instruction_dump(instruction.kind),
            final(self).indent_level() == old(self).indent_level(),
    {
        let mut output = self.indent_str();
        let ghost start = output@;
        match &instruction.kind {
            MirInstructionKind::Const { result, value } => {
                push_str(&mut output, "const ");
                push_value_ref(&mut output, *result);
                push_str(&mut output, " = ");
                let v = self.print_value(value);
                push_str(&mut output, v.as_str());
                push_str(&mut output, "\n");
            },
            MirInstructionKind::Add { result, left, right } => push_three(&mut output, "add", *result, *left, *right),
            MirInstructionKind::Subtract { result, left, right } => push_three(&mut output, "sub", *result, *left, *right),
            MirInstructionKind::Multiply { result, left, right } => push_three(&mut output, "mul", *result, *left, *right),
            MirInstructionKind::Divide { result, left, right } => push_three(&mut output, "div", *result, *left, *right),
            MirInstructionKind::Modulo { result, left, right } => push_three(&mut output, "mod", *result, *left, *right),
            MirInstructionKind::Equal { result, left, right } => push_three(&mut output, "eq", *result, *left, *right),
            MirInstructionKind::NotEqual { result, left, right } => push_three(&mut output, "ne", *result, *left, *right),
            MirInstructionKind::LessThan { result, left, right } => push_three(&mut output, "lt", *result, *left, *right),
            MirInstructionKind::LessEqual { result, left, right } => push_three(&mut output, "le", *result, *left, *right),
            MirInstructionKind::GreaterThan { result, left, right } => push_three(&mut output, "gt", *result, *left, *right),
            MirInstructionKind::GreaterEqual { result, left, right } => push_three(&mut output, "ge", *result, *left, *right),
            MirInstructionKind::And { result, left, right } => push_three(&mut output, "and", *result, *left, *right),
            MirInstructionKind::Or { result, left, right } => push_three(&mut output, "or", *result, *left, *right),
            MirInstructionKind::Not { result, operand } => {
                push_str(&mut output, "not ");
                push_value_ref(&mut output, *result);
                push_str(&mut output, ", ");
                push_value_ref(&mut output, *operand);
                push_str(&mut output, "\n");
            },
            MirInstructionKind::Load { result, name } => {
                push_str(&mut output, "load ");
                push_value_ref(&mut output, *result);
                push_str(&mut output, ", ");
                push_str(&mut output, name.as_str());
                push_str(&mut output, "\n");
            },
            MirInstructionKind::Store { name, value } => {
                push_str(&mut output, "store ");
                push_str(&mut output, name.as_str());
                push_str(&mut output, ", ");
                push_value_ref(&mut output, *value);
                push_str(&mut output, "\n");
            },
            MirInstructionKind::Move { result, value } => {
                push_str(&mut output, "move ");
                push_value_ref(&mut output, *result);
                push_str(&mut output, ", ");
                push_value_ref(&mut output, *value);
                push_str(&mut output, "\n");
            },
            MirInstructionKind::AllocateLocal { local, name } => {
                push_str(&mut output, "alloc_local ");
                push_value_ref(&mut output, *local);
                push_str(&mut output, ", ");
                push_str(&mut output, name.as_str());
                push_str(&mut output, "\n");
            },
            MirInstructionKind::Branch { condition, true_block, false_block } => {
                push_str(&mut output, "branch ");
                push_value_ref(&mut output, *condition);
                push_str(&mut output, ", ");
                push_block_ref(&mut output, *true_block);
                push_str(&mut output, ", ");
                push_block_ref(&mut output, *false_block);
                push_str(&mut output, "\n");
            },
            MirInstructionKind::Jump { target } => {
                push_str(&mut output, "jump ");
                push_block_ref(&mut output, *target);
                push_str(&mut output, "\n");
            },
            MirInstructionKind::Unreachable => push_str(&mut output, "unreachable\n"),
            MirInstructionKind::Call { result, function, arguments } => {
                push_str(&mut output, "call ");
                if let Some(r) = result {
                    push_value_ref(&mut output, *r);
                    push_str(&mut output, " = ");
                }
                push_str(&mut output, function.as_str());
                push_str(&mut output, "(");
                let ghost before = output@;
                let mut k: usize = 0;
                while k < arguments.len()
                    invariant
                        k <= arguments@.len(),
                        output@ == before + refs_text(arguments@, k as int),
                    decreases arguments.len() - k,
                {
                    if k > 0 {
                        push_str(&mut output, ", ");
                    }
                    push_value_ref(&mut output, arguments[k]);
                    proof {
                        assert(output@ =~= before + refs_text(arguments@, k + 1));
                    }
                    k = k + 1;
                }
                push_str(&mut output, ")\n");
            },
            MirInstructionKind::Compare { result, operator, left, right } => {
                push_str(&mut output, "cmp ");
                push_str(&mut output, self.print_compare_operator(operator));
                push_str(&mut output, " ");
                push_value_ref(&mut output, *result);
                push_str(&mut output, ", ");
                push_value_ref(&mut output, *left);
                push_str(&mut output, ", ");
                push_value_ref(&mut output, *right);
                push_str(&mut output, "\n");
            },
            MirInstructionKind::Return { value } => match value {
                Some(v) => {
                    push_str(&mut output, "return ");
                    push_value_ref(&mut output, *v);
                    push_str(&mut output, "\n");
                },
                None => push_str(&mut output, "return\n"),
            },
            MirInstructionKind::TableNew { result } => {
                push_str(&mut output, "table_new ");
                push_value_ref(&mut output, *result);
                push_str(&mut output, "\n");
            },
            MirInstructionKind::TableSet { table, key, value } => push_three(&mut output, "table_set", *table, *key, *value),
            MirInstructionKind::TableGet { result, table, key } => push_three(&mut output, "table_get", *result, *table, *key),
            MirInstructionKind::Error => push_str(&mut output, "<error>\n"),
        }
        assert(output@ =~= start + instruction_dump(instruction.kind));
        output
    }

    /// The listing of `cfg` at the current indentation, its lines indented
    /// two more; nothing when there is no graph.
    pub fn print_cfg(&mut self, cfg: Option<&MirControlFlowGraph>) -> (result: String)
        requires
            old(self).indent_level() + 2 <= usize::MAX,
        ensures
            final(self).indent_level() == old(self).indent_level(),
            cfg is None ==> result@ == Seq::<char>::empty(),
            cfg matches Some(g) ==> result@ == cfg_text(old(self).indent_level(), *g),
    {
        let mut output = String::new();
        let g = match cfg {
            Some(g) => g,
            None => {
                return output;
            },
        };
        let ghost indent0 = self.indent as nat;
        let first = self.indent_str();
        push_str(&mut output, first.as_str());
        push_str(&mut output, "CFG:\n");
        self.indent = self.indent + 2;
        let pad = self.indent_str();
        push_str(&mut output, pad.as_str());
        push_str(&mut output, "entry: ");
        push_block_ref(&mut output, g.entry);
        push_str(&mut output, "\n");
        if g.exits.len() > 0 {
            push_str(&mut output, pad.as_str());
            push_str(&mut output, "exits: ");
            push_block_list(&mut output, &g.exits);
            push_str(&mut output, "\n");
        }
        let ghost head = output@;
        let mut i: usize = 0;
        while i < g.edges.len()
            invariant
                i <= g.edges@.len(),
                output@ == head + edges_text(pad@, g.edges@.subrange(0, i as int)),
            decreases g.edges.len() - i,
        {
            proof {
                assert(g.edges@.subrange(0, i + 1).drop_last() =~= g.edges@.subrange(0, i as int));
            }
            let e = &g.edges[i];
            push_str(&mut output, pad.as_str());
            push_str(&mut output, "edge ");
            push_block_ref(&mut output, e.source);
            push_str(&mut output, " -> ");
            push_block_ref(&mut output, e.target);
            push_str(&mut output, " (");
            push_str(&mut output, e.kind.label());
            push_str(&mut output, ")\n");
            i = i + 1;
            assert(output@ =~= head + edges_text(pad@, g.edges@.subrange(0, i as int)));
        }
        assert(g.edges@.subrange(0, g.edges@.len() as int) =~= g.edges@);
        let ghost mid = output@;
        let mut k: usize = 0;
        while k < g.loops.len()
            invariant
                k <= g.loops@.len(),
                output@ == mid + loops_text(pad@, g.loops@.subrange(0, k as int)),
            decreases g.loops.len() - k,
        {
            proof {
                assert(g.loops@.subrange(0, k + 1).drop_last() =~= g.loops@.subrange(0, k as int));
            }
            let l = &g.loops[k];
            push_str(&mut output, pad.as_str());
            push_str(&mut output, "loop header ");
            push_block_ref(&mut output, l.header);
            push_str(&mut output, " body [");
            push_block_list(&mut output, &l.body_blocks);
            push_str(&mut output, "]\n");
            k = k + 1;
            assert(output@ =~= mid + loops_text(pad@, g.loops@.subrange(0, k as int)));
        }
        assert(g.loops@.subrange(0, g.loops@.len() as int) =~= g.loops@);
        self.indent = self.indent - 2;
        assert(output@ =~= cfg_text(indent0, *g));
        output
    }
}

} // verus!
