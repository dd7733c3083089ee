//! Text generation of LLVM IR from the mid-level representation.
use vstd::prelude::*;

use crate::llvm::error::LlvmError;
use crate::llvm::types::{llvm_type_text, map_mir_type, mir_llvm_type, LlvmType};
use crate::mir::block::MirBasicBlock;
use crate::mir::function::MirFunction;
use crate::mir::instruction::{MirInstruction, MirInstructionKind};
use crate::mir::module::MirModule;
use crate::mir::types::{MirBlockId, MirCompareOperator, MirType, MirValue, MirValueId};
use crate::mir::value::MirValueData;
use crate::text::{
    chars_of, contains_seq, decimal, push_char, push_decimal, push_decimal_u64, push_str, str_byte_len, str_contains, str_eq,
    to_owned_string,
};
use vstd::utf8::encode_utf8;

verus! {

/// A string constant emitted as a private global.
struct StringConstant {
    name: String,
    value: String,
}

/// Generates the IR of a module, interning string constants as it goes.
pub struct LlvmGenerator {
    module_name: String,
    string_constants: Vec<StringConstant>,
    function_return_types: Vec<(String, MirType)>,
}

// ----- the text of types, numbers and names -----

/// How LLVM writes the type a MIR type maps to.
pub open spec fn ty(t: MirType) -> Seq<char> {
    llvm_type_text(mir_llvm_type(t))
}

/// The decimal text of a signed integer.
pub open spec fn int_text(i: int) -> Seq<char> {
    if i < 0 {
        "-"@ + decimal((-i) as nat)
    } else {
        decimal(i as nat)
    }
}

/// Names that start with `local_` are stack slots.
pub open spec fn is_local_name(name: Seq<char>) -> bool {
    name.len() >= 6 && name.subrange(0, 6) == "local_"@
}

/// How a slot or global is named as a pointer.
pub open spec fn pointer_name(name: Seq<char>) -> Seq<char> {
    if is_local_name(name) {
        "%"@ + name
    } else {
        "@"@ + name
    }
}

/// The runtime function that prints a value of an LLVM type.
pub open spec fn print_function_llvm(t: LlvmType) -> Seq<char> {
    match t {
        LlvmType::Integer(64) => "glua_print_i64"@,
        LlvmType::Double => "glua_print_f64"@,
        LlvmType::Boolean => "glua_print_bool"@,
        _ => "glua_print"@,
    }
}

/// The runtime function that prints a value of a MIR type.
pub open spec fn print_function(t: MirType) -> Seq<char> {
    print_function_llvm(mir_llvm_type(t))
}

/// The `icmp` predicate of a comparison.
pub open spec fn predicate_text(op: MirCompareOperator) -> Seq<char> {
    match op {
        MirCompareOperator::Equal => "eq"@,
        MirCompareOperator::NotEqual => "ne"@,
        MirCompareOperator::LessThan => "slt"@,
        MirCompareOperator::LessEqual => "sle"@,
        MirCompareOperator::GreaterThan => "sgt"@,
        MirCompareOperator::GreaterEqual => "sge"@,
    }
}

/// A hexadecimal digit in upper case.
pub open spec fn hex_digit(d: u8) -> char {
    if d < 10 {
        ((48 + d) as u8) as char
    } else {
        ((55 + d) as u8) as char
    }
}

/// How a byte is written inside an LLVM string constant: quote, backslash
/// and control bytes as `\XX`, printable ASCII as itself.
pub open spec fn escaped_byte(b: u8) -> Seq<char> {
    if b == 0x5C {
        "\\5C"@
    } else if b == 0x22 {
        "\\22"@
    } else if b == 0x0A {
        "\\0A"@
    } else if b == 0x0D {
        "\\0D"@
    } else if b == 0x09 {
        "\\09"@
    } else if 0x20 <= b <= 0x7E {
        seq![b as char]
    } else {
        seq!['\\', hex_digit(b / 16), hex_digit(b % 16)]
    }
}

pub open spec fn escaped_bytes(bytes: Seq<u8>) -> Seq<char>
    decreases bytes.len(),
{
    if bytes.len() == 0 {
        seq![]
    } else {
        escaped_bytes(bytes.drop_last()) + escaped_byte(bytes.last())
    }
}

/// How a float constant is written: its text, with `.0` added when it has
/// neither a point nor an exponent.
pub open spec fn float_literal(text: Seq<char>) -> Seq<char> {
    if !text.contains('.') && !text.contains('e') && !text.contains('E') {
        text + ".0"@
    } else {
        text
    }
}

/// The label of a branch target: block 0 is the entry.
pub open spec fn target_label(b: MirBlockId) -> Seq<char> {
    if b.0 == 0 {
        "entry"@
    } else {
        "block"@ + decimal(b.0 as nat)
    }
}

// ----- the tables the generator consults -----

/// The string constants interned so far, as (name, value) pairs.
pub type ConstTable = Seq<(Seq<char>, Seq<char>)>;

/// The name under which `value` was interned.
pub open spec fn const_name(table: ConstTable, value: Seq<char>) -> Option<Seq<char>>
    decreases table.len(),
{
    if table.len() == 0 {
        None
    } else if table.last().1 == value {
        Some(table.last().0)
    } else {
        const_name(table.drop_last(), value)
    }
}

/// Interning `value`: its existing name, or a new name `.strN` with `N` the
/// number of constants so far.
pub open spec fn intern(table: ConstTable, value: Seq<char>) -> (Seq<char>, ConstTable) {
    match const_name(table, value) {
        Some(name) => (name, table),
        None => {
            let name = ".str"@ + decimal(table.len());
            (name, table.push((name, value)))
        },
    }
}

/// The return type recorded last for `name`.
pub open spec fn recorded_return(recorded: Seq<(Seq<char>, MirType)>, name: Seq<char>) -> Option<MirType>
    decreases recorded.len(),
{
    if recorded.len() == 0 {
        None
    } else if recorded.last().0 == name {
        Some(recorded.last().1)
    } else {
        recorded_return(recorded.drop_last(), name)
    }
}

/// The type a call of `name` recorded: the runtime's own functions are
/// known, other functions return what was recorded for them, or nothing.
pub open spec fn call_return(recorded: Seq<(Seq<char>, MirType)>, name: Seq<char>) -> MirType {
    if name == "glua_print"@ || name == "glua_table_set"@ {
        MirType::Void
    } else if name == "glua_table_new"@ || name == "glua_table_get"@ {
        MirType::Table
    } else {
        match recorded_return(recorded, name) {
            Some(t) => t,
            None => MirType::Void,
        }
    }
}

/// The type of the value `id`: that of the last value recorded with that
/// id, or integer.
pub open spec fn value_type(values: Seq<MirValueData>, id: MirValueId) -> MirType
    decreases values.len(),
{
    if values.len() == 0 {
        MirType::Integer
    } else if values.last().id == id {
        values.last().value_type
    } else {
        value_type(values.drop_last(), id)
    }
}

/// The type of the last local in `locals` whose storage is `name`.
pub open spec fn last_local_type(locals: Seq<crate::mir::value::MirLocal>, name: Seq<char>) -> Option<MirType>
    decreases locals.len(),
{
    if locals.len() == 0 {
        None
    } else if locals.last().storage@ == name {
        Some(locals.last().value_type)
    } else {
        last_local_type(locals.drop_last(), name)
    }
}

/// Some instruction among the first `n` blocks (all instructions of them)
/// names the slot `name`.
pub open spec fn named_in_blocks(blocks: Seq<MirBasicBlock>, name: Seq<char>) -> bool {
    exists|b: int, k: int|
        0 <= b < blocks.len() && 0 <= k < blocks[b].instructions@.len() && #[trigger] names_slot(
            blocks[b].instructions@[k].kind,
            name,
        )
}

/// The type of the stack slot `name`: that of the last local with that
/// storage, or integer when an instruction names it; none for names that
/// are not slots.
pub open spec fn slot_type(f: MirFunction, name: Seq<char>) -> Option<MirType> {
    if !is_local_name(name) {
        None
    } else if last_local_type(f.locals@, name).is_some() {
        last_local_type(f.locals@, name)
    } else if named_in_blocks(f.blocks@, name) {
        Some(MirType::Integer)
    } else {
        None
    }
}

/// The instruction reads, writes or allocates the slot `name`.
pub open spec fn names_slot(kind: MirInstructionKind, name: Seq<char>) -> bool {
    match kind {
        MirInstructionKind::Load { name: n, .. } => n@ == name,
        MirInstructionKind::Store { name: n, .. } => n@ == name,
        MirInstructionKind::AllocateLocal { name: n, .. } => n@ == name,
        _ => false,
    }
}


/// `a` comes before `b` in code-point order (the order of Rust strings).
pub open spec fn chars_lt(a: Seq<char>, b: Seq<char>) -> bool
    decreases a.len(),
{
    if a.len() == 0 {
        b.len() > 0
    } else if b.len() == 0 {
        false
    } else if (a[0] as u32) < (b[0] as u32) {
        true
    } else if a[0] == b[0] {
        chars_lt(a.drop_first(), b.drop_first())
    } else {
        false
    }
}

pub proof fn lemma_chars_lt_total(a: Seq<char>, b: Seq<char>)
    ensures
        a == b || chars_lt(a, b) || chars_lt(b, a),
        !(chars_lt(a, b) && chars_lt(b, a)),
        !chars_lt(a, a),
    decreases a.len(),
{
    if a.len() > 0 && b.len() > 0 && a[0] == b[0] {
        lemma_chars_lt_total(a.drop_first(), b.drop_first());
        if a.drop_first() == b.drop_first() {
            assert(a =~= seq![a[0]] + a.drop_first());
            assert(b =~= seq![b[0]] + b.drop_first());
        }
    } else if a.len() > 0 && b.len() > 0 {
        vstd::utf8::char_u32_cast(a[0], a[0] as u32);
        vstd::utf8::char_u32_cast(b[0], b[0] as u32);
        assert((a[0] as u32) != (b[0] as u32));
    } else if a.len() == 0 && b.len() == 0 {
        assert(a =~= b);
    }
    if a.len() > 0 {
        lemma_chars_lt_total(a.drop_first(), a.drop_first());
    }
}

pub proof fn lemma_chars_lt_transitive(a: Seq<char>, b: Seq<char>, c: Seq<char>)
    requires
        chars_lt(a, b),
        chars_lt(b, c),
    ensures
        chars_lt(a, c),
    decreases a.len(),
{
    if a.len() > 0 && b.len() > 0 && c.len() > 0 && a[0] == b[0] && b[0] == c[0] {
        lemma_chars_lt_transitive(a.drop_first(), b.drop_first(), c.drop_first());
    }
}

/// The names of `v` increase strictly in code-point order.
pub open spec fn names_sorted(v: Seq<(String, MirType)>) -> bool {
    forall|i: int, j: int| 0 <= i < j < v.len() ==> chars_lt(v[i].0@, v[j].0@)
}

/// Whether `a` comes before `b`.
pub(crate) fn string_lt(a: &str, b: &str) -> (result: bool)
    ensures
        result == chars_lt(a@, b@),
{
    let x = chars_of(a);
    let y = chars_of(b);
    assert(a@.subrange(0, a@.len() as int) =~= a@);
    assert(b@.subrange(0, b@.len() as int) =~= b@);
    let mut i: usize = 0;
    while i < x.len() && i < y.len() && x[i] == y[i]
        invariant
            x@ == a@,
            y@ == b@,
            i <= x@.len(),
            i <= y@.len(),
            chars_lt(a@, b@) == chars_lt(a@.subrange(i as int, a@.len() as int), b@.subrange(i as int, b@.len() as int)),
        decreases x.len() - i,
    {
        proof {
            let sa = a@.subrange(i as int, a@.len() as int);
            let sb = b@.subrange(i as int, b@.len() as int);
            assert(sa.drop_first() =~= a@.subrange(i + 1, a@.len() as int));
            assert(sb.drop_first() =~= b@.subrange(i + 1, b@.len() as int));
        }
        i = i + 1;
    }
    let sa = Ghost(a@.subrange(i as int, a@.len() as int));
    let sb = Ghost(b@.subrange(i as int, b@.len() as int));
    if i == x.len() {
        i < y.len()
    } else if i == y.len() {
        false
    } else {
        assert(sa@[0] == x@[i as int] && sb@[0] == y@[i as int]);
        (x[i] as u32) < (y[i] as u32)
    }
}

/// `e` inserted into the sorted table `v` at its place.
fn insert_sorted(v: &mut Vec<(String, MirType)>, e: (String, MirType))
    requires
        names_sorted(old(v)@),
        forall|i: int| 0 <= i < old(v)@.len() ==> old(v)@[i].0@ != e.0@,
    ensures
        names_sorted(final(v)@),
        final(v)@.len() == old(v)@.len() + 1,
        forall|x: (String, MirType)| final(v)@.contains(x) <==> (old(v)@.contains(x) || x == e),
{
    let mut p: usize = 0;
    while p < v.len() && string_lt(v[p].0.as_str(), e.0.as_str())
        invariant
            p <= v@.len(),
            forall|i: int| 0 <= i < p ==> chars_lt(v@[i].0@, e.0@),
        decreases v.len() - p,
    {
        p = p + 1;
    }
    let ghost before = v@;
    proof {
        if p < before.len() {
            lemma_chars_lt_total(before[p as int].0@, e.0@);
        }
    }
    v.insert(p, e);
    proof {
        let r = v@;
        assert forall|i: int, j: int| 0 <= i < j < r.len() implies chars_lt(r[i].0@, r[j].0@) by {
            if j < p {
                assert(r[i] == before[i] && r[j] == before[j]);
            } else if j == p {
                assert(r[i] == before[i]);
            } else if i < p {
                assert(r[i] == before[i] && r[j] == before[j - 1]);
                assert(chars_lt(e.0@, before[p as int].0@));
                if j - 1 > p {
                    assert(chars_lt(before[p as int].0@, before[j - 1].0@));
                    lemma_chars_lt_transitive(e.0@, before[p as int].0@, before[j - 1].0@);
                }
                lemma_chars_lt_transitive(before[i].0@, e.0@, before[j - 1].0@);
            } else if i == p {
                assert(r[j] == before[j - 1]);
                assert(chars_lt(e.0@, before[p as int].0@));
                if j - 1 > p {
                    lemma_chars_lt_transitive(e.0@, before[p as int].0@, before[j - 1].0@);
                }
            } else {
                assert(r[i] == before[i - 1] && r[j] == before[j - 1]);
            }
        }
        assert forall|x: (String, MirType)| r.contains(x) <==> (before.contains(x) || x == e) by {
            if r.contains(x) {
                let k = choose|k: int| 0 <= k < r.len() && r[k] == x;
                if k < p {
                    assert(before[k] == x);
                } else if k > p {
                    assert(before[k - 1] == x);
                }
            }
            if before.contains(x) {
                let k = choose|k: int| 0 <= k < before.len() && before[k] == x;
                if k < p {
                    assert(r[k] == x);
                } else {
                    assert(r[k + 1] == x);
                }
            }
            if x == e {
                assert(r[p as int] == x);
            }
        }
    }
}

// ----- the text of instructions -----

/// `%N`: the name of a value.
pub open spec fn reg(v: MirValueId) -> Seq<char> {
    "%"@ + decimal(v.0 as nat)
}

/// `%R = OP %L, %M` over `i64` or `i1`.
pub open spec fn binary_text(result: MirValueId, op: Seq<char>, left: MirValueId, right: MirValueId) -> Seq<char> {
    reg(result) + " = "@ + op + " "@ + reg(left) + ", "@ + reg(right) + "\n"@
}

/// The text of a constant, and the string table after it.
pub open spec fn const_text(table: ConstTable, result: MirValueId, value: MirValue) -> (Seq<char>, ConstTable) {
    match value {
        MirValue::String(sv) => {
            let interned = intern(table, sv@);
            let len = decimal(encode_utf8(sv@).len() + 1);
            (
                reg(result) + " = getelementptr inbounds ["@ + len + " x i8], ["@ + len + " x i8]* @"@ + interned.0
                    + ", i64 0, i64 0\n"@,
                interned.1,
            )
        },
        MirValue::Integer(i) => (reg(result) + " = add i64 0, "@ + int_text(i as int) + "\n"@, table),
        MirValue::Float(text) => (reg(result) + " = fadd double 0.0, "@ + float_literal(text@) + "\n"@, table),
        MirValue::Boolean(b) => (
            reg(result) + " = xor i1 false, "@ + (if b {
                "true"@
            } else {
                "false"@
            }) + "\n"@,
            table,
        ),
        MirValue::Nil => (reg(result) + " = inttoptr i64 0 to i8*\n"@, table),
        MirValue::Unit => (reg(result) + " = add i64 0, 0\n"@, table),
    }
}

/// One argument of a call: its type and its name.
pub open spec fn argument_text(values: Seq<MirValueData>, a: MirValueId) -> Seq<char> {
    ty(value_type(values, a)) + " "@ + reg(a)
}

/// The first `n` arguments, separated by commas.
pub open spec fn arguments_text(values: Seq<MirValueData>, args: Seq<MirValueId>, n: int) -> Seq<char>
    decreases n,
{
    if n <= 0 || n > args.len() {
        seq![]
    } else if n == 1 {
        argument_text(values, args[0])
    } else {
        arguments_text(values, args, n - 1) + ", "@ + argument_text(values, args[n - 1])
    }
}

/// The text of a call: printing one value goes to the runtime printer of
/// its type; any other call passes its typed arguments.
pub open spec fn call_text(recorded: Seq<(Seq<char>, MirType)>, vals: Seq<MirValueData>, result: Option<MirValueId>, callee: Seq<char>, args: Seq<MirValueId>) -> Seq<char> {
    if callee == "glua_print"@ && args.len() == 1 {
        let a = args[0];
        let t = value_type(vals, a);
        "call void @"@ + print_function(t) + "("@ + ty(t) + " "@ + reg(a) + ")\n"@
    } else {
        let text = arguments_text(vals, args, args.len() as int);
        let rt = ty(call_return(recorded, callee));
        match result {
            Some(r) => reg(r) + " = call "@ + rt + " @"@ + callee + "("@ + text + ")\n"@,
            None => "call "@ + rt + " @"@ + callee + "("@ + text + ")\n"@,
        }
    }
}

/// The type a slot access uses: the slot's own, else the value's.
pub open spec fn access_type(f: MirFunction, name: Seq<char>, v: MirValueId) -> MirType {
    match slot_type(f, name) {
        Some(t) => t,
        None => value_type(f.values@, v),
    }
}

/// The text of an arithmetic, comparison or logic instruction, or a move.
pub open spec fn arith_text(kind: MirInstructionKind) -> Seq<char> {
    match kind {
        MirInstructionKind::Add { result, left, right } => binary_text(result, "add i64"@, left, right),
        MirInstructionKind::Subtract { result, left, right } => binary_text(result, "sub i64"@, left, right),
        MirInstructionKind::Multiply { result, left, right } => binary_text(result, "mul i64"@, left, right),
        MirInstructionKind::Divide { result, left, right } => binary_text(result, "sdiv i64"@, left, right),
        MirInstructionKind::Modulo { result, left, right } => binary_text(result, "srem i64"@, left, right),
        MirInstructionKind::Equal { result, left, right } => binary_text(result, "icmp eq i64"@, left, right),
        MirInstructionKind::NotEqual { result, left, right } => binary_text(result, "icmp ne i64"@, left, right),
        MirInstructionKind::LessThan { result, left, right } => binary_text(result, "icmp slt i64"@, left, right),
        MirInstructionKind::LessEqual { result, left, right } => binary_text(result, "icmp sle i64"@, left, right),
        MirInstructionKind::GreaterThan { result, left, right } => binary_text(result, "icmp sgt i64"@, left, right),
        MirInstructionKind::GreaterEqual { result, left, right } => binary_text(result, "icmp sge i64"@, left, right),
        MirInstructionKind::And { result, left, right } => binary_text(result, "and i1"@, left, right),
        MirInstructionKind::Or { result, left, right } => binary_text(result, "or i1"@, left, right),
        MirInstructionKind::Not { result, operand } => reg(result) + " = xor i1 "@ + reg(operand) + ", true\n"@,
        MirInstructionKind::Move { result, value } => reg(result) + " = add i64 0, "@ + reg(value) + "\n"@,
        MirInstructionKind::Compare { result, operator, left, right } => reg(result) + " = icmp "@ + predicate_text(operator)
            + " i64 "@ + reg(left) + ", "@ + reg(right) + "\n"@,
        _ => seq![],
    }
}

/// The text of a slot load or store of `f`.
pub open spec fn access_text(f: MirFunction, kind: MirInstructionKind) -> Seq<char> {
    match kind {
        MirInstructionKind::Load { result, name } => {
            let t = ty(access_type(f, name@, result));
            reg(result) + " = load "@ + t + ", "@ + t + "* "@ + pointer_name(name@) + "\n"@
        },
        MirInstructionKind::Store { name, value } => {
            let t = ty(access_type(f, name@, value));
            "store "@ + t + " "@ + reg(value) + ", "@ + t + "* "@ + pointer_name(name@) + "\n"@
        },
        _ => seq![],
    }
}

/// The text of a control-flow, table or placeholder instruction of `f`.
pub open spec fn control_text(f: MirFunction, kind: MirInstructionKind) -> Seq<char> {
    match kind {
        MirInstructionKind::AllocateLocal { .. } => "; local slot allocated in entry prologue\n"@,
        MirInstructionKind::Branch { condition, true_block, false_block } => "br i1 "@ + reg(condition) + ", label %"@
            + target_label(true_block) + ", label %"@ + target_label(false_block) + "\n"@,
        MirInstructionKind::Jump { target } => "br label %"@ + target_label(target) + "\n"@,
        MirInstructionKind::Unreachable => "unreachable\n"@,
        MirInstructionKind::Return { value } => match value {
            Some(v) => "ret "@ + ty(value_type(f.values@, v)) + " "@ + reg(v) + "\n"@,
            None => "ret void\n"@,
        },
        MirInstructionKind::TableNew { result } => reg(result) + " = call i8* @glua_table_new()\n"@,
        MirInstructionKind::TableSet { table, key, value } => "call void @glua_table_set(i8* "@ + reg(table) + ", i8* "@
            + reg(key) + ", i8* "@ + reg(value) + ")\n"@,
        MirInstructionKind::TableGet { result, table, key } => reg(result) + " = call i8* @glua_table_get(i8* "@ + reg(table)
            + ", i8* "@ + reg(key) + ")\n"@,
        MirInstructionKind::Error => "; <error instruction>\n"@,
        _ => seq![],
    }
}

/// Which of the groups above an instruction belongs to.
pub open spec fn is_arith(kind: MirInstructionKind) -> bool {
    ||| kind is Add ||| kind is Subtract ||| kind is Multiply ||| kind is Divide ||| kind is Modulo
    ||| kind is Equal ||| kind is NotEqual ||| kind is LessThan ||| kind is LessEqual ||| kind is GreaterThan
    ||| kind is GreaterEqual ||| kind is And ||| kind is Or ||| kind is Not ||| kind is Move ||| kind is Compare
}

/// The text of an instruction of `f` (without its indentation), and the
/// string table after it.
pub open spec fn instruction_body(table: ConstTable, recorded: Seq<(Seq<char>, MirType)>, f: MirFunction, kind: MirInstructionKind) -> (Seq<char>, ConstTable) {
    match kind {
        MirInstructionKind::Const { result, value } => const_text(table, result, value),
        MirInstructionKind::Call { result, function, arguments } => (call_text(recorded, f.values@, result, function@, arguments@), table),
        MirInstructionKind::Load { .. } => (access_text(f, kind), table),
        MirInstructionKind::Store { .. } => (access_text(f, kind), table),
        _ => if is_arith(kind) {
            (arith_text(kind), table)
        } else {
            (control_text(f, kind), table)
        },
    }
}

/// The first `n` instructions of `ins`, each indented, with the string
/// table threaded through them in order.
pub open spec fn instructions_text(table: ConstTable, recorded: Seq<(Seq<char>, MirType)>, f: MirFunction, ins: Seq<MirInstruction>, n: int) -> (Seq<char>, ConstTable)
    decreases n,
{
    if n <= 0 || n > ins.len() {
        (seq![], table)
    } else {
        let before = instructions_text(table, recorded, f, ins, n - 1);
        let last = instruction_body(before.1, recorded, f, ins[n - 1].kind);
        (before.0 + "    "@ + last.0, last.1)
    }
}

// ----- executable helpers -----

/// Appends the decimal text of a signed integer.
fn push_int(out: &mut String, i: i64)
    ensures
        final(out)@ == old(out)@ + int_text(i as int),
{
    if i < 0 {
        push_char(out, '-');
        let wide: i128 = i as i128;
        let magnitude: u64 = (0i128 - wide) as u64;
        push_decimal_u64(out, magnitude);
        assert(final(out)@ =~= old(out)@ + ("-"@ + decimal((-(i as int)) as nat))) by {
            reveal_strlit("-");
        }
    } else {
        push_decimal_u64(out, i as u64);
    }
}

/// Appends how LLVM writes the type a MIR type maps to.
fn push_type(out: &mut String, t: MirType)
    ensures
        final(out)@ == old(out)@ + ty(t),
{
    let lt = map_mir_type(&t);
    lt.push_text(out);
}

/// Appends `%N`.
fn push_reg(out: &mut String, v: MirValueId)
    ensures
        final(out)@ == old(out)@ + reg(v),
{
    push_str(out, "%");
    push_decimal(out, v.0);
}

/// Appends a branch target's label.
fn push_target(out: &mut String, b: MirBlockId)
    ensures
        final(out)@ == old(out)@ + target_label(b),
{
    if b.0 == 0 {
        push_str(out, "entry");
    } else {
        push_str(out, "block");
        push_decimal(out, b.0);
    }
}

/// Appends `%R = OP %L, %M` and a line feed.
fn push_binary(out: &mut String, result: MirValueId, op: &str, left: MirValueId, right: MirValueId)
    ensures
        final(out)@ == old(out)@ + binary_text(result, op@, left, right),
{
    push_reg(out, result);
    push_str(out, " = ");
    push_str(out, op);
    push_str(out, " ");
    push_reg(out, left);
    push_str(out, ", ");
    push_reg(out, right);
    push_str(out, "\n");
}

/// The type of the value `id` among `values`.
fn find_value_type(values: &Vec<MirValueData>, id: MirValueId) -> (result: MirType)
    ensures
        result == value_type(values@, id),
{
    let mut i: usize = values.len();
    assert(values@.subrange(0, i as int) =~= values@);
    while i > 0
        invariant
            i <= values@.len(),
            value_type(values@, id) == value_type(values@.subrange(0, i as int), id),
        decreases i,
    {
        proof {
            assert(values@.subrange(0, i as int).drop_last() =~= values@.subrange(0, i - 1));
        }
        if values[i - 1].id == id {
            return values[i - 1].value_type;
        }
        i = i - 1;
    }
    MirType::Integer
}

/// The slot named `name` in a table of slots without repeated names.
fn find_slot(slots: &Vec<(String, MirType)>, name: &str) -> (result: Option<MirType>)
    ensures
        match result {
            Some(t) => exists|i: int| 0 <= i < slots@.len() && #[trigger] slots@[i].0@ == name@ && slots@[i].1 == t,
            None => forall|i: int| 0 <= i < slots@.len() ==> #[trigger] slots@[i].0@ != name@,
        },
{
    let mut i: usize = 0;
    while i < slots.len()
        invariant
            i <= slots@.len(),
            forall|k: int| 0 <= k < i ==> #[trigger] slots@[k].0@ != name@,
        decreases slots.len() - i,
    {
        if str_eq(slots[i].0.as_str(), name) {
            return Some(slots[i].1);
        }
        i = i + 1;
    }
    None
}

/// `slots` is the slot table of `f`: ordered by name, each slot once, with
/// its type.
pub open spec fn slot_table_of(f: MirFunction, slots: Seq<(String, MirType)>) -> bool {
    &&& names_sorted(slots)
    &&& forall|i: int| 0 <= i < slots.len() ==> slot_type(f, #[trigger] slots[i].0@) == Some(slots[i].1)
    &&& forall|name: Seq<char>| #[trigger] slot_type(f, name).is_some() ==> exists|i: int| 0 <= i < slots.len() && #[trigger] slots[i].0@ == name
}

proof fn lemma_slot_lookup(f: MirFunction, slots: Seq<(String, MirType)>, name: Seq<char>, found: Option<MirType>)
    requires
        slot_table_of(f, slots),
        match found {
            Some(t) => exists|i: int| 0 <= i < slots.len() && #[trigger] slots[i].0@ == name && slots[i].1 == t,
            None => forall|i: int| 0 <= i < slots.len() ==> #[trigger] slots[i].0@ != name,
        },
    ensures
        found == slot_type(f, name),
{
    if let Some(t) = found {
        let i = choose|i: int| 0 <= i < slots.len() && #[trigger] slots[i].0@ == name && slots[i].1 == t;
        assert(slot_type(f, slots[i].0@) == Some(slots[i].1));
    } else {
        if slot_type(f, name).is_some() {
            let i = choose|i: int| 0 <= i < slots.len() && #[trigger] slots[i].0@ == name;
        }
    }
}

/// Whether a name is a stack slot.
fn local_slot_name(name: &str) -> (result: bool)
    ensures
        result == is_local_name(name@),
{
    let cs = chars_of(name);
    let prefix = chars_of("local_");
    proof {
        reveal_strlit("local_");
    }
    if cs.len() < 6 {
        return false;
    }
    let mut k: usize = 0;
    while k < 6
        invariant
            prefix@ == "local_"@,
            prefix@.len() == 6,
            6 <= cs@.len(),
            cs@ == name@,
            k <= 6,
            forall|j: int| 0 <= j < k ==> cs@[j] == prefix@[j],
        decreases 6 - k,
    {
        if cs[k] != prefix[k] {
            assert(name@.subrange(0, 6)[k as int] != "local_"@[k as int]);
            return false;
        }
        k = k + 1;
    }
    assert(name@.subrange(0, 6) =~= "local_"@);
    true
}

/// The instruction kind names the slot `name`; the name it carries.
fn slot_name_of(kind: &MirInstructionKind) -> (result: Option<&String>)
    ensures
        match result {
            Some(n) => names_slot(*kind, n@) && forall|m: Seq<char>| names_slot(*kind, m) ==> m == n@,
            None => forall|m: Seq<char>| !names_slot(*kind, m),
        },
{
    match kind {
        MirInstructionKind::Load { name, .. } => Some(name),
        MirInstructionKind::Store { name, .. } => Some(name),
        MirInstructionKind::AllocateLocal { name, .. } => Some(name),
        _ => None,
    }
}

/// Some instruction before instruction `k` of block `b` (in block order)
/// names the slot `name`.
pub open spec fn named_before(blocks: Seq<MirBasicBlock>, name: Seq<char>, b: int, k: int) -> bool {
    exists|bb: int, kk: int|
        0 <= bb < blocks.len() && 0 <= kk < blocks[bb].instructions@.len() && (bb < b || (bb == b && kk < k))
            && #[trigger] names_slot(blocks[bb].instructions@[kk].kind, name)
}

/// The slots of `f`, ordered by name.
fn collect_local_slots(function: &MirFunction) -> (result: Vec<(String, MirType)>)
    ensures
        slot_table_of(*function, result@),
{
    let ghost locals = function.locals@;
    let mut slots: Vec<(String, MirType)> = Vec::new();
    let mut k: usize = 0;
    while k < function.locals.len()
        invariant
            k <= locals.len(),
            locals == function.locals@,
            names_sorted(slots@),
            forall|i: int| 0 <= i < slots@.len() ==> is_local_name(#[trigger] slots@[i].0@)
                && last_local_type(locals.subrange(0, k as int), slots@[i].0@) == Some(slots@[i].1),
            forall|name: Seq<char>| is_local_name(name) && #[trigger] last_local_type(locals.subrange(0, k as int), name).is_some()
                ==> exists|i: int| 0 <= i < slots@.len() && #[trigger] slots@[i].0@ == name,
        decreases function.locals.len() - k,
    {
        let local = &function.locals[k];
        let ghost pre = locals.subrange(0, k as int);
        let ghost nxt = locals.subrange(0, k + 1);
        proof {
            assert(nxt.drop_last() =~= pre);
            assert(nxt.last() == locals[k as int]);
        }
        if local_slot_name(local.storage.as_str()) {
            let name = to_owned_string(local.storage.as_str());
            let mut i: usize = 0;
            while i < slots.len() && !str_eq(slots[i].0.as_str(), local.storage.as_str())
                invariant
                    i <= slots@.len(),
                    forall|j: int| 0 <= j < i ==> #[trigger] slots@[j].0@ != local.storage@,
                decreases slots.len() - i,
            {
                i = i + 1;
            }
            let ghost before = slots@;
            if i < slots.len() {
                slots.remove(i);
                slots.insert(i, (name, local.value_type));
                proof {
                    assert(slots@ =~= before.update(i as int, (name, local.value_type)));
                    assert forall|a: int, c: int| 0 <= a < c < slots@.len() implies chars_lt(slots@[a].0@, slots@[c].0@) by {
                        assert(before[a].0@ == slots@[a].0@ || a == i);
                        assert(before[c].0@ == slots@[c].0@ || c == i);
                        assert(before[i as int].0@ == name@);
                    }
                }
            } else {
                insert_sorted(&mut slots, (name, local.value_type));
            }
            proof {
                assert forall|j: int| 0 <= j < slots@.len() implies is_local_name(#[trigger] slots@[j].0@)
                    && last_local_type(nxt, slots@[j].0@) == Some(slots@[j].1) by {
                    if slots@[j].0@ != local.storage@ {
                        assert(slots@.contains(slots@[j]));
                        if i < before.len() {
                            assert(slots@[j] == before[j]);
                        } else {
                            assert(before.contains(slots@[j]));
                            let q = choose|q: int| 0 <= q < before.len() && before[q] == slots@[j];
                        }
                    } else {
                        if i < before.len() {
                            assert(j == i) by {
                                if j != i {
                                    assert(slots@[j] == before[j]);
                                    lemma_chars_lt_total(before[j].0@, before[i as int].0@);
                                    if j < i {
                                        assert(chars_lt(before[j].0@, before[i as int].0@));
                                    } else {
                                        assert(chars_lt(before[i as int].0@, before[j].0@));
                                    }
                                }
                            }
                        } else {
                            if slots@[j] != (name, local.value_type) {
                                assert(before.contains(slots@[j]));
                                let q = choose|q: int| 0 <= q < before.len() && before[q] == slots@[j];
                            }
                        }
                    }
                }
                assert forall|nm: Seq<char>| is_local_name(nm) && #[trigger] last_local_type(nxt, nm).is_some()
                    implies exists|j: int| 0 <= j < slots@.len() && #[trigger] slots@[j].0@ == nm by {
                    if nm == local.storage@ {
                        if i < before.len() {
                            assert(slots@[i as int].0@ == nm);
                        } else {
                            assert(slots@.contains((name, local.value_type)));
                            let q = choose|q: int| 0 <= q < slots@.len() && slots@[q] == (name, local.value_type);
                            assert(slots@[q].0@ == nm);
                        }
                    } else {
                        assert(last_local_type(pre, nm).is_some());
                        let q = choose|q: int| 0 <= q < before.len() && #[trigger] before[q].0@ == nm;
                        if i < before.len() {
                            assert(slots@[q] == before[q] || q == i);
                            assert(q != i);
                            assert(slots@[q].0@ == nm);
                        } else {
                            assert(before.contains(before[q]));
                            assert(slots@.contains(before[q]));
                            let r = choose|r: int| 0 <= r < slots@.len() && slots@[r] == before[q];
                            assert(slots@[r].0@ == nm);
                        }
                    }
                }
            }
        } else {
            proof {
                assert forall|j: int| 0 <= j < slots@.len() implies is_local_name(#[trigger] slots@[j].0@)
                    && last_local_type(nxt, slots@[j].0@) == Some(slots@[j].1) by {
                    assert(slots@[j].0@ != local.storage@);
                }
                assert forall|nm: Seq<char>| is_local_name(nm) && #[trigger] last_local_type(nxt, nm).is_some()
                    implies exists|j: int| 0 <= j < slots@.len() && #[trigger] slots@[j].0@ == nm by {
                    assert(nm != local.storage@);
                    assert(last_local_type(pre, nm).is_some());
                }
            }
        }
        k = k + 1;
    }
    assert(locals.subrange(0, locals.len() as int) =~= locals);
    let ghost blocks = function.blocks@;
    let mut b: usize = 0;
    while b < function.blocks.len()
        invariant
            blocks == function.blocks@,
            locals == function.locals@,
            b <= blocks.len(),
            names_sorted(slots@),
            forall|i: int| 0 <= i < slots@.len() ==> is_local_name(#[trigger] slots@[i].0@) && (
                last_local_type(locals, slots@[i].0@) == Some(slots@[i].1) || (last_local_type(locals, slots@[i].0@).is_none()
                    && slots@[i].1 == MirType::Integer && named_before(blocks, slots@[i].0@, b as int, 0))),
            forall|name: Seq<char>| is_local_name(name) && (last_local_type(locals, name).is_some() || named_before(blocks, name, b as int, 0))
                ==> exists|i: int| 0 <= i < slots@.len() && #[trigger] slots@[i].0@ == name,
        decreases function.blocks.len() - b,
    {
        let block = &function.blocks[b];
        let mut k: usize = 0;
        while k < block.instructions.len()
            invariant
                blocks == function.blocks@,
                locals == function.locals@,
                b < blocks.len(),
                *block == blocks[b as int],
                k <= block.instructions@.len(),
                names_sorted(slots@),
                forall|i: int| 0 <= i < slots@.len() ==> is_local_name(#[trigger] slots@[i].0@) && (
                    last_local_type(locals, slots@[i].0@) == Some(slots@[i].1) || (last_local_type(locals, slots@[i].0@).is_none()
                        && slots@[i].1 == MirType::Integer && named_before(blocks, slots@[i].0@, b as int, k as int))),
                forall|name: Seq<char>| is_local_name(name) && (last_local_type(locals, name).is_some() || named_before(blocks, name, b as int, k as int))
                    ==> exists|i: int| 0 <= i < slots@.len() && #[trigger] slots@[i].0@ == name,
            decreases block.instructions.len() - k,
        {
            let kind = &block.instructions[k].kind;
            let named = slot_name_of(kind);
            let ghost before = slots@;
            proof {
                assert forall|nm: Seq<char>| named_before(blocks, nm, b as int, k as int) implies named_before(blocks, nm, b as int, k + 1) by {
                    let (bb, kk) = choose|bb: int, kk: int|
                        0 <= bb < blocks.len() && 0 <= kk < blocks[bb].instructions@.len() && (bb < b || (bb == b && kk < k))
                            && #[trigger] names_slot(blocks[bb].instructions@[kk].kind, nm);
                    assert(names_slot(blocks[bb].instructions@[kk].kind, nm));
                }
            }
            if let Some(n) = named {
                proof {
                    assert(names_slot(blocks[b as int].instructions@[k as int].kind, n@));
                    assert(named_before(blocks, n@, b as int, k + 1));
                }
                if local_slot_name(n.as_str()) {
                    let found = find_slot(&slots, n.as_str());
                    if found.is_none() {
                        proof {
                            assert(last_local_type(locals, n@).is_none()) by {
                                if last_local_type(locals, n@).is_some() {
                                    let q = choose|q: int| 0 <= q < slots@.len() && #[trigger] slots@[q].0@ == n@;
                                }
                            }
                        }
                        let entry = (to_owned_string(n.as_str()), MirType::Integer);
                        insert_sorted(&mut slots, entry);
                        proof {
                            assert(slots@.contains(entry));
                            let q = choose|q: int| 0 <= q < slots@.len() && slots@[q] == entry;
                            assert(slots@[q].0@ == n@);
                        }
                    }
                    assert(exists|i: int| 0 <= i < slots@.len() && #[trigger] slots@[i].0@ == n@);
                }
            }
            proof {
                assert forall|i: int| 0 <= i < slots@.len() implies is_local_name(#[trigger] slots@[i].0@) && (
                    last_local_type(locals, slots@[i].0@) == Some(slots@[i].1) || (last_local_type(locals, slots@[i].0@).is_none()
                        && slots@[i].1 == MirType::Integer && named_before(blocks, slots@[i].0@, b as int, k + 1))) by {
                    if slots@ != before {
                        if before.contains(slots@[i]) {
                            let q = choose|q: int| 0 <= q < before.len() && before[q] == slots@[i];
                        }
                    } else {
                        assert(before[i] == slots@[i]);
                    }
                }
                assert forall|nm: Seq<char>| is_local_name(nm) && (last_local_type(locals, nm).is_some() || named_before(blocks, nm, b as int, k + 1))
                    implies exists|i: int| 0 <= i < slots@.len() && #[trigger] slots@[i].0@ == nm by {
                    if !(last_local_type(locals, nm).is_some() || named_before(blocks, nm, b as int, k as int)) {
                        let (bb, kk) = choose|bb: int, kk: int|
                            0 <= bb < blocks.len() && 0 <= kk < blocks[bb].instructions@.len() && (bb < b || (bb == b && kk < k + 1))
                                && #[trigger] names_slot(blocks[bb].instructions@[kk].kind, nm);
                        assert(bb == b && kk == k);
                        assert(names_slot(*kind, nm));
                        if let Some(n) = named {
                            assert(nm == n@);
                        }
                    } else {
                        let q = choose|q: int| 0 <= q < before.len() && #[trigger] before[q].0@ == nm;
                        if slots@ != before {
                            assert(before.contains(before[q]));
                            assert(slots@.contains(before[q]));
                            let r = choose|r: int| 0 <= r < slots@.len() && slots@[r] == before[q];
                            assert(slots@[r].0@ == nm);
                        } else {
                            assert(slots@[q].0@ == nm);
                        }
                    }
                }
            }
            k = k + 1;
        }
        proof {
            assert forall|nm: Seq<char>| named_before(blocks, nm, b as int, k as int) <==> named_before(blocks, nm, b + 1, 0) by {
                if named_before(blocks, nm, b + 1, 0) {
                    let (bb, kk) = choose|bb: int, kk: int|
                        0 <= bb < blocks.len() && 0 <= kk < blocks[bb].instructions@.len() && (bb < b + 1 || (bb == b + 1 && kk < 0))
                            && #[trigger] names_slot(blocks[bb].instructions@[kk].kind, nm);
                    assert(names_slot(blocks[bb].instructions@[kk].kind, nm));
                }
                if named_before(blocks, nm, b as int, k as int) {
                    let (bb, kk) = choose|bb: int, kk: int|
                        0 <= bb < blocks.len() && 0 <= kk < blocks[bb].instructions@.len() && (bb < b || (bb == b && kk < k))
                            && #[trigger] names_slot(blocks[bb].instructions@[kk].kind, nm);
                    assert(names_slot(blocks[bb].instructions@[kk].kind, nm));
                }
            }
        }
        b = b + 1;
    }
    proof {
        assert forall|nm: Seq<char>| named_before(blocks, nm, blocks.len() as int, 0) <==> named_in_blocks(blocks, nm) by {
            if named_in_blocks(blocks, nm) {
                let (bb, kk) = choose|bb: int, kk: int|
                    0 <= bb < blocks.len() && 0 <= kk < blocks[bb].instructions@.len() && #[trigger] names_slot(
                        blocks[bb].instructions@[kk].kind,
                        nm,
                    );
                assert(names_slot(blocks[bb].instructions@[kk].kind, nm));
            }
            if named_before(blocks, nm, blocks.len() as int, 0) {
                let (bb, kk) = choose|bb: int, kk: int|
                    0 <= bb < blocks.len() && 0 <= kk < blocks[bb].instructions@.len() && (bb < blocks.len() || (bb == blocks.len() && kk < 0))
                        && #[trigger] names_slot(blocks[bb].instructions@[kk].kind, nm);
                assert(names_slot(blocks[bb].instructions@[kk].kind, nm));
            }
        }
        assert forall|i: int| 0 <= i < slots@.len() implies slot_type(*function, #[trigger] slots@[i].0@) == Some(slots@[i].1) by {}
        assert forall|nm: Seq<char>| #[trigger] slot_type(*function, nm).is_some() implies exists|i: int| 0 <= i < slots@.len() && #[trigger] slots@[i].0@ == nm by {}
    }
    slots
}

// ----- blocks, functions and the module -----

/// The slot table as names and types.
pub open spec fn slot_view(slots: Seq<(String, MirType)>) -> Seq<(Seq<char>, MirType)> {
    slots.map_values(|e: (String, MirType)| (e.0@, e.1))
}

/// The names of `v` increase strictly in code-point order.
pub open spec fn view_sorted(v: Seq<(Seq<char>, MirType)>) -> bool {
    forall|i: int, j: int| 0 <= i < j < v.len() ==> chars_lt(v[i].0, v[j].0)
}

/// `v` lists the slots of `f` ordered by name, each with its type.
pub open spec fn is_slot_view(f: MirFunction, v: Seq<(Seq<char>, MirType)>) -> bool {
    &&& view_sorted(v)
    &&& forall|i: int| 0 <= i < v.len() ==> slot_type(f, #[trigger] v[i].0) == Some(v[i].1)
    &&& forall|name: Seq<char>| #[trigger] slot_type(f, name).is_some() ==> exists|i: int| 0 <= i < v.len() && #[trigger] v[i].0 == name
}

/// The slot table of `f`: its slots ordered by name.
pub open spec fn slots_of(f: MirFunction) -> Seq<(Seq<char>, MirType)> {
    choose|v: Seq<(Seq<char>, MirType)>| is_slot_view(f, v)
}

proof fn lemma_sorted_views_equal(a: Seq<(Seq<char>, MirType)>, b: Seq<(Seq<char>, MirType)>)
    requires
        view_sorted(a),
        view_sorted(b),
        forall|x: (Seq<char>, MirType)| a.contains(x) <==> b.contains(x),
    ensures
        a == b,
    decreases a.len() + b.len(),
{
    if a.len() == 0 || b.len() == 0 {
        if a.len() > 0 {
            assert(a.contains(a[0]));
        }
        if b.len() > 0 {
            assert(b.contains(b[0]));
        }
        assert(a =~= b);
    } else {
        assert(a.contains(a[0]) && b.contains(b[0]));
        let ia = choose|i: int| 0 <= i < b.len() && b[i] == a[0];
        let ib = choose|i: int| 0 <= i < a.len() && a[i] == b[0];
        if ib > 0 {
            assert(chars_lt(a[0].0, a[ib].0));
        }
        if ia > 0 {
            assert(chars_lt(b[0].0, b[ia].0));
        }
        if ib > 0 && ia > 0 {
            lemma_chars_lt_total(a[0].0, b[0].0);
        }
        assert(a[0] == b[0]);
        let ta = a.drop_first();
        let tb = b.drop_first();
        assert forall|x: (Seq<char>, MirType)| ta.contains(x) <==> tb.contains(x) by {
            if ta.contains(x) {
                let k = choose|k: int| 0 <= k < ta.len() && ta[k] == x;
                assert(a[k + 1] == x);
                assert(chars_lt(a[0].0, x.0));
                lemma_chars_lt_total(a[0].0, x.0);
                assert(b.contains(x));
                let m = choose|m: int| 0 <= m < b.len() && b[m] == x;
                assert(m != 0);
                assert(tb[m - 1] == x);
            }
            if tb.contains(x) {
                let k = choose|k: int| 0 <= k < tb.len() && tb[k] == x;
                assert(b[k + 1] == x);
                assert(chars_lt(b[0].0, x.0));
                lemma_chars_lt_total(b[0].0, x.0);
                assert(a.contains(x));
                let m = choose|m: int| 0 <= m < a.len() && a[m] == x;
                assert(m != 0);
                assert(ta[m - 1] == x);
            }
        }
        lemma_sorted_views_equal(ta, tb);
        assert(a =~= seq![a[0]] + ta);
        assert(b =~= seq![b[0]] + tb);
    }
}

/// The slot table built for `f` is its slot table.
proof fn lemma_slot_table_is_slots_of(f: MirFunction, slots: Seq<(String, MirType)>)
    requires
        slot_table_of(f, slots),
    ensures
        slot_view(slots) == slots_of(f),
{
    let v = slot_view(slots);
    assert(view_sorted(v));
    assert forall|i: int| 0 <= i < v.len() implies slot_type(f, #[trigger] v[i].0) == Some(v[i].1) by {
        assert(v[i].0 == slots[i].0@);
    }
    assert forall|name: Seq<char>| #[trigger] slot_type(f, name).is_some() implies exists|i: int| 0 <= i < v.len() && #[trigger] v[i].0 == name by {
        let i = choose|i: int| 0 <= i < slots.len() && #[trigger] slots[i].0@ == name;
        assert(v[i].0 == name);
    }
    assert(is_slot_view(f, v));
    let w = slots_of(f);
    assert(is_slot_view(f, w));
    assert forall|x: (Seq<char>, MirType)| v.contains(x) <==> w.contains(x) by {
        if v.contains(x) {
            let k = choose|k: int| 0 <= k < v.len() && v[k] == x;
            assert(slot_type(f, v[k].0) == Some(v[k].1));
            assert(slot_type(f, x.0).is_some());
            let m = choose|m: int| 0 <= m < w.len() && #[trigger] w[m].0 == x.0;
            assert(slot_type(f, w[m].0) == Some(w[m].1));
        }
        if w.contains(x) {
            let k = choose|k: int| 0 <= k < w.len() && w[k] == x;
            assert(slot_type(f, w[k].0) == Some(w[k].1));
            assert(slot_type(f, x.0).is_some());
            let m = choose|m: int| 0 <= m < v.len() && #[trigger] v[m].0 == x.0;
            assert(slot_type(f, v[m].0) == Some(v[m].1));
        }
    }
    lemma_sorted_views_equal(v, w);
}

/// The `alloca` lines of the entry block, one per slot in table order.
pub open spec fn prologue_text(slots: Seq<(Seq<char>, MirType)>) -> Seq<char>
    decreases slots.len(),
{
    if slots.len() == 0 {
        seq![]
    } else {
        prologue_text(slots.drop_last()) + "    %"@ + slots.last().0 + " = alloca "@ + ty(slots.last().1) + ", align 8\n"@
    }
}

/// The stores of the first `n` parameters into their slots, for the
/// parameters that have one.
pub open spec fn parameter_stores(f: MirFunction, n: int) -> Seq<char>
    decreases n,
{
    if n <= 0 || n > f.parameter_data@.len() {
        seq![]
    } else {
        let p = f.parameter_data@[n - 1];
        parameter_stores(f, n - 1) + match slot_type(f, p.storage@) {
            Some(t) => "    store "@ + ty(t) + " %arg"@ + decimal((n - 1) as nat) + ", "@ + ty(t) + "* %"@ + p.storage@ + "\n"@,
            None => seq![],
        }
    }
}

/// The label of a block: the entry block is `entry`.
pub open spec fn block_label(b: MirBasicBlock) -> Seq<char> {
    if b.is_entry {
        "entry"@
    } else {
        "block"@ + decimal(b.id.0 as nat)
    }
}

/// The text of a block of `f`, and the string table after it.
pub open spec fn block_text(table: ConstTable, recorded: Seq<(Seq<char>, MirType)>, f: MirFunction, b: MirBasicBlock) -> (Seq<char>, ConstTable) {
    let head = block_label(b) + ":\n"@ + if b.is_entry {
        prologue_text(slots_of(f)) + parameter_stores(f, f.parameter_data@.len() as int)
    } else {
        seq![]
    };
    let body = instructions_text(table, recorded, f, b.instructions@, b.instructions@.len() as int);
    (head + body.0, body.1)
}

/// The first `n` blocks of `f`, with the string table threaded through.
pub open spec fn blocks_text(table: ConstTable, recorded: Seq<(Seq<char>, MirType)>, f: MirFunction, n: int) -> (Seq<char>, ConstTable)
    decreases n,
{
    if n <= 0 || n > f.blocks@.len() {
        (seq![], table)
    } else {
        let before = blocks_text(table, recorded, f, n - 1);
        let last = block_text(before.1, recorded, f, f.blocks@[n - 1]);
        (before.0 + last.0, last.1)
    }
}

/// The first `n` parameters as `TYPE %argI`, separated by commas.
pub open spec fn parameters_text(f: MirFunction, n: int) -> Seq<char>
    decreases n,
{
    if n <= 0 || n > f.parameter_data@.len() {
        seq![]
    } else {
        let one = ty(f.parameter_data@[n - 1].value_type) + " %arg"@ + decimal((n - 1) as nat);
        if n == 1 {
            one
        } else {
            parameters_text(f, n - 1) + ", "@ + one
        }
    }
}

/// The definition of `f`, and the string table after it.
pub open spec fn function_text(table: ConstTable, recorded: Seq<(Seq<char>, MirType)>, f: MirFunction) -> (Seq<char>, ConstTable) {
    let rt = match recorded_return(recorded, f.name@) {
        Some(t) => t,
        None => MirType::Void,
    };
    let body = blocks_text(table, recorded, f, f.blocks@.len() as int);
    (
        "define "@ + ty(rt) + " @"@ + f.name@ + "("@ + parameters_text(f, f.parameter_data@.len() as int) + ") {\n"@ + body.0
            + "}\n\n"@,
        body.1,
    )
}

/// The first `n` functions, with the string table threaded through.
pub open spec fn functions_text(table: ConstTable, recorded: Seq<(Seq<char>, MirType)>, fs: Seq<MirFunction>, n: int) -> (Seq<char>, ConstTable)
    decreases n,
{
    if n <= 0 || n > fs.len() {
        (seq![], table)
    } else {
        let before = functions_text(table, recorded, fs, n - 1);
        let last = function_text(before.1, recorded, fs[n - 1]);
        (before.0 + last.0, last.1)
    }
}

/// The declarations of the runtime functions.
pub open spec fn runtime_declarations() -> Seq<char> {
    "declare void @glua_print(i8*)\n"@ + "declare void @glua_print_i64(i64)\n"@ + "declare void @glua_print_f64(double)\n"@
        + "declare void @glua_print_bool(i1)\n"@ + "declare i8* @glua_table_new()\n"@
        + "declare void @glua_table_set(i8*, i8*, i8*)\n"@ + "declare i8* @glua_table_get(i8*, i8*)\n"@ + "\n"@
}

/// The definition of one string constant.
pub open spec fn constant_line(c: (Seq<char>, Seq<char>)) -> Seq<char> {
    "@"@ + c.0 + " = private unnamed_addr constant ["@ + decimal(encode_utf8(c.1).len() + 1) + " x i8] c\""@
        + escaped_bytes(encode_utf8(c.1)) + "\\00\", align 1\n"@
}

pub open spec fn constant_lines(table: ConstTable) -> Seq<char>
    decreases table.len(),
{
    if table.len() == 0 {
        seq![]
    } else {
        constant_lines(table.drop_last()) + constant_line(table.last())
    }
}

/// The return type each function records, in function order: its own, or
/// void.
pub open spec fn return_table(fs: Seq<MirFunction>) -> Seq<(Seq<char>, MirType)> {
    fs.map_values(|f: MirFunction| (f.name@, match f.return_type {
        Some(t) => t,
        None => MirType::Void,
    }))
}

/// The module text `generate` writes, starting from the string table
/// `table`: a header, the runtime declarations, every string constant, then
/// every function; and the string table after it.
pub open spec fn module_text(name: Seq<char>, table: ConstTable, mir: MirModule) -> (Seq<char>, ConstTable) {
    let recorded = return_table(mir.functions@);
    let fns = functions_text(table, recorded, mir.functions@, mir.functions@.len() as int);
    (
        "; Module ID: '"@ + name + "'\n"@ + "target triple = \"x86_64-unknown-linux-gnu\"\n"@
            + "target datalayout = \"e-m:e-p270:32:32-p271:32:32-p272:64:64-i64:64-f80:128-n8:16:32:64-S128\"\n"@ + "\n"@
            + runtime_declarations() + constant_lines(fns.1) + (if fns.1.len() > 0 {
            "\n"@
        } else {
            seq![]
        }) + fns.0,
        fns.1,
    )
}

/// Appends how a string constant's bytes are written.
fn escape_llvm_bytes(bytes: &Vec<u8>) -> (result: String)
    ensures
        result@ == escaped_bytes(bytes@),
{
    let mut output = String::new();
    let mut i: usize = 0;
    while i < bytes.len()
        invariant
            i <= bytes@.len(),
            output@ == escaped_bytes(bytes@.subrange(0, i as int)),
        decreases bytes.len() - i,
    {
        let b = bytes[i];
        let ghost before = output@;
        if b == 0x5C {
            push_str(&mut output, "\\5C");
        } else if b == 0x22 {
            push_str(&mut output, "\\22");
        } else if b == 0x0A {
            push_str(&mut output, "\\0A");
        } else if b == 0x0D {
            push_str(&mut output, "\\0D");
        } else if b == 0x09 {
            push_str(&mut output, "\\09");
        } else if 0x20 <= b && b <= 0x7E {
            push_char(&mut output, b as char);
        } else {
            push_char(&mut output, '\\');
            let hi: u8 = b / 16;
            let lo: u8 = b % 16;
            let hc: u8 = if hi < 10 { 48 + hi } else { 55 + hi };
            let lc: u8 = if lo < 10 { 48 + lo } else { 55 + lo };
            push_char(&mut output, hc as char);
            push_char(&mut output, lc as char);
        }
        proof {
            assert(bytes@.subrange(0, i + 1).drop_last() =~= bytes@.subrange(0, i as int));
            assert(bytes@.subrange(0, i + 1).last() == b);
            assert(output@ =~= before + escaped_byte(b));
        }
        i = i + 1;
    }
    assert(bytes@.subrange(0, bytes@.len() as int) =~= bytes@);
    output
}

/// Appends how a float constant is written.
fn push_float_literal(out: &mut String, text: &str)
    ensures
        final(out)@ == old(out)@ + float_literal(text@),
{
    let cs = chars_of(text);
    let mut has_point = false;
    let mut i: usize = 0;
    while i < cs.len()
        invariant
            cs@ == text@,
            i <= cs@.len(),
            has_point == exists|k: int| 0 <= k < i && (cs@[k] == '.' || cs@[k] == 'e' || cs@[k] == 'E'),
        decreases cs.len() - i,
    {
        if cs[i] == '.' || cs[i] == 'e' || cs[i] == 'E' {
            has_point = true;
        }
        i = i + 1;
    }
    push_str(out, text);
    if !has_point {
        push_str(out, ".0");
    }
    proof {
        if has_point {
            let k = choose|k: int| 0 <= k < i && (cs@[k] == '.' || cs@[k] == 'e' || cs@[k] == 'E');
            assert(text@.contains(cs@[k]));
        } else {
            assert(!text@.contains('.') && !text@.contains('e') && !text@.contains('E'));
        }
    }
}

impl LlvmGenerator {
    pub closed spec fn module_name_view(self) -> Seq<char> {
        self.module_name@
    }

    /// The string constants interned so far.
    pub closed spec fn constants(self) -> ConstTable {
        self.string_constants@.map_values(|c: StringConstant| (c.name@, c.value@))
    }

    /// The return types recorded for the module's functions.
    pub closed spec fn recorded_types(self) -> Seq<(Seq<char>, MirType)> {
        self.function_return_types@.map_values(|e: (String, MirType)| (e.0@, e.1))
    }

    pub fn new(module_name: String) -> (result: Self)
        ensures
            result.module_name_view() == module_name@,
            result.constants() == Seq::<(Seq<char>, Seq<char>)>::empty(),
            result.recorded_types() == Seq::<(Seq<char>, MirType)>::empty(),
    {
        let result = LlvmGenerator { module_name, string_constants: Vec::new(), function_return_types: Vec::new() };
        assert(result.constants() =~= Seq::<(Seq<char>, Seq<char>)>::empty());
        assert(result.recorded_types() =~= Seq::<(Seq<char>, MirType)>::empty());
        result
    }

    /// The name of the constant holding `value`, interning it if needed.
    fn intern_string_constant(&mut self, value: String) -> (result: String)
        ensures
            result@ == intern(old(self).constants(), value@).0,
            final(self).constants() == intern(old(self).constants(), value@).1,
            final(self).module_name_view() == old(self).module_name_view(),
            final(self).recorded_types() == old(self).recorded_types(),
    {
        let ghost table = self.constants();
        let mut i: usize = self.string_constants.len();
        assert(table.subrange(0, i as int) =~= table);
        while i > 0
            invariant
                i <= self.string_constants@.len(),
                table == self.constants(),
                const_name(table, value@) == const_name(table.subrange(0, i as int), value@),
            decreases i,
        {
            proof {
                assert(table.subrange(0, i as int).drop_last() =~= table.subrange(0, i - 1));
                assert(table.subrange(0, i as int).last() == table[i - 1]);
            }
            if str_eq(self.string_constants[i - 1].value.as_str(), value.as_str()) {
                return to_owned_string(self.string_constants[i - 1].name.as_str());
            }
            i = i - 1;
        }
        let mut name = to_owned_string(".str");
        push_decimal(&mut name, self.string_constants.len());
        let result = to_owned_string(name.as_str());
        let ghost vv = value@;
        self.string_constants.push(StringConstant { name, value });
        proof {
            assert(self.constants() =~= table.push((result@, vv)));
        }
        result
    }

    /// What a call of `function_name` returns.
    fn call_return_type(&self, function_name: &str) -> (result: LlvmType)
        ensures
            result == mir_llvm_type(call_return(self.recorded_types(), function_name@)),
    {
        map_mir_type(&self.call_return_mir_type(function_name))
    }

    fn call_return_mir_type(&self, function_name: &str) -> (result: MirType)
        ensures
            result == call_return(self.recorded_types(), function_name@),
    {
        if str_eq(function_name, "glua_print") || str_eq(function_name, "glua_table_set") {
            return MirType::Void;
        }
        if str_eq(function_name, "glua_table_new") || str_eq(function_name, "glua_table_get") {
            return MirType::Table;
        }
        self.recorded_return_type(function_name)
    }

    /// The return type recorded last for `name`, or void.
    fn recorded_return_type(&self, name: &str) -> (result: MirType)
        ensures
            result == (match recorded_return(self.recorded_types(), name@) {
                Some(t) => t,
                None => MirType::Void,
            }),
    {
        let ghost rec = self.recorded_types();
        let mut i: usize = self.function_return_types.len();
        assert(rec.subrange(0, i as int) =~= rec);
        while i > 0
            invariant
                i <= self.function_return_types@.len(),
                rec == self.recorded_types(),
                recorded_return(rec, name@) == recorded_return(rec.subrange(0, i as int), name@),
            decreases i,
        {
            proof {
                assert(rec.subrange(0, i as int).drop_last() =~= rec.subrange(0, i - 1));
                assert(rec.subrange(0, i as int).last() == rec[i - 1]);
            }
            if str_eq(self.function_return_types[i - 1].0.as_str(), name) {
                return self.function_return_types[i - 1].1;
            }
            i = i - 1;
        }
        MirType::Void
    }

    /// The LLVM type of the value `value_id` among `values`.
    fn llvm_value_type(&self, values: &Vec<MirValueData>, value_id: MirValueId) -> (result: LlvmType)
        ensures
            result == mir_llvm_type(value_type(values@, value_id)),
    {
        map_mir_type(&find_value_type(values, value_id))
    }

    fn is_local_slot(&self, name: &str) -> (result: bool)
        ensures
            result == is_local_name(name@),
    {
        local_slot_name(name)
    }

    fn format_pointer_name(&self, name: &str) -> (result: String)
        ensures
            result@ == pointer_name(name@),
    {
        let mut out = if self.is_local_slot(name) {
            to_owned_string("%")
        } else {
            to_owned_string("@")
        };
        push_str(&mut out, name);
        out
    }

    fn print_function_for_type(&self, value_type: &LlvmType) -> (result: &'static str)
        ensures
            result@ == print_function_llvm(*value_type),
    {
        match value_type {
            LlvmType::Integer(bits) => {
                if *bits == 64 {
                    "glua_print_i64"
                } else {
                    "glua_print"
                }
            },
            LlvmType::Double => "glua_print_f64",
            LlvmType::Boolean => "glua_print_bool",
            _ => "glua_print",
        }
    }

    fn compare_predicate(&self, operator: &MirCompareOperator) -> (result: &'static str)
        ensures
            result@ == predicate_text(*operator),
    {
        match operator {
            MirCompareOperator::Equal => "eq",
            MirCompareOperator::NotEqual => "ne",
            MirCompareOperator::LessThan => "slt",
            MirCompareOperator::LessEqual => "sle",
            MirCompareOperator::GreaterThan => "sgt",
            MirCompareOperator::GreaterEqual => "sge",
        }
    }

    fn generate_runtime_declarations(&self, ir: &mut String)
        ensures
            final(ir)@ == old(ir)@ + runtime_declarations(),
    {
        push_str(ir, "declare void @glua_print(i8*)\n");
        push_str(ir, "declare void @glua_print_i64(i64)\n");
        push_str(ir, "declare void @glua_print_f64(double)\n");
        push_str(ir, "declare void @glua_print_bool(i1)\n");
        push_str(ir, "declare i8* @glua_table_new()\n");
        push_str(ir, "declare void @glua_table_set(i8*, i8*, i8*)\n");
        push_str(ir, "declare i8* @glua_table_get(i8*, i8*)\n");
        push_str(ir, "\n");
        assert(ir@ =~= old(ir)@ + runtime_declarations());
    }
}

/// The type a slot access of `f` uses.
fn access_type_of(function: &MirFunction, slots: &Vec<(String, MirType)>, name: &str, v: MirValueId) -> (result: MirType)
    requires
        slot_table_of(*function, slots@),
    ensures
        result == access_type(*function, name@, v),
{
    let found = find_slot(slots, name);
    proof {
        lemma_slot_lookup(*function, slots@, name@, found);
    }
    match found {
        Some(t) => t,
        None => find_value_type(&function.values, v),
    }
}

impl LlvmGenerator {
    /// Appends one instruction of `function`, indented.
    fn generate_instruction(
        &mut self,
        instruction: &MirInstruction,
        function: &MirFunction,
        slots: &Vec<(String, MirType)>,
        ir: &mut String,
    ) -> (result: Result<(), LlvmError>)
        requires
            slot_table_of(*function, slots@),
        ensures
            result is Ok,
            ({
                let body = instruction_body(old(self).constants(), old(self).recorded_types(), *function, instruction.kind);
                &&& final(ir)@ == old(ir)@ + "    "@ + body.0
                &&& final(self).constants() == body.1
            }),
            final(self).module_name_view() == old(self).module_name_view(),
            final(self).recorded_types() == old(self).recorded_types(),
    {
        push_str(ir, "    ");
        match &instruction.kind {
            MirInstructionKind::Const { result, value } => self.push_const(*result, value, ir),
            MirInstructionKind::Call { result, function: callee, arguments } => {
                self.push_call(*result, callee.as_str(), arguments, function, ir);
            },
            MirInstructionKind::Load { .. } | MirInstructionKind::Store { .. } => {
                self.push_access(&instruction.kind, function, slots, ir);
            },
            _ => {
                if is_arith_kind(&instruction.kind) {
                    push_arith(&instruction.kind, ir);
                } else {
                    push_control(&instruction.kind, function, ir);
                }
            },
        }
        Ok(())
    }
}

impl LlvmGenerator {
    /// Appends a constant instruction (without its indentation).
    fn push_const(&mut self, result: MirValueId, value: &MirValue, ir: &mut String)
        ensures
            final(ir)@ == old(ir)@ + const_text(old(self).constants(), result, *value).0,
            final(self).constants() == const_text(old(self).constants(), result, *value).1,
            final(self).module_name_view() == old(self).module_name_view(),
            final(self).recorded_types() == old(self).recorded_types(),
    {
        let ghost start = ir@;
        let result_ref = &result;
        match value {
                MirValue::String(string_value) => {
                    let owned = to_owned_string(string_value.as_str());
                    let global_name = self.intern_string_constant(owned);
                    let length = str_byte_len(string_value.as_str()) + 1;
                    push_reg(ir, *result_ref);
                    push_str(ir, " = getelementptr inbounds [");
                    push_decimal(ir, length);
                    push_str(ir, " x i8], [");
                    push_decimal(ir, length);
                    push_str(ir, " x i8]* @");
                    push_str(ir, global_name.as_str());
                    push_str(ir, ", i64 0, i64 0\n");
                },
                MirValue::Integer(integer_value) => {
                    push_reg(ir, *result_ref);
                    push_str(ir, " = add i64 0, ");
                    push_int(ir, *integer_value);
                    push_str(ir, "\n");
                },
                MirValue::Float(float_text) => {
                    push_reg(ir, *result_ref);
                    push_str(ir, " = fadd double 0.0, ");
                    push_float_literal(ir, float_text.as_str());
                    push_str(ir, "\n");
                },
                MirValue::Boolean(boolean_value) => {
                    push_reg(ir, *result_ref);
                    push_str(ir, " = xor i1 false, ");
                    push_str(ir, if *boolean_value { "true" } else { "false" });
                    push_str(ir, "\n");
                },
                MirValue::Nil => {
                    push_reg(ir, *result_ref);
                    push_str(ir, " = inttoptr i64 0 to i8*\n");
                },
                MirValue::Unit => {
                    push_reg(ir, *result_ref);
                    push_str(ir, " = add i64 0, 0\n");
                },
            }
        assert(ir@ =~= start + const_text(old(self).constants(), result, *value).0);
    }

    /// Appends a call instruction (without its indentation).
    fn push_call(&self, result: Option<MirValueId>, callee: &str, arguments: &Vec<MirValueId>, function: &MirFunction, ir: &mut String)
        ensures
            final(ir)@ == old(ir)@ + call_text(self.recorded_types(), function.values@, result, callee@, arguments@),
    {
        let ghost start = ir@;
        let ghost body = call_text(self.recorded_types(), function.values@, result, callee@, arguments@);
                if str_eq(callee, "glua_print") && arguments.len() == 1 {
                    let argument = arguments[0];
                    let argument_type = self.llvm_value_type(&function.values, argument);
                    let print_function = self.print_function_for_type(&argument_type);
                    push_str(ir, "call void @");
                    push_str(ir, print_function);
                    push_str(ir, "(");
                    argument_type.push_text(ir);
                    push_str(ir, " ");
                    push_reg(ir, argument);
                    push_str(ir, ")\n");
                    assert(ir@ =~= start + body);
                    return;
                }
                let mut args = String::new();
                let mut k: usize = 0;
                while k < arguments.len()
                    invariant
                        k <= arguments@.len(),
                        args@ == arguments_text(function.values@, arguments@, k as int),
                    decreases arguments.len() - k,
                {
                    if k > 0 {
                        push_str(&mut args, ", ");
                    }
                    let t = find_value_type(&function.values, arguments[k]);
                    push_type(&mut args, t);
                    push_str(&mut args, " ");
                    push_reg(&mut args, arguments[k]);
                    proof {
                        if k == 0 {
                            assert(args@ =~= argument_text(function.values@, arguments@[0]));
                        } else {
                            assert(args@ =~= arguments_text(function.values@, arguments@, k as int) + ", "@
                                + argument_text(function.values@, arguments@[k as int]));
                        }
                    }
                    k = k + 1;
                }
                let rt = self.call_return_type(callee);
                match result {
                    Some(r) => {
                        push_reg(ir, r);
                        push_str(ir, " = call ");
                    },
                    None => {
                        push_str(ir, "call ");
                    },
                }
                rt.push_text(ir);
                push_str(ir, " @");
                push_str(ir, callee);
                push_str(ir, "(");
                push_str(ir, args.as_str());
                push_str(ir, ")\n");
                    assert(ir@ =~= start + body);
    }
}

/// Whether an instruction is arithmetic, a comparison, logic or a move.
fn is_arith_kind(kind: &MirInstructionKind) -> (result: bool)
    ensures
        result == is_arith(*kind),
{
    match kind {
        MirInstructionKind::Add { .. } | MirInstructionKind::Subtract { .. } | MirInstructionKind::Multiply { .. }
        | MirInstructionKind::Divide { .. } | MirInstructionKind::Modulo { .. } | MirInstructionKind::Equal { .. }
        | MirInstructionKind::NotEqual { .. } | MirInstructionKind::LessThan { .. } | MirInstructionKind::LessEqual { .. }
        | MirInstructionKind::GreaterThan { .. } | MirInstructionKind::GreaterEqual { .. } | MirInstructionKind::And { .. }
        | MirInstructionKind::Or { .. } | MirInstructionKind::Not { .. } | MirInstructionKind::Move { .. }
        | MirInstructionKind::Compare { .. } => true,
        _ => false,
    }
}

/// Appends an arithmetic, comparison, logic or move instruction.
fn push_arith(kind: &MirInstructionKind, ir: &mut String)
    ensures
        final(ir)@ == old(ir)@ + arith_text(*kind),
{
    let ghost start = ir@;
    match kind {
        MirInstructionKind::Add { result, left, right } => push_binary(ir, *result, "add i64", *left, *right),
        MirInstructionKind::Subtract { result, left, right } => push_binary(ir, *result, "sub i64", *left, *right),
        MirInstructionKind::Multiply { result, left, right } => push_binary(ir, *result, "mul i64", *left, *right),
        MirInstructionKind::Divide { result, left, right } => push_binary(ir, *result, "sdiv i64", *left, *right),
        MirInstructionKind::Modulo { result, left, right } => push_binary(ir, *result, "srem i64", *left, *right),
        MirInstructionKind::Equal { result, left, right } => push_binary(ir, *result, "icmp eq i64", *left, *right),
        MirInstructionKind::NotEqual { result, left, right } => push_binary(ir, *result, "icmp ne i64", *left, *right),
        MirInstructionKind::LessThan { result, left, right } => push_binary(ir, *result, "icmp slt i64", *left, *right),
        MirInstructionKind::LessEqual { result, left, right } => push_binary(ir, *result, "icmp sle i64", *left, *right),
        MirInstructionKind::GreaterThan { result, left, right } => push_binary(ir, *result, "icmp sgt i64", *left, *right),
        MirInstructionKind::GreaterEqual { result, left, right } => push_binary(ir, *result, "icmp sge i64", *left, *right),
        MirInstructionKind::And { result, left, right } => push_binary(ir, *result, "and i1", *left, *right),
        MirInstructionKind::Or { result, left, right } => push_binary(ir, *result, "or i1", *left, *right),
        MirInstructionKind::Not { result, operand } => {
            push_reg(ir, *result);
            push_str(ir, " = xor i1 ");
            push_reg(ir, *operand);
            push_str(ir, ", true\n");
            assert(ir@ =~= start + arith_text(*kind));
        },
        MirInstructionKind::Move { result, value } => {
            push_reg(ir, *result);
            push_str(ir, " = add i64 0, ");
            push_reg(ir, *value);
            push_str(ir, "\n");
            assert(ir@ =~= start + arith_text(*kind));
        },
        MirInstructionKind::Compare { result, operator, left, right } => {
            push_reg(ir, *result);
            push_str(ir, " = icmp ");
            let pred = match operator {
                MirCompareOperator::Equal => "eq",
                MirCompareOperator::NotEqual => "ne",
                MirCompareOperator::LessThan => "slt",
                MirCompareOperator::LessEqual => "sle",
                MirCompareOperator::GreaterThan => "sgt",
                MirCompareOperator::GreaterEqual => "sge",
            };
            push_str(ir, pred);
            push_str(ir, " i64 ");
            push_reg(ir, *left);
            push_str(ir, ", ");
            push_reg(ir, *right);
            push_str(ir, "\n");
            assert(ir@ =~= start + arith_text(*kind));
        },
        _ => {
            assert(ir@ =~= start + arith_text(*kind));
        },
    }
}

/// Appends a control-flow, table or placeholder instruction.
fn push_control(kind: &MirInstructionKind, function: &MirFunction, ir: &mut String)
    ensures
        final(ir)@ == old(ir)@ + control_text(*function, *kind),
{
    let ghost start = ir@;
    match kind {
        MirInstructionKind::AllocateLocal { .. } => {
            push_str(ir, "; local slot allocated in entry prologue\n");
        },
        MirInstructionKind::Branch { condition, true_block, false_block } => {
            push_str(ir, "br i1 ");
            push_reg(ir, *condition);
            push_str(ir, ", label %");
            push_target(ir, *true_block);
            push_str(ir, ", label %");
            push_target(ir, *false_block);
            push_str(ir, "\n");
        },
        MirInstructionKind::Jump { target } => {
            push_str(ir, "br label %");
            push_target(ir, *target);
            push_str(ir, "\n");
        },
        MirInstructionKind::Unreachable => {
            push_str(ir, "unreachable\n");
        },
        MirInstructionKind::Return { value } => match value {
            Some(v) => {
                let t = find_value_type(&function.values, *v);
                push_str(ir, "ret ");
                push_type(ir, t);
                push_str(ir, " ");
                push_reg(ir, *v);
                push_str(ir, "\n");
            },
            None => {
                push_str(ir, "ret void\n");
            },
        },
        MirInstructionKind::TableNew { result } => {
            push_reg(ir, *result);
            push_str(ir, " = call i8* @glua_table_new()\n");
        },
        MirInstructionKind::TableSet { table, key, value } => {
            push_str(ir, "call void @glua_table_set(i8* ");
            push_reg(ir, *table);
            push_str(ir, ", i8* ");
            push_reg(ir, *key);
            push_str(ir, ", i8* ");
            push_reg(ir, *value);
            push_str(ir, ")\n");
        },
        MirInstructionKind::TableGet { result, table, key } => {
            push_reg(ir, *result);
            push_str(ir, " = call i8* @glua_table_get(i8* ");
            push_reg(ir, *table);
            push_str(ir, ", i8* ");
            push_reg(ir, *key);
            push_str(ir, ")\n");
        },
        MirInstructionKind::Error => {
            push_str(ir, "; <error instruction>\n");
        },
        _ => {},
    }
    assert(ir@ =~= start + control_text(*function, *kind));
}

impl LlvmGenerator {
    /// Appends a slot load or store.
    fn push_access(&self, kind: &MirInstructionKind, function: &MirFunction, slots: &Vec<(String, MirType)>, ir: &mut String)
        requires
            slot_table_of(*function, slots@),
        ensures
            final(ir)@ == old(ir)@ + access_text(*function, *kind),
    {
        let ghost start = ir@;
        match kind {
            MirInstructionKind::Load { result, name } => {
                let t = access_type_of(function, slots, name.as_str(), *result);
                push_reg(ir, *result);
                push_str(ir, " = load ");
                push_type(ir, t);
                push_str(ir, ", ");
                push_type(ir, t);
                push_str(ir, "* ");
                let pointer = self.format_pointer_name(name.as_str());
                push_str(ir, pointer.as_str());
                push_str(ir, "\n");
            },
            MirInstructionKind::Store { name, value } => {
                let t = access_type_of(function, slots, name.as_str(), *value);
                push_str(ir, "store ");
                push_type(ir, t);
                push_str(ir, " ");
                push_reg(ir, *value);
                push_str(ir, ", ");
                push_type(ir, t);
                push_str(ir, "* ");
                let pointer = self.format_pointer_name(name.as_str());
                push_str(ir, pointer.as_str());
                push_str(ir, "\n");
            },
            _ => {},
        }
        assert(ir@ =~= start + access_text(*function, *kind));
    }
}

impl LlvmGenerator {
    /// Appends a block of `function`: its label, the slot allocations and
    /// parameter stores when it is the entry block, then its instructions.
    fn generate_block(&mut self, block: &MirBasicBlock, function: &MirFunction, slots: &Vec<(String, MirType)>, ir: &mut String) -> (result: Result<(), LlvmError>)
        requires
            slot_table_of(*function, slots@),
        ensures
            result is Ok,
            final(ir)@ == old(ir)@ + block_text(old(self).constants(), old(self).recorded_types(), *function, *block).0,
            final(self).constants() == block_text(old(self).constants(), old(self).recorded_types(), *function, *block).1,
            final(self).module_name_view() == old(self).module_name_view(),
            final(self).recorded_types() == old(self).recorded_types(),
    {
        let ghost start = ir@;
        let ghost table0 = self.constants();
        let ghost rec = self.recorded_types();
        if block.is_entry {
            push_str(ir, "entry");
        } else {
            push_str(ir, "block");
            push_decimal(ir, block.id.0);
        }
        push_str(ir, ":\n");
        if block.is_entry {
            proof {
                lemma_slot_table_is_slots_of(*function, slots@);
            }
            let ghost before = ir@;
            let mut k: usize = 0;
            while k < slots.len()
                invariant
                    k <= slots@.len(),
                    ir@ == before + prologue_text(slot_view(slots@).subrange(0, k as int)),
                decreases slots.len() - k,
            {
                push_str(ir, "    %");
                push_str(ir, slots[k].0.as_str());
                push_str(ir, " = alloca ");
                push_type(ir, slots[k].1);
                push_str(ir, ", align 8\n");
                proof {
                    let nxt = slot_view(slots@).subrange(0, k + 1);
                    assert(nxt.drop_last() =~= slot_view(slots@).subrange(0, k as int));
                    assert(nxt.last() == (slots@[k as int].0@, slots@[k as int].1));
                    assert(ir@ =~= before + prologue_text(nxt));
                }
                k = k + 1;
            }
            assert(slot_view(slots@).subrange(0, slots@.len() as int) =~= slot_view(slots@));
            let ghost middle = ir@;
            let mut index: usize = 0;
            while index < function.parameter_data.len()
                invariant
                    slot_table_of(*function, slots@),
                    index <= function.parameter_data@.len(),
                    ir@ == middle + parameter_stores(*function, index as int),
                decreases function.parameter_data.len() - index,
            {
                let parameter = &function.parameter_data[index];
                let found = find_slot(slots, parameter.storage.as_str());
                proof {
                    lemma_slot_lookup(*function, slots@, parameter.storage@, found);
                }
                if let Some(slot_type) = found {
                    push_str(ir, "    store ");
                    push_type(ir, slot_type);
                    push_str(ir, " %arg");
                    push_decimal(ir, index);
                    push_str(ir, ", ");
                    push_type(ir, slot_type);
                    push_str(ir, "* %");
                    push_str(ir, parameter.storage.as_str());
                    push_str(ir, "\n");
                }
                proof {
                    assert(ir@ =~= middle + parameter_stores(*function, index + 1));
                }
                index = index + 1;
            }
        }
        let ghost head = ir@;
        assert(head == start + block_label(*block) + ":\n"@ + if block.is_entry {
            prologue_text(slots_of(*function)) + parameter_stores(*function, function.parameter_data@.len() as int)
        } else {
            seq![]
        });
        let mut k: usize = 0;
        while k < block.instructions.len()
            invariant
                slot_table_of(*function, slots@),
                k <= block.instructions@.len(),
                rec == self.recorded_types(),
                self.module_name_view() == old(self).module_name_view(),
                ir@ == head + instructions_text(table0, rec, *function, block.instructions@, k as int).0,
                self.constants() == instructions_text(table0, rec, *function, block.instructions@, k as int).1,
            decreases block.instructions.len() - k,
        {
            self.generate_instruction(&block.instructions[k], function, slots, ir)?;
            k = k + 1;
        }
        Ok(())
    }

    /// Appends the definition of `function`.
    fn generate_function(&mut self, function: &MirFunction, ir: &mut String) -> (result: Result<(), LlvmError>)
        ensures
            result is Ok,
            final(ir)@ == old(ir)@ + function_text(old(self).constants(), old(self).recorded_types(), *function).0,
            final(self).constants() == function_text(old(self).constants(), old(self).recorded_types(), *function).1,
            final(self).module_name_view() == old(self).module_name_view(),
            final(self).recorded_types() == old(self).recorded_types(),
    {
        let ghost start = ir@;
        let ghost table0 = self.constants();
        let ghost rec = self.recorded_types();
        let return_type = self.recorded_return_type(function.name.as_str());
        let slots = collect_local_slots(function);
        push_str(ir, "define ");
        push_type(ir, return_type);
        push_str(ir, " @");
        push_str(ir, function.name.as_str());
        push_str(ir, "(");
        let ghost before = ir@;
        let mut index: usize = 0;
        while index < function.parameter_data.len()
            invariant
                index <= function.parameter_data@.len(),
                ir@ == before + parameters_text(*function, index as int),
            decreases function.parameter_data.len() - index,
        {
            if index > 0 {
                push_str(ir, ", ");
            }
            push_type(ir, function.parameter_data[index].value_type);
            push_str(ir, " %arg");
            push_decimal(ir, index);
            proof {
                assert(ir@ =~= before + parameters_text(*function, index + 1));
            }
            index = index + 1;
        }
        push_str(ir, ") {\n");
        let ghost head = ir@;
        let mut k: usize = 0;
        while k < function.blocks.len()
            invariant
                slot_table_of(*function, slots@),
                k <= function.blocks@.len(),
                rec == self.recorded_types(),
                self.module_name_view() == old(self).module_name_view(),
                ir@ == head + blocks_text(table0, rec, *function, k as int).0,
                self.constants() == blocks_text(table0, rec, *function, k as int).1,
            decreases function.blocks.len() - k,
        {
            self.generate_block(&function.blocks[k], function, &slots, ir)?;
            k = k + 1;
        }
        push_str(ir, "}\n\n");
        assert(ir@ =~= start + function_text(table0, rec, *function).0);
        Ok(())
    }

    /// The IR of `mir`: a header, the runtime declarations, the string
    /// constants, then every function. String constants interned by earlier
    /// calls are kept and emitted again.
    pub fn generate(&mut self, mir: &MirModule) -> (result: Result<String, LlvmError>)
        ensures
            result matches Ok(text) && text@ == module_text(old(self).module_name_view(), old(self).constants(), *mir).0,
            final(self).constants() == module_text(old(self).module_name_view(), old(self).constants(), *mir).1,
            final(self).module_name_view() == old(self).module_name_view(),
            final(self).recorded_types() == return_table(mir.functions@),
    {
        let ghost table0 = self.constants();
        let mut recorded: Vec<(String, MirType)> = Vec::new();
        let mut k: usize = 0;
        while k < mir.functions.len()
            invariant
                k <= mir.functions@.len(),
                recorded@.len() == k,
                recorded@.map_values(|e: (String, MirType)| (e.0@, e.1)) == return_table(mir.functions@).subrange(0, k as int),
            decreases mir.functions.len() - k,
        {
            let t = match mir.functions[k].return_type {
                Some(t) => t,
                None => MirType::Void,
            };
            let ghost before = recorded@;
            let name = to_owned_string(mir.functions[k].name.as_str());
            let ghost entry = (name@, t);
            let pair = (name, t);
            let ghost gp = pair;
            recorded.push(pair);
            proof {
                assert(recorded@ == before.push(gp));
                assert(before.len() == k);
                assert(return_table(mir.functions@)[k as int] == entry);
                assert(recorded@.map_values(|e: (String, MirType)| (e.0@, e.1))[k as int] == entry);
                assert(recorded@.map_values(|e: (String, MirType)| (e.0@, e.1)) =~= return_table(mir.functions@).subrange(0, k + 1));
            }
            k = k + 1;
        }
        assert(return_table(mir.functions@).subrange(0, mir.functions@.len() as int) =~= return_table(mir.functions@));
        self.function_return_types = recorded;
        let ghost rec = self.recorded_types();
        assert(rec == return_table(mir.functions@));
        assert(self.constants() == table0);
        let mut ir = to_owned_string("; Module ID: '");
        push_str(&mut ir, self.module_name.as_str());
        push_str(&mut ir, "'\n");
        push_str(&mut ir, "target triple = \"x86_64-unknown-linux-gnu\"\n");
        push_str(&mut ir, "target datalayout = \"e-m:e-p270:32:32-p271:32:32-p272:64:64-i64:64-f80:128-n8:16:32:64-S128\"\n");
        push_str(&mut ir, "\n");
        self.generate_runtime_declarations(&mut ir);
        let mut functions_ir = String::new();
        let mut k: usize = 0;
        while k < mir.functions.len()
            invariant
                k <= mir.functions@.len(),
                rec == self.recorded_types(),
                self.module_name_view() == old(self).module_name_view(),
                functions_ir@ == functions_text(table0, rec, mir.functions@, k as int).0,
                self.constants() == functions_text(table0, rec, mir.functions@, k as int).1,
            decreases mir.functions.len() - k,
        {
            self.generate_function(&mir.functions[k], &mut functions_ir)?;
            k = k + 1;
        }
        let ghost table1 = self.constants();
        let ghost before_consts = ir@;
        let mut c: usize = 0;
        while c < self.string_constants.len()
            invariant
                c <= self.string_constants@.len(),
                table1 == self.constants(),
                ir@ == before_consts + constant_lines(table1.subrange(0, c as int)),
            decreases self.string_constants.len() - c,
        {
            let constant = &self.string_constants[c];
            let bytes = constant.value.as_str().as_bytes_vec();
            let length = str_byte_len(constant.value.as_str()) + 1;
            push_str(&mut ir, "@");
            push_str(&mut ir, constant.name.as_str());
            push_str(&mut ir, " = private unnamed_addr constant [");
            push_decimal(&mut ir, length);
            push_str(&mut ir, " x i8] c\"");
            let escaped = escape_llvm_bytes(&bytes);
            push_str(&mut ir, escaped.as_str());
            push_str(&mut ir, "\\00\", align 1\n");
            proof {
                let nxt = table1.subrange(0, c + 1);
                assert(nxt.drop_last() =~= table1.subrange(0, c as int));
                assert(nxt.last() == (constant.name@, constant.value@));
                assert(ir@ =~= before_consts + constant_lines(nxt));
            }
            c = c + 1;
        }
        assert(table1.subrange(0, table1.len() as int) =~= table1);
        if self.string_constants.len() > 0 {
            push_str(&mut ir, "\n");
        }
        push_str(&mut ir, functions_ir.as_str());
        assert(ir@ =~= module_text(old(self).module_name_view(), table0, *mir).0);
        Ok(ir)
    }
}
} // verus!
