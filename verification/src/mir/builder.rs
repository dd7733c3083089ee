//! Lowering of the high-level representation into basic blocks.
//!
//! The contracts describe lowering as a function on a plain model of the
//! builder's state and of the function being built: which values are
//! created (with their ids, types and origins), which instructions are
//! appended to which block, which blocks are opened, and when lowering stops
//! with an error. Names and argument lists appear in the model as sequences.
use vstd::prelude::*;

use crate::hir::expression::{HirExpression, HirExpressionKind, HirTableField};
use crate::hir::function::HirFunction;
use crate::hir::ids::{HirSymbolId, HirVariableId};
use crate::hir::module::HirModule;
use crate::hir::statement::{HirLocalVariable, HirStatement, HirStatementKind};
use crate::hir::types::{HirBinaryOperator, HirBuiltinFunction, HirType, HirUnaryOperator};
use crate::mir::block::MirBasicBlock;
use crate::mir::error::MirError;
use crate::mir::function::MirFunction;
use crate::mir::instruction::{terminator_successors, MirInstruction, MirInstructionKind, MirTerminator};
use crate::mir::module::MirModule;
use crate::mir::types::{MirBlockId, MirFunctionId, MirType, MirValue, MirValueId};
use crate::mir::value::{MirConstant, MirGlobal, MirLocal, MirParameter, MirValueData, MirValueKind};
use crate::source::SourceSpan;
use crate::text::{chars_of, decimal, push_decimal, push_str, to_owned_string};

verus! {

// ---------------------------------------------------------------------------
// Plain models of what the builder produces.
// ---------------------------------------------------------------------------

/// A constant as plain values.
pub enum ConstView {
    Integer(i64),
    Float(Seq<char>),
    Boolean(bool),
    Str(Seq<char>),
    Nil,
    Unit,
}

pub open spec fn const_view(v: MirValue) -> ConstView {
    match v {
        MirValue::Integer(i) => ConstView::Integer(i),
        MirValue::Float(t) => ConstView::Float(t@),
        MirValue::Boolean(b) => ConstView::Boolean(b),
        MirValue::String(s) => ConstView::Str(s@),
        MirValue::Nil => ConstView::Nil,
        MirValue::Unit => ConstView::Unit,
    }
}

/// Where a value comes from, as plain values.
pub enum OriginView {
    Constant,
    Parameter(usize, Seq<char>, Option<usize>),
    Local(Seq<char>, Option<usize>),
    Temporary,
    Global(Seq<char>, Option<usize>),
    FunctionReference(MirFunctionId, Seq<char>),
}

pub open spec fn origin_view(k: MirValueKind) -> OriginView {
    match k {
        MirValueKind::Constant => OriginView::Constant,
        MirValueKind::Parameter { index, storage, symbol_id } => OriginView::Parameter(index, storage@, symbol_id),
        MirValueKind::Local { storage, symbol_id } => OriginView::Local(storage@, symbol_id),
        MirValueKind::Temporary => OriginView::Temporary,
        MirValueKind::Global { name, symbol_id } => OriginView::Global(name@, symbol_id),
        MirValueKind::FunctionReference { function, name } => OriginView::FunctionReference(function, name@),
    }
}

/// A value of a function as plain values.
#[verifier::ext_equal]
pub struct ValueView {
    pub id: MirValueId,
    pub value_type: MirType,
    pub origin: OriginView,
    pub span: Option<SourceSpan>,
}

pub open spec fn value_view(v: MirValueData) -> ValueView {
    ValueView { id: v.id, value_type: v.value_type, origin: origin_view(v.kind), span: v.span }
}

/// The operation of a two-operand instruction.
pub enum ArithOp {
    Add,
    Subtract,
    Multiply,
    Divide,
    Modulo,
    Equal,
    NotEqual,
    LessThan,
    LessEqual,
    GreaterThan,
    GreaterEqual,
    And,
    Or,
}

/// What an instruction does, as plain values.
pub enum KindView {
    Const(MirValueId, ConstView),
    Binary(ArithOp, MirValueId, MirValueId, MirValueId),
    Not(MirValueId, MirValueId),
    Load(MirValueId, Seq<char>),
    Store(Seq<char>, MirValueId),
    Move(MirValueId, MirValueId),
    Allocate(MirValueId, Seq<char>),
    Branch(MirValueId, MirBlockId, MirBlockId),
    Jump(MirBlockId),
    Unreachable,
    Call(Option<MirValueId>, Seq<char>, Seq<MirValueId>),
    Compare(MirValueId, MirValueId, MirValueId),
    Return(Option<MirValueId>),
    TableNew(MirValueId),
    TableSet(MirValueId, MirValueId, MirValueId),
    TableGet(MirValueId, MirValueId, MirValueId),
    Error,
}

pub open spec fn kind_view(k: MirInstructionKind) -> KindView {
    match k {
        MirInstructionKind::Const { result, value } => KindView::Const(result, const_view(value)),
        MirInstructionKind::Add { result, left, right } => KindView::Binary(ArithOp::Add, result, left, right),
        MirInstructionKind::Subtract { result, left, right } => KindView::Binary(ArithOp::Subtract, result, left, right),
        MirInstructionKind::Multiply { result, left, right } => KindView::Binary(ArithOp::Multiply, result, left, right),
        MirInstructionKind::Divide { result, left, right } => KindView::Binary(ArithOp::Divide, result, left, right),
        MirInstructionKind::Modulo { result, left, right } => KindView::Binary(ArithOp::Modulo, result, left, right),
        MirInstructionKind::Equal { result, left, right } => KindView::Binary(ArithOp::Equal, result, left, right),
        MirInstructionKind::NotEqual { result, left, right } => KindView::Binary(ArithOp::NotEqual, result, left, right),
        MirInstructionKind::LessThan { result, left, right } => KindView::Binary(ArithOp::LessThan, result, left, right),
        MirInstructionKind::LessEqual { result, left, right } => KindView::Binary(ArithOp::LessEqual, result, left, right),
        MirInstructionKind::GreaterThan { result, left, right } => KindView::Binary(ArithOp::GreaterThan, result, left, right),
        MirInstructionKind::GreaterEqual { result, left, right } => KindView::Binary(ArithOp::GreaterEqual, result, left, right),
        MirInstructionKind::And { result, left, right } => KindView::Binary(ArithOp::And, result, left, right),
        MirInstructionKind::Or { result, left, right } => KindView::Binary(ArithOp::Or, result, left, right),
        MirInstructionKind::Not { result, operand } => KindView::Not(result, operand),
        MirInstructionKind::Load { result, name } => KindView::Load(result, name@),
        MirInstructionKind::Store { name, value } => KindView::Store(name@, value),
        MirInstructionKind::Move { result, value } => KindView::Move(result, value),
        MirInstructionKind::AllocateLocal { local, name } => KindView::Allocate(local, name@),
        MirInstructionKind::Branch { condition, true_block, false_block } => KindView::Branch(condition, true_block, false_block),
        MirInstructionKind::Jump { target } => KindView::Jump(target),
        MirInstructionKind::Unreachable => KindView::Unreachable,
        MirInstructionKind::Call { result, function, arguments } => KindView::Call(result, function@, arguments@),
        MirInstructionKind::Compare { result, left, right, .. } => KindView::Compare(result, left, right),
        MirInstructionKind::Return { value } => KindView::Return(value),
        MirInstructionKind::TableNew { result } => KindView::TableNew(result),
        MirInstructionKind::TableSet { table, key, value } => KindView::TableSet(table, key, value),
        MirInstructionKind::TableGet { result, table, key } => KindView::TableGet(result, table, key),
        MirInstructionKind::Error => KindView::Error,
    }
}

/// The terminator an instruction stands for, read from its plain form.
pub open spec fn view_terminator(k: KindView) -> Option<MirTerminator> {
    match k {
        KindView::Return(value) => Some(MirTerminator::Return { value }),
        KindView::Jump(target) => Some(MirTerminator::Jump { target }),
        KindView::Branch(condition, true_block, false_block) => Some(MirTerminator::Branch { condition, true_block, false_block }),
        KindView::Unreachable => Some(MirTerminator::Unreachable),
        _ => None,
    }
}

/// An instruction as plain values.
#[verifier::ext_equal]
pub struct InstrView {
    pub kind: KindView,
    pub result_type: Option<MirType>,
    pub span: Option<SourceSpan>,
}

pub open spec fn instr_view(i: MirInstruction) -> InstrView {
    InstrView { kind: kind_view(i.kind), result_type: i.result_type, span: i.span }
}

/// A basic block as plain values.
#[verifier::ext_equal]
pub struct BlockView {
    pub id: MirBlockId,
    pub code: Seq<InstrView>,
    pub terminator: Option<MirTerminator>,
    pub successors: Seq<MirBlockId>,
    pub predecessors: Seq<MirBlockId>,
    pub is_entry: bool,
    pub is_exit: bool,
}

pub open spec fn block_view(b: MirBasicBlock) -> BlockView {
    BlockView {
        id: b.id,
        code: b.instructions@.map_values(|i: MirInstruction| instr_view(i)),
        terminator: b.terminator,
        successors: b.successors@,
        predecessors: b.predecessors@,
        is_entry: b.is_entry,
        is_exit: b.is_exit,
    }
}

/// A fresh block with id `id`.
pub open spec fn empty_block(id: MirBlockId, is_entry: bool, is_exit: bool) -> BlockView {
    BlockView {
        id,
        code: seq![],
        terminator: None,
        successors: seq![],
        predecessors: seq![],
        is_entry,
        is_exit,
    }
}

/// The values and blocks of a function under construction.
#[verifier::ext_equal]
pub struct BodyView {
    pub values: Seq<ValueView>,
    pub blocks: Seq<BlockView>,
}

pub open spec fn body_view(f: MirFunction) -> BodyView {
    BodyView {
        values: f.values@.map_values(|v: MirValueData| value_view(v)),
        blocks: f.blocks@.map_values(|b: MirBasicBlock| block_view(b)),
    }
}

/// The builder's own state: the next value, block and function numbers,
/// which symbol each variable stands for (a later entry for a variable
/// replaces an earlier one), the block a `return` jumps to, and the slot
/// that holds the returned value.
#[verifier::ext_equal]
pub struct BuildState {
    pub values: usize,
    pub blocks: usize,
    pub functions: usize,
    pub vars: Seq<(HirVariableId, usize)>,
    pub exit: Option<MirBlockId>,
    pub slot: Option<Seq<char>>,
}

/// The builder's state together with the function under construction.
#[verifier::ext_equal]
pub struct Lowering {
    pub state: BuildState,
    pub body: BodyView,
}

// ---------------------------------------------------------------------------
// Small pieces of the lowering scheme.
// ---------------------------------------------------------------------------

/// The next counter value; a counter that has reached the largest `usize`
/// stays there.
pub open spec fn sat_next(n: usize) -> usize {
    if n < usize::MAX {
        (n + 1) as usize
    } else {
        n
    }
}

/// The type a high-level type lowers to.
pub open spec fn mir_type_of(t: HirType) -> MirType {
    match t {
        HirType::Nil => MirType::Void,
        HirType::Boolean => MirType::Boolean,
        HirType::Integer => MirType::Integer,
        HirType::Number => MirType::Integer,
        HirType::String => MirType::String,
        HirType::Table => MirType::Table,
        HirType::Function => MirType::Function,
        _ => MirType::Any,
    }
}

/// The lowered type of an optional type; `Any` when there is none.
pub open spec fn type_or_any(t: Option<HirType>) -> MirType {
    match t {
        Some(h) => mir_type_of(h),
        None => MirType::Any,
    }
}

/// The runtime function a builtin calls and the type it gives back.
pub open spec fn builtin_target(f: HirBuiltinFunction) -> (Seq<char>, MirType) {
    match f {
        HirBuiltinFunction::Print => ("glua_print"@, MirType::Void),
        HirBuiltinFunction::Type => ("glua_type"@, MirType::String),
        HirBuiltinFunction::ToNumber => ("glua_tonumber"@, MirType::Integer),
        HirBuiltinFunction::ToString => ("glua_tostring"@, MirType::String),
        HirBuiltinFunction::Error => ("glua_error"@, MirType::Void),
        HirBuiltinFunction::Pairs => ("glua_pairs"@, MirType::Function),
        HirBuiltinFunction::Ipairs => ("glua_ipairs"@, MirType::Function),
        HirBuiltinFunction::Require => ("glua_require"@, MirType::Any),
    }
}

/// Whether every character is a decimal digit.
pub open spec fn all_digits(s: Seq<char>) -> bool {
    forall|i: int| 0 <= i < s.len() ==> '0' <= #[trigger] s[i] <= '9'
}

/// Whether every character is `0`.
pub open spec fn all_zeros(s: Seq<char>) -> bool {
    forall|i: int| 0 <= i < s.len() ==> #[trigger] s[i] == '0'
}

/// The number a run of decimal digits writes.
pub open spec fn digits_value(s: Seq<char>) -> nat
    decreases s.len(),
{
    if s.len() == 0 {
        0
    } else {
        digits_value(s.drop_last()) * 10 + (s.last() as nat - '0' as nat) as nat
    }
}

/// The position of the first `.`, or the length when there is none.
pub open spec fn dot_position(s: Seq<char>) -> nat
    decreases s.len(),
{
    if s.len() == 0 {
        0
    } else if s[0] == '.' {
        0
    } else {
        1 + dot_position(s.drop_first())
    }
}

/// The largest integer up to which every integer is exactly a double.
pub open spec fn exact_integer_limit() -> nat {
    9007199254740992
}

/// The integer a number literal writes, when it is a whole number written
/// in plain decimal digits (a fraction of zeros allowed) no larger than
/// the limit up to which doubles hold every integer exactly.
pub open spec fn integral_literal(t: Seq<char>) -> Option<i64> {
    let d = dot_position(t);
    let whole = t.subrange(0, d as int);
    let fraction = if d < t.len() {
        t.subrange(d as int + 1, t.len() as int)
    } else {
        seq![]
    };
    if whole.len() > 0 && all_digits(whole) && all_zeros(fraction) && (d < t.len() ==> fraction.len() > 0)
        && digits_value(whole) <= exact_integer_limit() {
        Some(digits_value(whole) as i64)
    } else {
        None
    }
}

/// The constant a number literal becomes: an integer where the literal is a
/// whole number as above, else a float that keeps the literal's text.
pub open spec fn number_const(t: Seq<char>) -> ConstView {
    match integral_literal(t) {
        Some(i) => ConstView::Integer(i),
        None => ConstView::Float(t),
    }
}

/// The type of the constant a number literal becomes.
pub open spec fn number_type(t: Seq<char>) -> MirType {
    match integral_literal(t) {
        Some(_) => MirType::Integer,
        None => MirType::Float,
    }
}

/// The constant a literal initializer of a global becomes, if it is one.
pub open spec fn literal_const(e: HirExpression) -> Option<(ConstView, MirType)> {
    match e.kind {
        HirExpressionKind::Nil => Some((ConstView::Nil, MirType::Any)),
        HirExpressionKind::Boolean(b) => Some((ConstView::Boolean(b), MirType::Boolean)),
        HirExpressionKind::Number(t) => Some((number_const(t@), number_type(t@))),
        HirExpressionKind::String(s) => Some((ConstView::Str(s@), MirType::String)),
        _ => None,
    }
}

/// The symbol a variable was last registered with.
pub open spec fn var_symbol(vars: Seq<(HirVariableId, usize)>, v: HirVariableId) -> Option<usize>
    decreases vars.len(),
{
    if vars.len() == 0 {
        None
    } else if vars.last().0 == v {
        Some(vars.last().1)
    } else {
        var_symbol(vars.drop_last(), v)
    }
}

/// The slot of a local declared with symbol `symbol`.
pub open spec fn local_symbol_slot(symbol: usize) -> Seq<char> {
    "local_symbol_"@ + decimal(symbol as nat)
}

/// The slot a local variable reference reads or writes.
pub open spec fn local_slot(vars: Seq<(HirVariableId, usize)>, v: HirVariableId) -> Seq<char> {
    match var_symbol(vars, v) {
        Some(s) => local_symbol_slot(s),
        None => "local_value_"@ + decimal(v.0 as nat),
    }
}

/// The slot of a global: by its symbol where it has one, else by name.
pub open spec fn global_slot(name: Seq<char>, symbol: Option<usize>) -> Seq<char> {
    match symbol {
        Some(s) => "global_symbol_"@ + decimal(s as nat),
        None => name,
    }
}

/// The number of an optional symbol.
pub open spec fn symbol_number(s: Option<HirSymbolId>) -> Option<usize> {
    match s {
        Some(id) => Some(id.0),
        None => None,
    }
}

/// `start..end` of a span.
pub open spec fn span_text(span: SourceSpan) -> Seq<char> {
    decimal(span.start as nat) + ".."@ + decimal(span.end as nat)
}

/// The type recorded for the first value with id `id`.
pub open spec fn value_type_of(values: Seq<ValueView>, id: MirValueId) -> Option<MirType>
    decreases values.len(),
{
    if values.len() == 0 {
        None
    } else {
        match value_type_of(values.drop_last(), id) {
            Some(t) => Some(t),
            None => if values.last().id == id {
                Some(values.last().value_type)
            } else {
                None
            },
        }
    }
}

/// Whether the block at `index` cannot take more instructions: there is no
/// such block, or it has its terminator.
pub open spec fn terminated(st: Lowering, index: usize) -> bool {
    index >= st.body.blocks.len() || st.body.blocks[index as int].terminator.is_some()
}

/// A new value with the next value number.
pub open spec fn new_value(st: Lowering, origin: OriginView, t: MirType, span: Option<SourceSpan>) -> (Lowering, MirValueId) {
    let id = MirValueId(st.state.values);
    (
        Lowering {
            state: BuildState { values: (st.state.values + 1) as usize, ..st.state },
            body: BodyView {
                values: st.body.values.push(ValueView { id, value_type: t, origin, span }),
                ..st.body
            },
        },
        id,
    )
}

/// A new temporary of the lowered type `t`.
pub open spec fn new_temp(st: Lowering, t: Option<HirType>, span: SourceSpan) -> (Lowering, MirValueId) {
    new_value(st, OriginView::Temporary, type_or_any(t), Some(span))
}

/// A new block number.
pub open spec fn new_block_id(st: Lowering) -> (Lowering, MirBlockId) {
    (Lowering { state: BuildState { blocks: sat_next(st.state.blocks), ..st.state }, ..st }, MirBlockId(st.state.blocks))
}

/// A fresh block appended after the others, and its index.
pub open spec fn push_block(st: Lowering, id: MirBlockId) -> (Lowering, usize) {
    (
        Lowering { body: BodyView { blocks: st.body.blocks.push(empty_block(id, false, false)), ..st.body }, ..st },
        st.body.blocks.len() as usize,
    )
}

/// The blocks after `i` is appended to the block at `index`; a terminator
/// also becomes the block's terminator and gives its successors.
pub open spec fn emit_body(body: BodyView, index: usize, i: InstrView) -> BodyView {
    if index < body.blocks.len() {
        let b = body.blocks[index as int];
        let nb = match view_terminator(i.kind) {
            Some(t) => BlockView { code: b.code.push(i), terminator: Some(t), successors: terminator_successors(t), ..b },
            None => BlockView { code: b.code.push(i), ..b },
        };
        BodyView { blocks: body.blocks.update(index as int, nb), ..body }
    } else {
        body
    }
}

/// The state after `i` is appended to the block at `index`.
pub open spec fn emit(st: Lowering, index: usize, i: InstrView) -> Lowering {
    Lowering { body: emit_body(st.body, index, i), ..st }
}

/// An instruction with a result type and a span.
pub open spec fn instr(kind: KindView, result_type: Option<MirType>, span: SourceSpan) -> InstrView {
    InstrView { kind, result_type, span: Some(span) }
}

/// A constant: a new constant value and the instruction that sets it.
pub open spec fn make_const(st: Lowering, index: usize, c: ConstView, t: MirType, span: SourceSpan) -> (Lowering, MirValueId) {
    let (s1, v) = new_value(st, OriginView::Constant, t, Some(span));
    (emit(s1, index, instr(KindView::Const(v, c), Some(t), span)), v)
}

/// A constant as the result of lowering.
pub open spec fn emit_const(st: Lowering, index: usize, c: ConstView, t: MirType, span: SourceSpan) -> (Lowering, Result<MirValueId, Seq<char>>) {
    let (s1, v) = make_const(st, index, c, t, span);
    (s1, Ok(v))
}

/// A load of slot `name` into the value just made.
pub open spec fn load_into(made: (Lowering, MirValueId), index: usize, name: Seq<char>, span: SourceSpan) -> (Lowering, Result<MirValueId, Seq<char>>) {
    let (s1, v) = made;
    (emit(s1, index, instr(KindView::Load(v, name), value_type_of(s1.body.values, v), span)), Ok(v))
}

/// The key of the `index`-th positional table field: its position counted
/// from one.
pub open spec fn index_key(index: int) -> i64 {
    if index + 1 <= i64::MAX {
        (index + 1) as i64
    } else {
        i64::MAX
    }
}

/// The operation a binary operator lowers to, if it has one.
pub open spec fn arith_of(op: HirBinaryOperator) -> Option<ArithOp> {
    match op {
        HirBinaryOperator::Add => Some(ArithOp::Add),
        HirBinaryOperator::Subtract => Some(ArithOp::Subtract),
        HirBinaryOperator::Multiply => Some(ArithOp::Multiply),
        HirBinaryOperator::Divide => Some(ArithOp::Divide),
        HirBinaryOperator::FloorDivide => Some(ArithOp::Divide),
        HirBinaryOperator::Modulo => Some(ArithOp::Modulo),
        HirBinaryOperator::Equal => Some(ArithOp::Equal),
        HirBinaryOperator::NotEqual => Some(ArithOp::NotEqual),
        HirBinaryOperator::LessThan => Some(ArithOp::LessThan),
        HirBinaryOperator::LessEqual => Some(ArithOp::LessEqual),
        HirBinaryOperator::GreaterThan => Some(ArithOp::GreaterThan),
        HirBinaryOperator::GreaterEqual => Some(ArithOp::GreaterEqual),
        HirBinaryOperator::And => Some(ArithOp::And),
        HirBinaryOperator::Or => Some(ArithOp::Or),
        _ => None,
    }
}

/// A prefix operation on the value `o`: `not` directly, `-` as zero minus
/// `o`; other operators are refused.
pub open spec fn unary_code(st: Lowering, index: usize, op: HirUnaryOperator, o: MirValueId, t: Option<HirType>, span: SourceSpan) -> (Lowering, Result<MirValueId, Seq<char>>) {
    let (s1, r) = new_temp(st, t, span);
    match op {
        HirUnaryOperator::Not => (emit(s1, index, instr(KindView::Not(r, o), value_type_of(s1.body.values, r), span)), Ok(r)),
        HirUnaryOperator::Negate => {
            let (s2, z) = make_const(s1, index, ConstView::Integer(0), MirType::Integer, span);
            (emit(s2, index, instr(KindView::Binary(ArithOp::Subtract, r, z, o), value_type_of(s2.body.values, r), span)), Ok(r))
        },
        _ => (s1, Err("unsupported unary operator in MIR lowering at "@ + span_text(span))),
    }
}

/// An infix operation on the values `l` and `r`.
pub open spec fn binary_code(st: Lowering, index: usize, op: HirBinaryOperator, l: MirValueId, r: MirValueId, t: Option<HirType>, span: SourceSpan) -> (Lowering, Result<MirValueId, Seq<char>>) {
    let (s1, res) = new_temp(st, t, span);
    match arith_of(op) {
        Some(a) => (emit(s1, index, instr(KindView::Binary(a, res, l, r), value_type_of(s1.body.values, res), span)), Ok(res)),
        None => (s1, Err("unsupported binary operator in MIR lowering at "@ + span_text(span))),
    }
}

/// A read of key `k` of table `t` into a new temporary.
pub open spec fn table_get(st: Lowering, index: usize, t: MirValueId, k: MirValueId, ty: Option<HirType>, span: SourceSpan) -> (Lowering, Result<MirValueId, Seq<char>>) {
    let (s1, r) = new_temp(st, ty, span);
    (emit(s1, index, instr(KindView::TableGet(r, t, k), value_type_of(s1.body.values, r), span)), Ok(r))
}

/// Lowering of an expression into the block at `index`: the state after it
/// and the value that holds its result, or the error that stopped it with
/// the state at that point.
pub open spec fn lower_expr(e: HirExpression, st: Lowering, index: usize) -> (Lowering, Result<MirValueId, Seq<char>>)
    decreases e, 1nat,
{
    match e.kind {
        HirExpressionKind::Nil => emit_const(st, index, ConstView::Nil, MirType::Any, e.span),
        HirExpressionKind::Boolean(b) => emit_const(st, index, ConstView::Boolean(b), MirType::Boolean, e.span),
        HirExpressionKind::Number(t) => emit_const(st, index, number_const(t@), number_type(t@), e.span),
        HirExpressionKind::String(s) => emit_const(st, index, ConstView::Str(s@), MirType::String, e.span),
        HirExpressionKind::LocalVariable(v) => load_into(new_temp(st, e.expr_type, e.span), index, local_slot(st.state.vars, v), e.span),
        HirExpressionKind::GlobalVariable(name) => load_into(
            new_value(st, OriginView::Global(name@, symbol_number(e.symbol_id)), type_or_any(e.expr_type), Some(e.span)),
            index,
            global_slot(name@, symbol_number(e.symbol_id)),
            e.span,
        ),
        HirExpressionKind::Unary { operator, operand } => {
            let (s1, r1) = lower_expr(*operand, st, index);
            match r1 {
                Ok(o) => unary_code(s1, index, operator, o, e.expr_type, e.span),
                Err(m) => (s1, Err(m)),
            }
        },
        HirExpressionKind::Binary { left, operator, right } => {
            let (s1, r1) = lower_expr(*left, st, index);
            match r1 {
                Ok(l) => {
                    let (s2, r2) = lower_expr(*right, s1, index);
                    match r2 {
                        Ok(r) => binary_code(s2, index, operator, l, r, e.expr_type, e.span),
                        Err(m) => (s2, Err(m)),
                    }
                },
                Err(m) => (s1, Err(m)),
            }
        },
        HirExpressionKind::TableConstructor(fields) => {
            let (s1, t) = new_value(st, OriginView::Temporary, MirType::Table, Some(e.span));
            let s2 = emit(s1, index, instr(KindView::TableNew(t), Some(MirType::Table), e.span));
            let (s3, r) = lower_fields(fields@, t, e.span, s2, index);
            match r {
                Ok(_) => (s3, Ok(t)),
                Err(m) => (s3, Err(m)),
            }
        },
        HirExpressionKind::Index { object, index: key } => {
            let (s1, r1) = lower_expr(*object, st, index);
            match r1 {
                Ok(t) => {
                    let (s2, r2) = lower_expr(*key, s1, index);
                    match r2 {
                        Ok(k) => table_get(s2, index, t, k, e.expr_type, e.span),
                        Err(m) => (s2, Err(m)),
                    }
                },
                Err(m) => (s1, Err(m)),
            }
        },
        HirExpressionKind::FieldAccess { object, field } => {
            let (s1, r1) = lower_expr(*object, st, index);
            match r1 {
                Ok(t) => {
                    let (s2, k) = make_const(s1, index, ConstView::Str(field@), MirType::String, e.span);
                    table_get(s2, index, t, k, e.expr_type, e.span)
                },
                Err(m) => (s1, Err(m)),
            }
        },
        HirExpressionKind::FunctionCall { .. } => {
            let (s1, r) = lower_call(e, true, st, index);
            match r {
                Ok(Some(v)) => (s1, Ok(v)),
                Ok(None) => (s1, Err("function call produced no value"@)),
                Err(m) => (s1, Err(m)),
            }
        },
        HirExpressionKind::MethodCall { receiver, method, arguments } => {
            let (s1, r1) = lower_expr(*receiver, st, index);
            match r1 {
                Ok(rv) => {
                    let (s2, r2) = lower_list(arguments@, s1, index);
                    match r2 {
                        Ok(ids) => {
                            let (s3, t) = new_temp(s2, e.expr_type, e.span);
                            (
                                emit(s3, index, instr(KindView::Call(Some(t), method@, seq![rv] + ids), value_type_of(s3.body.values, t), e.span)),
                                Ok(t),
                            )
                        },
                        Err(m) => (s2, Err(m)),
                    }
                },
                Err(m) => (s1, Err(m)),
            }
        },
        HirExpressionKind::BuiltinCall { .. } => {
            let (s1, r) = lower_builtin(e, true, st, index);
            match r {
                Ok(Some(v)) => (s1, Ok(v)),
                Ok(None) => (s1, Err("builtin call produced no value"@)),
                Err(m) => (s1, Err(m)),
            }
        },
        _ => (st, Err("invalid HIR expression reached MIR lowering"@)),
    }
}

/// Lowering of expressions one after another; the values holding their
/// results, in order.
pub open spec fn lower_list(es: Seq<HirExpression>, st: Lowering, index: usize) -> (Lowering, Result<Seq<MirValueId>, Seq<char>>)
    decreases es, 0nat,
{
    if es.len() == 0 {
        (st, Ok(seq![]))
    } else {
        let (s1, r1) = lower_list(es.drop_last(), st, index);
        match r1 {
            Ok(ids) => {
                let (s2, r2) = lower_expr(es.last(), s1, index);
                match r2 {
                    Ok(v) => (s2, Ok(ids.push(v))),
                    Err(m) => (s2, Err(m)),
                }
            },
            Err(m) => (s1, Err(m)),
        }
    }
}

/// Lowering of the fields of a table constructor into stores to the table
/// `table`: a named field is keyed by its name, a positional one by its
/// position counted from one.
pub open spec fn lower_fields(fs: Seq<HirTableField>, table: MirValueId, span: SourceSpan, st: Lowering, index: usize) -> (Lowering, Result<(), Seq<char>>)
    decreases fs, 0nat,
{
    if fs.len() == 0 {
        (st, Ok(()))
    } else {
        let (s1, r1) = lower_fields(fs.drop_last(), table, span, st, index);
        match r1 {
            Ok(_) => {
                let (s2, r2) = match fs.last() {
                    HirTableField::Named { key, value } => {
                        let (sa, k) = make_const(s1, index, ConstView::Str(key@), MirType::String, value.span);
                        let (sb, rb) = lower_expr(value, sa, index);
                        match rb {
                            Ok(v) => (sb, Ok((k, v))),
                            Err(m) => (sb, Err(m)),
                        }
                    },
                    HirTableField::Indexed { key, value } => {
                        let (sa, ra) = lower_expr(key, s1, index);
                        match ra {
                            Ok(k) => {
                                let (sb, rb) = lower_expr(value, sa, index);
                                match rb {
                                    Ok(v) => (sb, Ok((k, v))),
                                    Err(m) => (sb, Err(m)),
                                }
                            },
                            Err(m) => (sa, Err(m)),
                        }
                    },
                    HirTableField::Expression(value) => {
                        let (sa, k) = make_const(
                            s1,
                            index,
                            ConstView::Integer(index_key(fs.len() - 1)),
                            MirType::Integer,
                            value.span,
                        );
                        let (sb, rb) = lower_expr(value, sa, index);
                        match rb {
                            Ok(v) => (sb, Ok((k, v))),
                            Err(m) => (sb, Err(m)),
                        }
                    },
                };
                match r2 {
                    Ok((k, v)) => (emit(s2, index, InstrView { kind: KindView::TableSet(table, k, v), result_type: None, span: Some(span) }), Ok(())),
                    Err(m) => (s2, Err(m)),
                }
            },
            Err(m) => (s1, Err(m)),
        }
    }
}

/// Lowering of a call of a function value `e`: the arguments first, then
/// the callee (a global is called by name, a local through its value), then
/// the call, with a result temporary when one is needed.
pub open spec fn lower_call(e: HirExpression, needs: bool, st: Lowering, index: usize) -> (Lowering, Result<Option<MirValueId>, Seq<char>>)
    decreases e, 0nat,
{
    match e.kind {
        HirExpressionKind::FunctionCall { callee, arguments } => {
            let (s1, r1) = lower_list(arguments@, st, index);
            match r1 {
                Ok(ids) => {
                    let (s2, r2) = match callee.kind {
                        HirExpressionKind::GlobalVariable(name) => (s1, Ok(name@)),
                        HirExpressionKind::LocalVariable(_) => {
                            let (sx, rx) = lower_expr(*callee, s1, index);
                            match rx {
                                Ok(v) => (sx, Ok("value_"@ + decimal(v.0 as nat))),
                                Err(m) => (sx, Err(m)),
                            }
                        },
                        _ => (s1, Err("unsupported function callee in MIR lowering at "@ + span_text(callee.span))),
                    };
                    match r2 {
                        Ok(name) => if needs {
                            let (s3, t) = new_temp(s2, callee.expr_type, e.span);
                            (emit(s3, index, instr(KindView::Call(Some(t), name, ids), value_type_of(s3.body.values, t), e.span)), Ok(Some(t)))
                        } else {
                            (emit(s2, index, instr(KindView::Call(None, name, ids), None, e.span)), Ok(None))
                        },
                        Err(m) => (s2, Err(m)),
                    }
                },
                Err(m) => (s1, Err(m)),
            }
        },
        _ => (st, Ok(None)),
    }
}

/// Lowering of a builtin call `e`: the arguments, then a call of the
/// runtime function, with a result temporary when one is needed and the
/// builtin gives a value back; when one is needed and it gives none, `nil`.
pub open spec fn lower_builtin(e: HirExpression, needs: bool, st: Lowering, index: usize) -> (Lowering, Result<Option<MirValueId>, Seq<char>>)
    decreases e, 0nat,
{
    match e.kind {
        HirExpressionKind::BuiltinCall { function, arguments } => {
            let (s1, r1) = lower_list(arguments@, st, index);
            match r1 {
                Ok(ids) => {
                    let (name, rt) = builtin_target(function);
                    if needs && rt != MirType::Void {
                        let (s2, t) = new_value(s1, OriginView::Temporary, rt, Some(e.span));
                        (emit(s2, index, instr(KindView::Call(Some(t), name, ids), Some(rt), e.span)), Ok(Some(t)))
                    } else {
                        let s2 = emit(s1, index, instr(KindView::Call(None, name, ids), Some(rt), e.span));
                        if needs {
                            let (s3, c) = make_const(s2, index, ConstView::Nil, MirType::Any, e.span);
                            (s3, Ok(Some(c)))
                        } else {
                            (s2, Ok(None))
                        }
                    }
                },
                Err(m) => (s1, Err(m)),
            }
        },
        _ => (st, Ok(None)),
    }
}

/// A statement-level instruction at `span`, with no result type.
pub open spec fn plain(kind: KindView, span: SourceSpan) -> InstrView {
    InstrView { kind, result_type: None, span: Some(span) }
}

/// Lowering of an expression whose value is not wanted: calls make no
/// result temporary.
pub open spec fn lower_effect(e: HirExpression, st: Lowering, index: usize) -> (Lowering, Result<(), Seq<char>>) {
    match e.kind {
        HirExpressionKind::FunctionCall { .. } => {
            let (s1, r) = lower_call(e, false, st, index);
            (s1, match r {
                Ok(_) => Ok(()),
                Err(m) => Err(m),
            })
        },
        HirExpressionKind::BuiltinCall { .. } => {
            let (s1, r) = lower_builtin(e, false, st, index);
            (s1, match r {
                Ok(_) => Ok(()),
                Err(m) => Err(m),
            })
        },
        _ => {
            let (s1, r) = lower_expr(e, st, index);
            (s1, match r {
                Ok(_) => Ok(()),
                Err(m) => Err(m),
            })
        },
    }
}

/// Lowering of a store of `value` into an assignment target.
pub open spec fn lower_target(t: HirExpression, value: MirValueId, span: SourceSpan, st: Lowering, index: usize) -> (Lowering, Result<(), Seq<char>>) {
    match t.kind {
        HirExpressionKind::LocalVariable(v) => (emit(st, index, plain(KindView::Store(local_slot(st.state.vars, v), value), span)), Ok(())),
        HirExpressionKind::GlobalVariable(name) => (
            emit(st, index, plain(KindView::Store(global_slot(name@, symbol_number(t.symbol_id)), value), span)),
            Ok(()),
        ),
        HirExpressionKind::Index { object, index: key } => {
            let (s1, r1) = lower_expr(*object, st, index);
            match r1 {
                Ok(tb) => {
                    let (s2, r2) = lower_expr(*key, s1, index);
                    match r2 {
                        Ok(k) => (emit(s2, index, plain(KindView::TableSet(tb, k, value), span)), Ok(())),
                        Err(m) => (s2, Err(m)),
                    }
                },
                Err(m) => (s1, Err(m)),
            }
        },
        HirExpressionKind::FieldAccess { object, field } => {
            let (s1, r1) = lower_expr(*object, st, index);
            match r1 {
                Ok(tb) => {
                    let (s2, k) = make_const(s1, index, ConstView::Str(field@), MirType::String, span);
                    (emit(s2, index, plain(KindView::TableSet(tb, k, value), span)), Ok(()))
                },
                Err(m) => (s1, Err(m)),
            }
        },
        _ => (st, Err("invalid assignment target reached MIR lowering at "@ + span_text(t.span))),
    }
}

/// Lowering of the first `n` target-value pairs of an assignment: each value
/// is lowered, then stored into its target.
pub open spec fn lower_assignments(targets: Seq<HirExpression>, values: Seq<HirExpression>, n: nat, span: SourceSpan, st: Lowering, index: usize) -> (Lowering, Result<(), Seq<char>>)
    decreases n,
{
    if n == 0 {
        (st, Ok(()))
    } else {
        let (s1, r1) = lower_assignments(targets, values, (n - 1) as nat, span, st, index);
        match r1 {
            Ok(_) => {
                let (s2, r2) = lower_expr(values[n - 1], s1, index);
                match r2 {
                    Ok(v) => lower_target(targets[n - 1], v, span, s2, index),
                    Err(m) => (s2, Err(m)),
                }
            },
            Err(m) => (s1, Err(m)),
        }
    }
}

/// A `return`: the value, if any and if the function has a result slot, is
/// stored into the slot, then control jumps to the exit block.
pub open spec fn return_to_exit(st: Lowering, index: usize, value: Option<MirValueId>, span: SourceSpan) -> (Lowering, Result<usize, Seq<char>>) {
    let s1 = match (st.state.slot, value) {
        (Some(slot), Some(v)) => emit(st, index, plain(KindView::Store(slot, v), span)),
        _ => st,
    };
    match s1.state.exit {
        Some(x) => (emit(s1, index, plain(KindView::Jump(x), span)), Ok(index)),
        None => (s1, Err("return lowered without an active exit block"@)),
    }
}

/// The smaller of two lengths.
pub open spec fn pair_count(a: nat, b: nat) -> nat {
    if a <= b {
        a
    } else {
        b
    }
}

/// Lowering of a statement that starts in the block at `index`: the state
/// after it and the block where lowering goes on, or the error that stopped
/// it with the state at that point.
pub open spec fn lower_stmt(s: HirStatement, st: Lowering, index: usize) -> (Lowering, Result<usize, Seq<char>>)
    decreases s, 1nat,
{
    match s.kind {
        HirStatementKind::LocalVariable { variable, initializer } => {
            let s1 = Lowering { state: BuildState { vars: st.state.vars.push((variable.id, variable.symbol_id.0)), ..st.state }, ..st };
            match initializer {
                Some(init) => {
                    let (s2, r) = lower_expr(init, s1, index);
                    match r {
                        Ok(v) => (emit(s2, index, plain(KindView::Store(local_symbol_slot(variable.symbol_id.0), v), s.span)), Ok(index)),
                        Err(m) => (s2, Err(m)),
                    }
                },
                None => (s1, Ok(index)),
            }
        },
        HirStatementKind::Assignment { targets, values } => {
            let (s1, r) = lower_assignments(targets@, values@, pair_count(targets@.len(), values@.len()), s.span, st, index);
            (s1, match r {
                Ok(_) => Ok(index),
                Err(m) => Err(m),
            })
        },
        HirStatementKind::Expression(e) => {
            let (s1, r) = lower_effect(e, st, index);
            (s1, match r {
                Ok(_) => Ok(index),
                Err(m) => Err(m),
            })
        },
        HirStatementKind::Return(es) => {
            let (s1, r1) = match es {
                Some(v) => if v@.len() > 0 {
                    let (sx, rx) = lower_expr(v@[0], st, index);
                    (sx, match rx {
                        Ok(x) => Ok(Some(x)),
                        Err(m) => Err(m),
                    })
                } else {
                    (st, Ok(None))
                },
                None => (st, Ok(None)),
            };
            match r1 {
                Ok(rv) => return_to_exit(s1, index, rv, s.span),
                Err(m) => (s1, Err(m)),
            }
        },
        HirStatementKind::Block(statements) => lower_block(statements@, st, index),
        HirStatementKind::If { .. } => lower_if(s, st, index),
        HirStatementKind::While { .. } => lower_while(s, st, index),
        HirStatementKind::Function { .. } => (st, Ok(index)),
        HirStatementKind::Error => (st, Err("invalid HIR statement reached MIR lowering"@)),
        _ => (st, Err("unsupported HIR control-flow node during MIR lowering at "@ + span_text(s.span))),
    }
}

/// Lowering of an `if`: the condition ends the current block with a branch
/// to a new `then` block and a new `else` block; each branch that does not
/// end by itself jumps to a new merge block, where lowering goes on. When
/// neither branch falls through, no merge block is made and lowering goes on
/// where the `then` branch ended.
pub open spec fn lower_if(s: HirStatement, st: Lowering, index: usize) -> (Lowering, Result<usize, Seq<char>>)
    decreases s, 0nat,
{
    match s.kind {
        HirStatementKind::If { condition, then_block, else_block } => {
            let (s1, rc) = lower_expr(condition, st, index);
            match rc {
                Ok(c) => {
                    let (s2, then_id) = new_block_id(s1);
                    let (s3, else_id) = new_block_id(s2);
                    let (s4, merge_id) = new_block_id(s3);
                    let s5 = emit(s4, index, plain(KindView::Branch(c, then_id, else_id), s.span));
                    let (s6, then_index) = push_block(s5, then_id);
                    let (s7, rt) = lower_block(then_block@, s6, then_index);
                    match rt {
                        Ok(then_end) => {
                            let then_falls = !terminated(s7, then_end);
                            let s8 = if then_falls {
                                emit(s7, then_end, plain(KindView::Jump(merge_id), s.span))
                            } else {
                                s7
                            };
                            let (s9, else_index) = push_block(s8, else_id);
                            let (s10, re) = match else_block {
                                Some(other) => lower_block(other@, s9, else_index),
                                None => (s9, Ok(else_index)),
                            };
                            match re {
                                Ok(else_end) => {
                                    let else_falls = !terminated(s10, else_end);
                                    let s11 = if else_falls {
                                        emit(s10, else_end, plain(KindView::Jump(merge_id), s.span))
                                    } else {
                                        s10
                                    };
                                    if then_falls || else_falls {
                                        let (s12, merge_index) = push_block(s11, merge_id);
                                        (s12, Ok(merge_index))
                                    } else {
                                        (s11, Ok(then_end))
                                    }
                                },
                                Err(m) => (s10, Err(m)),
                            }
                        },
                        Err(m) => (s7, Err(m)),
                    }
                },
                Err(m) => (s1, Err(m)),
            }
        },
        _ => (st, Ok(index)),
    }
}

/// Lowering of a `while`: the current block jumps to a new condition block,
/// which branches to a new body block or a new exit block; a body that does
/// not end by itself jumps back to the condition. Lowering goes on in the
/// exit block.
pub open spec fn lower_while(s: HirStatement, st: Lowering, index: usize) -> (Lowering, Result<usize, Seq<char>>)
    decreases s, 0nat,
{
    match s.kind {
        HirStatementKind::While { condition, body } => {
            let (s1, cond_id) = new_block_id(st);
            let (s2, body_id) = new_block_id(s1);
            let (s3, exit_id) = new_block_id(s2);
            let s4 = emit(s3, index, plain(KindView::Jump(cond_id), s.span));
            let (s5, cond_index) = push_block(s4, cond_id);
            let (s6, rc) = lower_expr(condition, s5, cond_index);
            match rc {
                Ok(c) => {
                    let s7 = emit(s6, cond_index, plain(KindView::Branch(c, body_id, exit_id), s.span));
                    let (s8, body_index) = push_block(s7, body_id);
                    let (s9, rb) = lower_block(body@, s8, body_index);
                    match rb {
                        Ok(body_end) => {
                            let s10 = if !terminated(s9, body_end) {
                                emit(s9, body_end, plain(KindView::Jump(cond_id), s.span))
                            } else {
                                s9
                            };
                            let (s11, exit_index) = push_block(s10, exit_id);
                            (s11, Ok(exit_index))
                        },
                        Err(m) => (s9, Err(m)),
                    }
                },
                Err(m) => (s6, Err(m)),
            }
        },
        _ => (st, Ok(index)),
    }
}

/// Lowering of statements one after another from the block at `index`;
/// once the current block has its terminator, the remaining statements are
/// skipped.
pub open spec fn lower_block(ss: Seq<HirStatement>, st: Lowering, index: usize) -> (Lowering, Result<usize, Seq<char>>)
    decreases ss, 0nat,
{
    if ss.len() == 0 {
        (st, Ok(index))
    } else {
        let (s1, r1) = lower_block(ss.drop_last(), st, index);
        match r1 {
            Ok(b) => if terminated(s1, b) {
                (s1, Ok(b))
            } else {
                lower_stmt(ss.last(), s1, b)
            },
            Err(m) => (s1, Err(m)),
        }
    }
}

/// A parameter of a function as plain values.
#[verifier::ext_equal]
pub struct ParamView {
    pub name: Seq<char>,
    pub storage: Seq<char>,
    pub value_id: MirValueId,
    pub value_type: MirType,
    pub symbol_id: Option<usize>,
    pub span: Option<SourceSpan>,
}

pub open spec fn param_view(p: MirParameter) -> ParamView {
    ParamView { name: p.name@, storage: p.storage@, value_id: p.value_id, value_type: p.value_type, symbol_id: p.symbol_id, span: p.span }
}

/// A local slot of a function as plain values.
#[verifier::ext_equal]
pub struct LocalView {
    pub storage: Seq<char>,
    pub value_id: MirValueId,
    pub value_type: MirType,
    pub symbol_id: Option<usize>,
    pub span: Option<SourceSpan>,
}

pub open spec fn local_view(l: MirLocal) -> LocalView {
    LocalView { storage: l.storage@, value_id: l.value_id, value_type: l.value_type, symbol_id: l.symbol_id, span: l.span }
}

/// The parameters (their slots and their data) and the local slots of a
/// function.
#[verifier::ext_equal]
pub struct HeadView {
    pub parameters: Seq<Seq<char>>,
    pub params: Seq<ParamView>,
    pub locals: Seq<LocalView>,
}

pub open spec fn head_view(f: MirFunction) -> HeadView {
    HeadView {
        parameters: f.parameters@.map_values(|p: String| p@),
        params: f.parameter_data@.map_values(|p: MirParameter| param_view(p)),
        locals: f.locals@.map_values(|l: MirLocal| local_view(l)),
    }
}

/// A local slot is added unless one with the same name is there already.
pub open spec fn add_local(locals: Seq<LocalView>, l: LocalView) -> Seq<LocalView> {
    if exists|i: int| 0 <= i < locals.len() && #[trigger] locals[i].storage == l.storage {
        locals
    } else {
        locals.push(l)
    }
}

/// Registration of parameters: each gets a parameter value, a parameter
/// entry and a local slot named after its symbol.
pub open spec fn register_params(ps: Seq<crate::hir::function::HirParameter>, head: HeadView, st: Lowering) -> (HeadView, Lowering)
    decreases ps.len(),
{
    if ps.len() == 0 {
        (head, st)
    } else {
        let (h1, s1) = register_params(ps.drop_last(), head, st);
        let p = ps.last();
        let symbol = p.symbol_id.0;
        let storage = local_symbol_slot(symbol);
        let t = type_or_any(p.param_type);
        let s2 = Lowering { state: BuildState { vars: s1.state.vars.push((p.id, symbol)), ..s1.state }, ..s1 };
        let (s3, v) = new_value(s2, OriginView::Parameter(h1.params.len() as usize, storage, Some(symbol)), t, Some(p.span));
        (
            HeadView {
                parameters: h1.parameters.push(storage),
                params: h1.params.push(ParamView { name: p.name@, storage, value_id: v, value_type: t, symbol_id: Some(symbol), span: Some(p.span) }),
                locals: add_local(h1.locals, LocalView { storage, value_id: v, value_type: t, symbol_id: Some(symbol), span: Some(p.span) }),
            },
            s3,
        )
    }
}

/// Registration of local variables: each gets a local value and a local
/// slot named after its symbol.
pub open spec fn register_locals(vs: Seq<HirLocalVariable>, head: HeadView, st: Lowering) -> (HeadView, Lowering)
    decreases vs.len(),
{
    if vs.len() == 0 {
        (head, st)
    } else {
        let (h1, s1) = register_locals(vs.drop_last(), head, st);
        let l = vs.last();
        let symbol = l.symbol_id.0;
        let storage = local_symbol_slot(symbol);
        let t = type_or_any(l.var_type);
        let s2 = Lowering { state: BuildState { vars: s1.state.vars.push((l.id, symbol)), ..s1.state }, ..s1 };
        let (s3, v) = new_value(s2, OriginView::Local(storage, Some(symbol)), t, Some(l.span));
        (
            HeadView {
                locals: add_local(h1.locals, LocalView { storage, value_id: v, value_type: t, symbol_id: Some(symbol), span: Some(l.span) }),
                ..h1
            },
            s3,
        )
    }
}

/// An allocation of each local slot, in order, at the start of the entry
/// block.
pub open spec fn allocate_locals(ls: Seq<LocalView>, st: Lowering) -> Lowering
    decreases ls.len(),
{
    if ls.len() == 0 {
        st
    } else {
        let l = ls.last();
        emit(allocate_locals(ls.drop_last(), st), 0, InstrView { kind: KindView::Allocate(l.value_id, l.storage), result_type: None, span: l.span })
    }
}

/// The type of the first value returned by a statement, looking into blocks
/// and both branches of `if`s.
pub open spec fn stmt_return_type(s: HirStatement) -> Option<HirType>
    decreases s, 1nat,
{
    match s.kind {
        HirStatementKind::Return(Some(values)) => if values@.len() > 0 {
            values@[0].expr_type
        } else {
            None
        },
        HirStatementKind::Block(statements) => first_return_type(statements@),
        HirStatementKind::If { then_block, else_block, .. } => match first_return_type(then_block@) {
            Some(t) => Some(t),
            None => match else_block {
                Some(other) => first_return_type(other@),
                None => None,
            },
        },
        _ => None,
    }
}

/// The type of the first returned value of statements, in order.
pub open spec fn first_return_type(ss: Seq<HirStatement>) -> Option<HirType>
    decreases ss, 0nat,
{
    if ss.len() == 0 {
        None
    } else {
        match first_return_type(ss.drop_last()) {
            Some(t) => Some(t),
            None => stmt_return_type(ss.last()),
        }
    }
}

/// The result type of a lowered function: the declared one, else that of
/// the first returned value, else none.
pub open spec fn return_type_of(h: HirFunction) -> MirType {
    match h.return_type {
        Some(t) => mir_type_of(t),
        None => match first_return_type(h.body@) {
            Some(t) => mir_type_of(t),
            None => MirType::Void,
        },
    }
}

/// The indices of the blocks that end with a return.
pub open spec fn return_indices(blocks: Seq<BlockView>) -> Seq<usize>
    decreases blocks.len(),
{
    if blocks.len() == 0 {
        seq![]
    } else {
        let rest = return_indices(blocks.drop_last());
        if blocks.last().terminator matches Some(MirTerminator::Return { .. }) {
            rest.push((blocks.len() - 1) as usize)
        } else {
            rest
        }
    }
}

/// A lowered function as plain values; its blocks' predecessor lists are
/// left empty here (they are filled in from the edges).
pub struct FunctionModel {
    pub id: MirFunctionId,
    pub name: Seq<char>,
    pub return_type: MirType,
    pub span: SourceSpan,
    pub has_explicit_return: bool,
    pub head: HeadView,
    pub body: BodyView,
}

/// Lowering of a function from the builder state `st`: the builder state
/// after it and the function, or the error that stopped it with the builder
/// state at that point.
///
/// Value numbers start again from zero and the variable table is emptied.
/// Parameters and locals are registered; an exit block number is drawn and,
/// when the function has a result, a result slot `local_return` is made;
/// the entry block (index 0) allocates every local slot; the body is lowered
/// from it; a body that does not end by itself jumps to the exit block, which
/// is appended last and returns the value loaded from the result slot, or
/// nothing. The block a `return` jumps to and the result slot are those of
/// `st` again afterwards.
pub open spec fn lower_fn(h: HirFunction, st: BuildState) -> (BuildState, Result<FunctionModel, Seq<char>>) {
    let id = MirFunctionId(st.functions);
    let rtype = return_type_of(h);
    let s0 = Lowering {
        state: BuildState { values: 0, functions: sat_next(st.functions), vars: seq![], ..st },
        body: BodyView { values: seq![], blocks: seq![] },
    };
    let h0 = HeadView { parameters: seq![], params: seq![], locals: seq![] };
    let (h1, s1) = register_params(h.parameters@, h0, s0);
    let (h2, s2) = register_locals(h.local_variables@, h1, s1);
    let (s3, exit_id) = new_block_id(s2);
    let s4 = Lowering { state: BuildState { exit: Some(exit_id), ..s3.state }, ..s3 };
    let (h5, s5) = if rtype != MirType::Void {
        let (sa, v) = new_value(s4, OriginView::Local("local_return"@, None), rtype, Some(h.span));
        (
            HeadView {
                locals: add_local(h2.locals, LocalView { storage: "local_return"@, value_id: v, value_type: rtype, symbol_id: None, span: Some(h.span) }),
                ..h2
            },
            Lowering { state: BuildState { slot: Some("local_return"@), ..sa.state }, ..sa },
        )
    } else {
        (h2, Lowering { state: BuildState { slot: None, ..s4.state }, ..s4 })
    };
    let (s6, entry_id) = new_block_id(s5);
    let s7 = Lowering { body: BodyView { blocks: s6.body.blocks.push(empty_block(entry_id, true, false)), ..s6.body }, ..s6 };
    let s8 = allocate_locals(h5.locals, s7);
    let (s9, rb) = lower_block(h.body@, s8, 0);
    match rb {
        Ok(last) => {
            let s10 = if !terminated(s9, last) {
                emit(s9, last, plain(KindView::Jump(exit_id), h.span))
            } else {
                s9
            };
            let exit_index = s10.body.blocks.len() as usize;
            let s11 = Lowering { body: BodyView { blocks: s10.body.blocks.push(empty_block(exit_id, false, true)), ..s10.body }, ..s10 };
            let s12 = match s11.state.slot {
                Some(slot) => {
                    let (sa, rv) = new_value(s11, OriginView::Temporary, rtype, Some(h.span));
                    let sb = emit(sa, exit_index, instr(KindView::Load(rv, slot), value_type_of(sa.body.values, rv), h.span));
                    emit(sb, exit_index, instr(KindView::Return(Some(rv)), Some(MirType::Void), h.span))
                },
                None => emit(s11, exit_index, instr(KindView::Return(None), Some(MirType::Void), h.span)),
            };
            (
                BuildState { exit: st.exit, slot: st.slot, ..s12.state },
                Ok(
                    FunctionModel {
                        id,
                        name: h.name@,
                        return_type: rtype,
                        span: h.span,
                        has_explicit_return: h.metadata.has_explicit_return,
                        head: h5,
                        body: s12.body,
                    },
                ),
            )
        },
        Err(m) => (s9.state, Err(m)),
    }
}

/// The blocks are those of the model but for their predecessor lists.
pub open spec fn blocks_but_predecessors(model: Seq<BlockView>, actual: Seq<BlockView>) -> bool {
    &&& model.len() == actual.len()
    &&& forall|i: int| 0 <= i < model.len() ==> (#[trigger] actual[i]) == (BlockView { predecessors: actual[i].predecessors, ..model[i] })
}

/// A function is the lowered model: the same header, slots, values and
/// blocks, the entry block first, the exit list the blocks that return, and
/// each block's predecessors exactly the blocks with an edge to it (for the
/// first block with a given id; none twice).
pub open spec fn function_matches(f: MirFunction, m: FunctionModel) -> bool {
    &&& f.id == m.id
    &&& f.name@ == m.name
    &&& f.return_type == Some(m.return_type)
    &&& f.metadata.span == Some(m.span)
    &&& f.metadata.has_explicit_return == m.has_explicit_return
    &&& head_view(f) == m.head
    &&& body_view(f).values == m.body.values
    &&& blocks_but_predecessors(m.body.blocks, body_view(f).blocks)
    &&& f.entry_block == Some(0usize)
    &&& f.exit_blocks@ == return_indices(m.body.blocks)
    &&& forall|j: int| 0 <= j < f.blocks@.len() ==> (#[trigger] f.blocks@[j]).predecessors@.no_duplicates()
    &&& forall|j: int, p: MirBlockId| 0 <= j < f.blocks@.len() ==> (#[trigger] f.blocks@[j].predecessors@.contains(p) <==> (
        crate::mir::function::first_with_id(f.blocks@, j) && crate::mir::function::has_edge(f.blocks@, p, f.blocks@[j].id)))
}

/// Lowering of functions one after another, the builder state carried from
/// each to the next.
pub open spec fn lower_fns(fs: Seq<HirFunction>, st: BuildState) -> (BuildState, Result<Seq<FunctionModel>, Seq<char>>)
    decreases fs.len(),
{
    if fs.len() == 0 {
        (st, Ok(seq![]))
    } else {
        let (s1, r1) = lower_fns(fs.drop_last(), st);
        match r1 {
            Ok(models) => {
                let (s2, r2) = lower_fn(fs.last(), s1);
                match r2 {
                    Ok(m) => (s2, Ok(models.push(m))),
                    Err(e) => (s2, Err(e)),
                }
            },
            Err(e) => (s1, Err(e)),
        }
    }
}

/// A global of the module as plain values.
#[verifier::ext_equal]
pub struct GlobalView {
    pub name: Seq<char>,
    pub storage: Seq<char>,
    pub value_id: MirValueId,
    pub value_type: MirType,
    pub symbol_id: Option<usize>,
    pub span: Option<SourceSpan>,
}

pub open spec fn global_view(g: MirGlobal) -> GlobalView {
    GlobalView { name: g.name@, storage: g.storage@, value_id: g.value_id, value_type: g.value_type, symbol_id: g.symbol_id, span: g.span }
}

/// A constant of the module as plain values.
#[verifier::ext_equal]
pub struct ConstantView {
    pub value_id: MirValueId,
    pub value: ConstView,
    pub value_type: MirType,
    pub span: Option<SourceSpan>,
}

pub open spec fn constant_view(c: MirConstant) -> ConstantView {
    ConstantView { value_id: c.value_id, value: const_view(c.value), value_type: c.value_type, span: c.span }
}

/// The global the `i`-th global variable becomes: value number `i`, a slot
/// named after its symbol.
pub open spec fn lowered_global(g: crate::hir::module::HirGlobalVariable, i: int) -> GlobalView {
    GlobalView {
        name: g.name@,
        storage: "global_symbol_"@ + decimal(g.symbol_id.0 as nat),
        value_id: MirValueId(i as usize),
        value_type: type_or_any(g.var_type),
        symbol_id: Some(g.symbol_id.0),
        span: Some(g.span),
    }
}

/// The constants of globals whose initializer is a literal, in order.
pub open spec fn global_constants(gs: Seq<crate::hir::module::HirGlobalVariable>) -> Seq<ConstantView>
    decreases gs.len(),
{
    if gs.len() == 0 {
        seq![]
    } else {
        let rest = global_constants(gs.drop_last());
        let g = gs.last();
        match g.initializer {
            Some(e) => match literal_const(e) {
                Some((c, t)) => rest.push(ConstantView { value_id: MirValueId((gs.len() - 1) as usize), value: c, value_type: t, span: Some(g.span) }),
                None => rest,
            },
            None => rest,
        }
    }
}

// ---------------------------------------------------------------------------
// The builder.
// ---------------------------------------------------------------------------

/// The detail of an error, as the lowering scheme writes it.
pub open spec fn error_detail(e: MirError) -> Seq<char> {
    match e {
        MirError::InvalidInput(m) => m@,
        MirError::LoweringError(m) => m@,
        MirError::ValidationError(m) => m@,
    }
}

/// A result with its error read as its detail.
pub open spec fn lowered<T>(r: Result<T, MirError>) -> Result<T, Seq<char>> {
    match r {
        Ok(v) => Ok(v),
        Err(e) => Err(error_detail(e)),
    }
}

/// An error, if there is one, is a lowering error.
pub open spec fn lowering_error<T>(r: Result<T, MirError>) -> bool {
    r matches Err(e) ==> e is LoweringError
}

/// Lowers modules of the high-level representation into the mid-level one.
pub struct MirBuilder {
    value_counter: usize,
    block_counter: usize,
    function_counter: usize,
    variable_symbols: Vec<(HirVariableId, usize)>,
    active_exit_block: Option<MirBlockId>,
    active_return_slot: Option<String>,
}

proof fn lemma_terminator_view(k: MirInstructionKind)
    ensures
        crate::mir::instruction::kind_terminator(k) == view_terminator(kind_view(k)),
{
}

/// Appends an instruction to the block at `index`, which has no terminator
/// yet.
fn append(f: &mut MirFunction, index: usize, kind: MirInstructionKind, result_type: Option<MirType>, span: Option<SourceSpan>)
    requires
        index < old(f).blocks@.len(),
        old(f).blocks@[index as int].terminator.is_none(),
    ensures
        body_view(*final(f)) == emit_body(body_view(*old(f)), index, InstrView { kind: kind_view(kind), result_type, span }),
        final(f).blocks@.len() == old(f).blocks@.len(),
        final(f).values == old(f).values,
        crate::mir::function::same_outline(*old(f), *final(f)),
        view_terminator(kind_view(kind)) is None ==> final(f).blocks@[index as int].terminator.is_none(),
{
    let ghost k = kind;
    let ins = MirInstruction::new(kind, result_type, span);
    f.add_instruction(index, ins);
    proof {
        lemma_terminator_view(k);
        let ob = old(f).blocks@[index as int];
        let nb = f.blocks@[index as int];
        assert(nb.instructions@.map_values(|x: MirInstruction| instr_view(x)) =~= ob.instructions@.map_values(
            |x: MirInstruction| instr_view(x),
        ).push(instr_view(ins)));
        let want = emit_body(body_view(*old(f)), index, instr_view(ins));
        assert(block_view(nb) == want.blocks[index as int]);
        assert(body_view(*f).blocks =~= want.blocks);
        assert(body_view(*f).values =~= want.values);
    }
}

impl MirBuilder {
    /// The builder's state as plain values.
    pub closed spec fn state(self) -> BuildState {
        BuildState {
            values: self.value_counter,
            blocks: self.block_counter,
            functions: self.function_counter,
            vars: self.variable_symbols@,
            exit: self.active_exit_block,
            slot: match self.active_return_slot {
                Some(s) => Some(s@),
                None => None,
            },
        }
    }

    /// The builder's state together with the function `f` under
    /// construction.
    pub open spec fn lowering(self, f: MirFunction) -> Lowering {
        Lowering { state: self.state(), body: body_view(f) }
    }

    /// The next value number is the number of values of `f`.
    pub closed spec fn counts_values(self, f: MirFunction) -> bool {
        self.value_counter == f.values@.len()
    }

    /// Everything but the next value number is as in `other`.
    pub closed spec fn keeps_scope(self, other: Self) -> bool {
        &&& self.block_counter == other.block_counter
        &&& self.function_counter == other.function_counter
        &&& self.variable_symbols@ == other.variable_symbols@
        &&& self.active_exit_block == other.active_exit_block
        &&& self.active_return_slot == other.active_return_slot
    }

    pub fn new() -> (result: Self)
        ensures
            result.state() == (BuildState { values: 0, blocks: 0, functions: 0, vars: seq![], exit: None, slot: None }),
    {
        let result = MirBuilder {
            value_counter: 0,
            block_counter: 0,
            function_counter: 0,
            variable_symbols: Vec::new(),
            active_exit_block: None,
            active_return_slot: None,
        };
        assert(result.state().vars =~= Seq::<(HirVariableId, usize)>::empty());
        result
    }

    fn new_value(&mut self, f: &mut MirFunction, kind: MirValueKind, t: MirType, span: Option<SourceSpan>) -> (id: MirValueId)
        requires
            old(self).counts_values(*old(f)),
        ensures
            (final(self).lowering(*final(f)), id) == new_value(old(self).lowering(*old(f)), origin_view(kind), t, span),
            final(self).counts_values(*final(f)),
            final(self).keeps_scope(*old(self)),
            final(f).blocks == old(f).blocks,
            crate::mir::function::same_outline(*old(f), *final(f)),
    {
        let ghost k = kind;
        let id = MirValueId::new(self.value_counter);
        let data = MirValueData::new(id, t, kind, span);
        f.add_value(data);
        self.value_counter = f.values.len();
        proof {
            let want = new_value(old(self).lowering(*old(f)), origin_view(k), t, span);
            assert(body_view(*f).values =~= want.0.body.values);
            assert(body_view(*f).blocks =~= want.0.body.blocks);
            assert(self.state() =~= want.0.state);
        }
        id
    }

    fn new_temporary(&mut self, f: &mut MirFunction, t: Option<HirType>, span: SourceSpan) -> (id: MirValueId)
        requires
            old(self).counts_values(*old(f)),
        ensures
            (final(self).lowering(*final(f)), id) == new_temp(old(self).lowering(*old(f)), t, span),
            final(self).counts_values(*final(f)),
            final(self).keeps_scope(*old(self)),
            final(f).blocks == old(f).blocks,
            crate::mir::function::same_outline(*old(f), *final(f)),
    {
        let value_type = match t {
            Some(h) => lower_hir_type(h),
            None => MirType::Any,
        };
        self.new_value(f, MirValueKind::Temporary, value_type, Some(span))
    }

    /// A constant in the block at `index`.
    fn emit_const(&mut self, f: &mut MirFunction, index: usize, value: MirValue, t: MirType, span: SourceSpan) -> (id: MirValueId)
        requires
            old(self).counts_values(*old(f)),
            index < old(f).blocks@.len(),
            old(f).blocks@[index as int].terminator.is_none(),
        ensures
            (final(self).lowering(*final(f)), id) == make_const(old(self).lowering(*old(f)), index, const_view(value), t, span),
            final(self).counts_values(*final(f)),
            final(self).keeps_scope(*old(self)),
            final(f).blocks@.len() == old(f).blocks@.len(),
            final(f).blocks@[index as int].terminator.is_none(),
            crate::mir::function::same_outline(*old(f), *final(f)),
    {
        let ghost cv = const_view(value);
        let id = self.new_value(f, MirValueKind::Constant, t, Some(span));
        append(f, index, MirInstructionKind::Const { result: id, value }, Some(t), Some(span));
        id
    }

    /// The type recorded for the first value with id `id`.
    fn value_type(&self, f: &MirFunction, id: MirValueId) -> (result: Option<MirType>)
        ensures
            result == value_type_of(body_view(*f).values, id),
    {
        let ghost vs = body_view(*f).values;
        let mut i: usize = 0;
        while i < f.values.len()
            invariant
                i <= f.values@.len(),
                vs == body_view(*f).values,
                value_type_of(vs.subrange(0, i as int), id).is_none(),
            decreases f.values.len() - i,
        {
            proof {
                assert(vs.subrange(0, i + 1).drop_last() =~= vs.subrange(0, i as int));
            }
            if f.values[i].id == id {
                proof {
                    lemma_value_type_prefix(vs, i + 1, id);
                }
                return Some(f.values[i].value_type);
            }
            i = i + 1;
        }
        assert(vs.subrange(0, vs.len() as int) =~= vs);
        None
    }
}

/// Once the first value with an id is among the first `n`, looking at more
/// values finds the same one.
proof fn lemma_value_type_prefix(vs: Seq<ValueView>, n: int, id: MirValueId)
    requires
        0 <= n <= vs.len(),
        value_type_of(vs.subrange(0, n), id).is_some(),
    ensures
        value_type_of(vs, id) == value_type_of(vs.subrange(0, n), id),
    decreases vs.len() - n,
{
    if n < vs.len() {
        assert(vs.subrange(0, n + 1).drop_last() =~= vs.subrange(0, n));
        lemma_value_type_prefix(vs, n + 1, id);
    } else {
        assert(vs.subrange(0, n) =~= vs);
    }
}

/// The type a high-level type lowers to.
fn lower_hir_type(t: HirType) -> (result: MirType)
    ensures
        result == mir_type_of(t),
{
    match t {
        HirType::Nil => MirType::Void,
        HirType::Boolean => MirType::Boolean,
        HirType::Integer => MirType::Integer,
        HirType::Number => MirType::Integer,
        HirType::String => MirType::String,
        HirType::Table => MirType::Table,
        HirType::Function => MirType::Function,
        _ => MirType::Any,
    }
}

proof fn lemma_dot_position(s: Seq<char>, d: int)
    requires
        0 <= d <= s.len(),
        forall|k: int| 0 <= k < d ==> s[k] != '.',
        d == s.len() || s[d] == '.',
    ensures
        dot_position(s) == d,
    decreases d,
{
    if d > 0 {
        let t = s.drop_first();
        assert forall|k: int| 0 <= k < d - 1 implies t[k] != '.' by {
            assert(t[k] == s[k + 1]);
        }
        if d < s.len() {
            assert(t[d - 1] == s[d]);
        }
        lemma_dot_position(t, d - 1);
    }
}

proof fn lemma_digits_monotone(s: Seq<char>, i: int)
    requires
        0 <= i <= s.len(),
    ensures
        digits_value(s.subrange(0, i)) <= digits_value(s),
    decreases s.len() - i,
{
    if i < s.len() {
        assert(s.subrange(0, i + 1).drop_last() =~= s.subrange(0, i));
        lemma_digits_monotone(s, i + 1);
    } else {
        assert(s.subrange(0, i) =~= s);
    }
}

/// The constant a number literal becomes, and its type.
fn number_value(text: &String) -> (result: (MirValue, MirType))
    ensures
        const_view(result.0) == number_const(text@),
        result.1 == number_type(text@),
{
    let cs = chars_of(text.as_str());
    let n = cs.len();
    let mut d: usize = 0;
    while d < n && cs[d] != '.'
        invariant
            d <= n,
            n == cs@.len(),
            forall|k: int| 0 <= k < d ==> cs@[k] != '.',
        decreases n - d,
    {
        d = d + 1;
    }
    proof {
        lemma_dot_position(cs@, d as int);
    }
    let ghost whole = cs@.subrange(0, d as int);
    let mut ok = d > 0;
    let mut acc: u64 = 0;
    let mut i: usize = 0;
    while ok && i < d
        invariant
            i <= d,
            d <= n,
            n == cs@.len(),
            whole == cs@.subrange(0, d as int),
            dot_position(cs@) == d,
            ok ==> d > 0,
            ok ==> all_digits(whole.subrange(0, i as int)) && acc as nat == digits_value(whole.subrange(0, i as int)) && acc
                <= 9007199254740992,
            !ok ==> integral_literal(cs@) is None,
        decreases d - i + (if ok { 1int } else { 0int }),
    {
        let c = cs[i];
        if c < '0' || c > '9' {
            proof {
                assert(whole[i as int] == c);
            }
            ok = false;
        } else {
            let digit: u64 = (c as u32 - 48u32) as u64;
            acc = acc * 10 + digit;
            proof {
                assert(whole.subrange(0, i + 1).drop_last() =~= whole.subrange(0, i as int));
                assert(whole.subrange(0, i + 1).last() == c);
                assert(all_digits(whole.subrange(0, i + 1))) by {
                    assert forall|k: int| 0 <= k < i + 1 implies '0' <= #[trigger] whole.subrange(0, i + 1)[k] <= '9' by {
                        if k < i {
                            assert(whole.subrange(0, i + 1)[k] == whole.subrange(0, i as int)[k]);
                        }
                    }
                }
            }
            if acc > 9007199254740992 {
                proof {
                    if all_digits(whole) {
                        lemma_digits_monotone(whole, i + 1);
                    }
                }
                ok = false;
            }
            i = i + 1;
        }
    }
    proof {
        if ok {
            assert(whole.subrange(0, i as int) =~= whole);
        }
    }
    if ok && d < n {
        if d + 1 >= n {
            ok = false;
        } else {
            let mut j: usize = d + 1;
            while ok && j < n
                invariant
                    d + 1 <= j <= n,
                    n == cs@.len(),
                    ok ==> forall|k: int| d + 1 <= k < j ==> cs@[k] == '0',
                    !ok ==> integral_literal(cs@) is None,
                    dot_position(cs@) == d,
                    whole == cs@.subrange(0, d as int),
                    ok ==> d > 0,
                    ok ==> all_digits(whole) && acc as nat == digits_value(whole) && acc <= 9007199254740992,
                decreases n - j + (if ok { 1int } else { 0int }),
            {
                if cs[j] != '0' {
                    proof {
                        let fraction = cs@.subrange(d + 1, n as int);
                        assert(fraction[j - d - 1] == cs@[j as int]);
                    }
                    ok = false;
                } else {
                    j = j + 1;
                }
            }
            proof {
                if ok {
                    let fraction = cs@.subrange(d + 1, n as int);
                    assert forall|k: int| 0 <= k < fraction.len() implies #[trigger] fraction[k] == '0' by {
                        assert(fraction[k] == cs@[k + d + 1]);
                    }
                }
            }
        }
    }
    if ok {
        proof {
            assert(text@ == cs@);
            if d < n {
                let fraction = cs@.subrange(d + 1, n as int);
                assert(all_zeros(fraction));
            } else {
                assert(all_zeros(Seq::<char>::empty()));
            }
            let dd = dot_position(cs@);
            assert(dd == d);
            assert(cs@.subrange(0, dd as int) == whole);
            assert(whole.len() > 0);
            assert(all_digits(whole));
            assert(digits_value(whole) <= exact_integer_limit());
            assert(d < cs@.len() ==> cs@.subrange(dd as int + 1, cs@.len() as int).len() > 0);
            assert(d < cs@.len() ==> all_zeros(cs@.subrange(dd as int + 1, cs@.len() as int)));
            assert(integral_literal(cs@) == Some(acc as i64));
        }
        (MirValue::Integer(acc as i64), MirType::Integer)
    } else {
        (MirValue::Float(to_owned_string(text.as_str())), MirType::Float)
    }
}

/// The slot of a local declared with symbol `symbol`.
fn local_symbol_slot_name(symbol: usize) -> (result: String)
    ensures
        result@ == local_symbol_slot(symbol),
{
    let mut out = to_owned_string("local_symbol_");
    push_decimal(&mut out, symbol);
    out
}

/// The slot of a global: by its symbol where it has one, else by name.
fn global_slot_name(name: &str, symbol: Option<usize>) -> (result: String)
    ensures
        result@ == global_slot(name@, symbol),
{
    match symbol {
        Some(s) => {
            let mut out = to_owned_string("global_symbol_");
            push_decimal(&mut out, s);
            out
        },
        None => to_owned_string(name),
    }
}

/// `prefix` followed by `start..end` of the span.
fn span_message(prefix: &str, span: SourceSpan) -> (result: String)
    ensures
        result@ == prefix@ + span_text(span),
{
    let mut out = to_owned_string(prefix);
    push_decimal(&mut out, span.start);
    push_str(&mut out, "..");
    push_decimal(&mut out, span.end);
    out
}

impl MirBuilder {
    /// The symbol a variable was last registered with.
    fn var_symbol_of(&self, v: HirVariableId) -> (result: Option<usize>)
        ensures
            result == var_symbol(self.state().vars, v),
    {
        let ghost vars = self.variable_symbols@;
        let mut i: usize = self.variable_symbols.len();
        assert(vars.subrange(0, i as int) =~= vars);
        while i > 0
            invariant
                i <= vars.len(),
                vars == self.variable_symbols@,
                var_symbol(vars.subrange(0, i as int), v) == var_symbol(vars, v),
            decreases i,
        {
            let (id, symbol) = self.variable_symbols[i - 1];
            assert(vars.subrange(0, i as int).drop_last() =~= vars.subrange(0, i - 1));
            if id == v {
                return Some(symbol);
            }
            i = i - 1;
        }
        None
    }

    /// The slot a local variable reference reads or writes.
    fn local_slot_name(&self, v: HirVariableId) -> (result: String)
        ensures
            result@ == local_slot(self.state().vars, v),
    {
        match self.var_symbol_of(v) {
            Some(s) => local_symbol_slot_name(s),
            None => {
                let mut out = to_owned_string("local_value_");
                push_decimal(&mut out, v.0);
                out
            },
        }
    }
}

/// A list result with its values as a sequence and its error read as its
/// detail.
pub open spec fn lowered_ids(r: Result<Vec<MirValueId>, MirError>) -> Result<Seq<MirValueId>, Seq<char>> {
    match r {
        Ok(v) => Ok(v@),
        Err(e) => Err(error_detail(e)),
    }
}

proof fn lemma_list_stops(es: Seq<HirExpression>, i: int, st: Lowering, index: usize)
    requires
        0 <= i <= es.len(),
        lower_list(es.subrange(0, i), st, index).1 is Err,
    ensures
        lower_list(es, st, index) == lower_list(es.subrange(0, i), st, index),
    decreases es.len() - i,
{
    if i < es.len() {
        assert(es.subrange(0, i + 1).drop_last() =~= es.subrange(0, i));
        lemma_list_stops(es, i + 1, st, index);
    } else {
        assert(es.subrange(0, i) =~= es);
    }
}

proof fn lemma_fields_stop(fs: Seq<HirTableField>, i: int, table: MirValueId, span: SourceSpan, st: Lowering, index: usize)
    requires
        0 <= i <= fs.len(),
        lower_fields(fs.subrange(0, i), table, span, st, index).1 is Err,
    ensures
        lower_fields(fs, table, span, st, index) == lower_fields(fs.subrange(0, i), table, span, st, index),
    decreases fs.len() - i,
{
    if i < fs.len() {
        assert(fs.subrange(0, i + 1).drop_last() =~= fs.subrange(0, i));
        lemma_fields_stop(fs, i + 1, table, span, st, index);
    } else {
        assert(fs.subrange(0, i) =~= fs);
    }
}

/// The runtime function a builtin calls and the type it gives back.
fn builtin_target_of(f: HirBuiltinFunction) -> (result: (&'static str, MirType))
    ensures
        result.0@ == builtin_target(f).0,
        result.1 == builtin_target(f).1,
{
    match f {
        HirBuiltinFunction::Print => ("glua_print", MirType::Void),
        HirBuiltinFunction::Type => ("glua_type", MirType::String),
        HirBuiltinFunction::ToNumber => ("glua_tonumber", MirType::Integer),
        HirBuiltinFunction::ToString => ("glua_tostring", MirType::String),
        HirBuiltinFunction::Error => ("glua_error", MirType::Void),
        HirBuiltinFunction::Pairs => ("glua_pairs", MirType::Function),
        HirBuiltinFunction::Ipairs => ("glua_ipairs", MirType::Function),
        HirBuiltinFunction::Require => ("glua_require", MirType::Any),
    }
}

impl MirBuilder {
    fn unary_code(&mut self, f: &mut MirFunction, index: usize, op: HirUnaryOperator, o: MirValueId, t: Option<HirType>, span: SourceSpan) -> (r: Result<MirValueId, MirError>)
        requires
            old(self).counts_values(*old(f)),
            index < old(f).blocks@.len(),
            old(f).blocks@[index as int].terminator.is_none(),
        ensures
            (final(self).lowering(*final(f)), lowered(r)) == unary_code(old(self).lowering(*old(f)), index, op, o, t, span),
            final(self).counts_values(*final(f)),
            final(self).keeps_scope(*old(self)),
            final(f).blocks@.len() == old(f).blocks@.len(),
            final(f).blocks@[index as int].terminator.is_none(),
            crate::mir::function::same_outline(*old(f), *final(f)),
            lowering_error(r),
    {
        let r = self.new_temporary(f, t, span);
        match op {
            HirUnaryOperator::Not => {
                let rt = self.value_type(f, r);
                append(f, index, MirInstructionKind::Not { result: r, operand: o }, rt, Some(span));
                Ok(r)
            },
            HirUnaryOperator::Negate => {
                let z = self.emit_const(f, index, MirValue::Integer(0), MirType::Integer, span);
                let rt = self.value_type(f, r);
                append(f, index, MirInstructionKind::Subtract { result: r, left: z, right: o }, rt, Some(span));
                Ok(r)
            },
            _ => Err(MirError::LoweringError(span_message("unsupported unary operator in MIR lowering at ", span))),
        }
    }

    fn binary_code(
        &mut self,
        f: &mut MirFunction,
        index: usize,
        op: HirBinaryOperator,
        l: MirValueId,
        r: MirValueId,
        t: Option<HirType>,
        span: SourceSpan,
    ) -> (result: Result<MirValueId, MirError>)
        requires
            old(self).counts_values(*old(f)),
            index < old(f).blocks@.len(),
            old(f).blocks@[index as int].terminator.is_none(),
        ensures
            (final(self).lowering(*final(f)), lowered(result)) == binary_code(old(self).lowering(*old(f)), index, op, l, r, t, span),
            final(self).counts_values(*final(f)),
            final(self).keeps_scope(*old(self)),
            final(f).blocks@.len() == old(f).blocks@.len(),
            final(f).blocks@[index as int].terminator.is_none(),
            crate::mir::function::same_outline(*old(f), *final(f)),
            lowering_error(result),
    {
        let res = self.new_temporary(f, t, span);
        let kind = match op {
            HirBinaryOperator::Add => MirInstructionKind::Add { result: res, left: l, right: r },
            HirBinaryOperator::Subtract => MirInstructionKind::Subtract { result: res, left: l, right: r },
            HirBinaryOperator::Multiply => MirInstructionKind::Multiply { result: res, left: l, right: r },
            HirBinaryOperator::Divide => MirInstructionKind::Divide { result: res, left: l, right: r },
            HirBinaryOperator::FloorDivide => MirInstructionKind::Divide { result: res, left: l, right: r },
            HirBinaryOperator::Modulo => MirInstructionKind::Modulo { result: res, left: l, right: r },
            HirBinaryOperator::Equal => MirInstructionKind::Equal { result: res, left: l, right: r },
            HirBinaryOperator::NotEqual => MirInstructionKind::NotEqual { result: res, left: l, right: r },
            HirBinaryOperator::LessThan => MirInstructionKind::LessThan { result: res, left: l, right: r },
            HirBinaryOperator::LessEqual => MirInstructionKind::LessEqual { result: res, left: l, right: r },
            HirBinaryOperator::GreaterThan => MirInstructionKind::GreaterThan { result: res, left: l, right: r },
            HirBinaryOperator::GreaterEqual => MirInstructionKind::GreaterEqual { result: res, left: l, right: r },
            HirBinaryOperator::And => MirInstructionKind::And { result: res, left: l, right: r },
            HirBinaryOperator::Or => MirInstructionKind::Or { result: res, left: l, right: r },
            _ => {
                return Err(MirError::LoweringError(span_message("unsupported binary operator in MIR lowering at ", span)));
            },
        };
        let rt = self.value_type(f, res);
        append(f, index, kind, rt, Some(span));
        Ok(res)
    }

    fn table_get(&mut self, f: &mut MirFunction, index: usize, t: MirValueId, k: MirValueId, ty: Option<HirType>, span: SourceSpan) -> (r: Result<MirValueId, MirError>)
        requires
            old(self).counts_values(*old(f)),
            index < old(f).blocks@.len(),
            old(f).blocks@[index as int].terminator.is_none(),
        ensures
            (final(self).lowering(*final(f)), lowered(r)) == table_get(old(self).lowering(*old(f)), index, t, k, ty, span),
            final(self).counts_values(*final(f)),
            final(self).keeps_scope(*old(self)),
            final(f).blocks@.len() == old(f).blocks@.len(),
            final(f).blocks@[index as int].terminator.is_none(),
            crate::mir::function::same_outline(*old(f), *final(f)),
            lowering_error(r),
    {
        let r = self.new_temporary(f, ty, span);
        let rt = self.value_type(f, r);
        append(f, index, MirInstructionKind::TableGet { result: r, table: t, key: k }, rt, Some(span));
        Ok(r)
    }
}

impl MirBuilder {
    /// Lowers an expression into the block at `index`.
    #[verifier::spinoff_prover]
    #[verifier::rlimit(40)]
    fn lower_expression(&mut self, e: &HirExpression, f: &mut MirFunction, index: usize) -> (r: Result<MirValueId, MirError>)
        requires
            old(self).counts_values(*old(f)),
            index < old(f).blocks@.len(),
            old(f).blocks@[index as int].terminator.is_none(),
        ensures
            (final(self).lowering(*final(f)), lowered(r)) == lower_expr(*e, old(self).lowering(*old(f)), index),
            final(self).counts_values(*final(f)),
            final(self).keeps_scope(*old(self)),
            final(f).blocks@.len() == old(f).blocks@.len(),
            final(f).blocks@[index as int].terminator.is_none(),
            crate::mir::function::same_outline(*old(f), *final(f)),
            lowering_error(r),
        decreases e, 1nat,
    {
        match &e.kind {
            HirExpressionKind::Nil => Ok(self.emit_const(f, index, MirValue::Nil, MirType::Any, e.span)),
            HirExpressionKind::Boolean(b) => Ok(self.emit_const(f, index, MirValue::Boolean(*b), MirType::Boolean, e.span)),
            HirExpressionKind::Number(t) => {
                let (value, ty) = number_value(t);
                Ok(self.emit_const(f, index, value, ty, e.span))
            },
            HirExpressionKind::String(text) => {
                let value = MirValue::String(to_owned_string(text.as_str()));
                Ok(self.emit_const(f, index, value, MirType::String, e.span))
            },
            HirExpressionKind::LocalVariable(v) => {
                let name = self.local_slot_name(*v);
                let t = self.new_temporary(f, e.expr_type, e.span);
                let rt = self.value_type(f, t);
                append(f, index, MirInstructionKind::Load { result: t, name }, rt, Some(e.span));
                Ok(t)
            },
            HirExpressionKind::GlobalVariable(name) => {
                let symbol = match e.symbol_id {
                    Some(s) => Some(s.0),
                    None => None,
                };
                let value_type = match e.expr_type {
                    Some(h) => lower_hir_type(h),
                    None => MirType::Any,
                };
                let kind = MirValueKind::Global { name: to_owned_string(name.as_str()), symbol_id: symbol };
                let v = self.new_value(f, kind, value_type, Some(e.span));
                let slot = global_slot_name(name.as_str(), symbol);
                let rt = self.value_type(f, v);
                append(f, index, MirInstructionKind::Load { result: v, name: slot }, rt, Some(e.span));
                Ok(v)
            },
            HirExpressionKind::Unary { operator, operand } => {
                let o = match self.lower_expression(operand, f, index) {
                    Ok(o) => o,
                    Err(err) => return Err(err),
                };
                self.unary_code(f, index, *operator, o, e.expr_type, e.span)
            },
            HirExpressionKind::Binary { left, operator, right } => {
                let l = match self.lower_expression(left, f, index) {
                    Ok(l) => l,
                    Err(err) => return Err(err),
                };
                let r = match self.lower_expression(right, f, index) {
                    Ok(r) => r,
                    Err(err) => return Err(err),
                };
                self.binary_code(f, index, *operator, l, r, e.expr_type, e.span)
            },
            HirExpressionKind::TableConstructor(fields) => {
                let t = self.new_value(f, MirValueKind::Temporary, MirType::Table, Some(e.span));
                append(f, index, MirInstructionKind::TableNew { result: t }, Some(MirType::Table), Some(e.span));
                match self.lower_fields(fields, t, e.span, f, index) {
                    Ok(()) => Ok(t),
                    Err(err) => Err(err),
                }
            },
            HirExpressionKind::Index { object, index: key } => {
                let t = match self.lower_expression(object, f, index) {
                    Ok(t) => t,
                    Err(err) => return Err(err),
                };
                let k = match self.lower_expression(key, f, index) {
                    Ok(k) => k,
                    Err(err) => return Err(err),
                };
                self.table_get(f, index, t, k, e.expr_type, e.span)
            },
            HirExpressionKind::FieldAccess { object, field } => {
                let t = match self.lower_expression(object, f, index) {
                    Ok(t) => t,
                    Err(err) => return Err(err),
                };
                let key = MirValue::String(to_owned_string(field.as_str()));
                let k = self.emit_const(f, index, key, MirType::String, e.span);
                self.table_get(f, index, t, k, e.expr_type, e.span)
            },
            HirExpressionKind::FunctionCall { .. } => match self.lower_function_call(e, true, f, index) {
                Ok(Some(v)) => Ok(v),
                Ok(None) => Err(MirError::LoweringError(to_owned_string("function call produced no value"))),
                Err(err) => Err(err),
            },
            HirExpressionKind::MethodCall { receiver, method, arguments } => {
                let rv = match self.lower_expression(receiver, f, index) {
                    Ok(v) => v,
                    Err(err) => return Err(err),
                };
                let ids = match self.lower_expressions(arguments, f, index) {
                    Ok(ids) => ids,
                    Err(err) => return Err(err),
                };
                let t = self.new_temporary(f, e.expr_type, e.span);
                let mut all: Vec<MirValueId> = Vec::new();
                all.push(rv);
                let mut k: usize = 0;
                while k < ids.len()
                    invariant
                        k <= ids@.len(),
                        all@ == seq![rv] + ids@.subrange(0, k as int),
                    decreases ids.len() - k,
                {
                    all.push(ids[k]);
                    assert(all@ =~= seq![rv] + ids@.subrange(0, k + 1));
                    k = k + 1;
                }
                assert(ids@.subrange(0, ids@.len() as int) =~= ids@);
                let rt = self.value_type(f, t);
                let call = MirInstructionKind::Call { result: Some(t), function: to_owned_string(method.as_str()), arguments: all };
                append(f, index, call, rt, Some(e.span));
                Ok(t)
            },
            HirExpressionKind::BuiltinCall { .. } => match self.lower_builtin_call(e, true, f, index) {
                Ok(Some(v)) => Ok(v),
                Ok(None) => Err(MirError::LoweringError(to_owned_string("builtin call produced no value"))),
                Err(err) => Err(err),
            },
            _ => Err(MirError::LoweringError(to_owned_string("invalid HIR expression reached MIR lowering"))),
        }
    }

    /// Lowers expressions one after another into the block at `index`.
    fn lower_expressions(&mut self, es: &Vec<HirExpression>, f: &mut MirFunction, index: usize) -> (r: Result<Vec<MirValueId>, MirError>)
        requires
            old(self).counts_values(*old(f)),
            index < old(f).blocks@.len(),
            old(f).blocks@[index as int].terminator.is_none(),
        ensures
            (final(self).lowering(*final(f)), lowered_ids(r)) == lower_list(es@, old(self).lowering(*old(f)), index),
            final(self).counts_values(*final(f)),
            final(self).keeps_scope(*old(self)),
            final(f).blocks@.len() == old(f).blocks@.len(),
            final(f).blocks@[index as int].terminator.is_none(),
            crate::mir::function::same_outline(*old(f), *final(f)),
            lowering_error(r),
        decreases es, 0nat,
    {
        let ghost st0 = self.lowering(*f);
        let mut ids: Vec<MirValueId> = Vec::new();
        let mut i: usize = 0;
        while i < es.len()
            invariant
                i <= es@.len(),
                lower_list(es@.subrange(0, i as int), st0, index).0 == self.lowering(*f),
                lower_list(es@.subrange(0, i as int), st0, index).1 == Ok::<Seq<MirValueId>, Seq<char>>(ids@),
                st0 == old(self).lowering(*old(f)),
                self.counts_values(*f),
                self.keeps_scope(*old(self)),
                f.blocks@.len() == old(f).blocks@.len(),
                index < f.blocks@.len(),
                f.blocks@[index as int].terminator.is_none(),
                crate::mir::function::same_outline(*old(f), *f),
            decreases es.len() - i,
        {
            proof {
                assert(es@.subrange(0, i + 1).drop_last() =~= es@.subrange(0, i as int));
                assert(es@.subrange(0, i + 1).last() == es@[i as int]);
            }
            match self.lower_expression(&es[i], f, index) {
                Ok(v) => {
                    ids.push(v);
                },
                Err(err) => {
                    proof {
                        lemma_list_stops(es@, i + 1, st0, index);
                    }
                    return Err(err);
                },
            }
            i = i + 1;
        }
        assert(es@.subrange(0, es@.len() as int) =~= es@);
        Ok(ids)
    }

    /// Lowers the fields of a table constructor into stores to `table`.
    #[verifier::spinoff_prover]
    fn lower_fields(&mut self, fs: &Vec<HirTableField>, table: MirValueId, span: SourceSpan, f: &mut MirFunction, index: usize) -> (r: Result<(), MirError>)
        requires
            old(self).counts_values(*old(f)),
            index < old(f).blocks@.len(),
            old(f).blocks@[index as int].terminator.is_none(),
        ensures
            (final(self).lowering(*final(f)), lowered(r)) == lower_fields(fs@, table, span, old(self).lowering(*old(f)), index),
            final(self).counts_values(*final(f)),
            final(self).keeps_scope(*old(self)),
            final(f).blocks@.len() == old(f).blocks@.len(),
            final(f).blocks@[index as int].terminator.is_none(),
            crate::mir::function::same_outline(*old(f), *final(f)),
            lowering_error(r),
        decreases fs, 0nat,
    {
        let ghost st0 = self.lowering(*f);
        let mut i: usize = 0;
        while i < fs.len()
            invariant
                i <= fs@.len(),
                lower_fields(fs@.subrange(0, i as int), table, span, st0, index).0 == self.lowering(*f),
                lower_fields(fs@.subrange(0, i as int), table, span, st0, index).1 == Ok::<(), Seq<char>>(()),
                st0 == old(self).lowering(*old(f)),
                self.counts_values(*f),
                self.keeps_scope(*old(self)),
                f.blocks@.len() == old(f).blocks@.len(),
                index < f.blocks@.len(),
                f.blocks@[index as int].terminator.is_none(),
                crate::mir::function::same_outline(*old(f), *f),
            decreases fs.len() - i,
        {
            proof {
                assert(fs@.subrange(0, i + 1).drop_last() =~= fs@.subrange(0, i as int));
                assert(fs@.subrange(0, i + 1).last() == fs@[i as int]);
                assert(decreases_to!(fs => fs[i as int]));
            }
            let pair = match &fs[i] {
                HirTableField::Named { key, value } => {
                    let name = MirValue::String(to_owned_string(key.as_str()));
                    let k = self.emit_const(f, index, name, MirType::String, value.span);
                    match self.lower_expression(value, f, index) {
                        Ok(v) => Ok((k, v)),
                        Err(err) => Err(err),
                    }
                },
                HirTableField::Indexed { key, value } => match self.lower_expression(key, f, index) {
                    Ok(k) => match self.lower_expression(value, f, index) {
                        Ok(v) => Ok((k, v)),
                        Err(err) => Err(err),
                    },
                    Err(err) => Err(err),
                },
                HirTableField::Expression(value) => {
                    let position: i64 = if (i as u64) < 9223372036854775807u64 {
                        (i + 1) as i64
                    } else {
                        9223372036854775807i64
                    };
                    let k = self.emit_const(f, index, MirValue::Integer(position), MirType::Integer, value.span);
                    match self.lower_expression(value, f, index) {
                        Ok(v) => Ok((k, v)),
                        Err(err) => Err(err),
                    }
                },
            };
            match pair {
                Ok((k, v)) => {
                    append(f, index, MirInstructionKind::TableSet { table, key: k, value: v }, None, Some(span));
                },
                Err(err) => {
                    proof {
                        lemma_fields_stop(fs@, i + 1, table, span, st0, index);
                    }
                    return Err(err);
                },
            }
            i = i + 1;
        }
        assert(fs@.subrange(0, fs@.len() as int) =~= fs@);
        Ok(())
    }

    /// Lowers a call of a function value, with a result temporary when
    /// `needs` holds.
    fn lower_function_call(&mut self, e: &HirExpression, needs: bool, f: &mut MirFunction, index: usize) -> (r: Result<Option<MirValueId>, MirError>)
        requires
            old(self).counts_values(*old(f)),
            index < old(f).blocks@.len(),
            old(f).blocks@[index as int].terminator.is_none(),
        ensures
            (final(self).lowering(*final(f)), lowered(r)) == lower_call(*e, needs, old(self).lowering(*old(f)), index),
            final(self).counts_values(*final(f)),
            final(self).keeps_scope(*old(self)),
            final(f).blocks@.len() == old(f).blocks@.len(),
            final(f).blocks@[index as int].terminator.is_none(),
            crate::mir::function::same_outline(*old(f), *final(f)),
            lowering_error(r),
        decreases e, 0nat,
    {
        if let HirExpressionKind::FunctionCall { callee, arguments } = &e.kind {
            let ids = match self.lower_expressions(arguments, f, index) {
                Ok(ids) => ids,
                Err(err) => return Err(err),
            };
            let name = match &callee.kind {
                HirExpressionKind::GlobalVariable(n) => to_owned_string(n.as_str()),
                HirExpressionKind::LocalVariable(_) => {
                    let v = match self.lower_expression(callee, f, index) {
                        Ok(v) => v,
                        Err(err) => return Err(err),
                    };
                    let mut text = to_owned_string("value_");
                    push_decimal(&mut text, v.0);
                    text
                },
                _ => {
                    return Err(MirError::LoweringError(span_message("unsupported function callee in MIR lowering at ", callee.span)));
                },
            };
            if needs {
                let t = self.new_temporary(f, callee.expr_type, e.span);
                let rt = self.value_type(f, t);
                append(f, index, MirInstructionKind::Call { result: Some(t), function: name, arguments: ids }, rt, Some(e.span));
                Ok(Some(t))
            } else {
                append(f, index, MirInstructionKind::Call { result: None, function: name, arguments: ids }, None, Some(e.span));
                Ok(None)
            }
        } else {
            Ok(None)
        }
    }

    /// Lowers a builtin call, with a result when `needs` holds.
    fn lower_builtin_call(&mut self, e: &HirExpression, needs: bool, f: &mut MirFunction, index: usize) -> (r: Result<Option<MirValueId>, MirError>)
        requires
            old(self).counts_values(*old(f)),
            index < old(f).blocks@.len(),
            old(f).blocks@[index as int].terminator.is_none(),
        ensures
            (final(self).lowering(*final(f)), lowered(r)) == lower_builtin(*e, needs, old(self).lowering(*old(f)), index),
            final(self).counts_values(*final(f)),
            final(self).keeps_scope(*old(self)),
            final(f).blocks@.len() == old(f).blocks@.len(),
            final(f).blocks@[index as int].terminator.is_none(),
            crate::mir::function::same_outline(*old(f), *final(f)),
            lowering_error(r),
        decreases e, 0nat,
    {
        if let HirExpressionKind::BuiltinCall { function, arguments } = &e.kind {
            let ids = match self.lower_expressions(arguments, f, index) {
                Ok(ids) => ids,
                Err(err) => return Err(err),
            };
            let (name, rt) = builtin_target_of(*function);
            if needs && rt != MirType::Void {
                let t = self.new_value(f, MirValueKind::Temporary, rt, Some(e.span));
                let call = MirInstructionKind::Call { result: Some(t), function: to_owned_string(name), arguments: ids };
                append(f, index, call, Some(rt), Some(e.span));
                Ok(Some(t))
            } else {
                let call = MirInstructionKind::Call { result: None, function: to_owned_string(name), arguments: ids };
                append(f, index, call, Some(rt), Some(e.span));
                if needs {
                    let c = self.emit_const(f, index, MirValue::Nil, MirType::Any, e.span);
                    Ok(Some(c))
                } else {
                    Ok(None)
                }
            }
        } else {
            Ok(None)
        }
    }
}

proof fn lemma_assignments_stop(
    targets: Seq<HirExpression>,
    values: Seq<HirExpression>,
    i: nat,
    n: nat,
    span: SourceSpan,
    st: Lowering,
    index: usize,
)
    requires
        i <= n,
        lower_assignments(targets, values, i, span, st, index).1 is Err,
    ensures
        lower_assignments(targets, values, n, span, st, index) == lower_assignments(targets, values, i, span, st, index),
    decreases n - i,
{
    if i < n {
        lemma_assignments_stop(targets, values, i + 1, n, span, st, index);
    }
}

proof fn lemma_block_stops(ss: Seq<HirStatement>, i: int, st: Lowering, index: usize)
    requires
        0 <= i <= ss.len(),
        match lower_block(ss.subrange(0, i), st, index) {
            (s1, Ok(b)) => terminated(s1, b),
            (_, Err(_)) => true,
        },
    ensures
        lower_block(ss, st, index) == lower_block(ss.subrange(0, i), st, index),
    decreases ss.len() - i,
{
    if i < ss.len() {
        assert(ss.subrange(0, i + 1).drop_last() =~= ss.subrange(0, i));
        lemma_block_stops(ss, i + 1, st, index);
    } else {
        assert(ss.subrange(0, i) =~= ss);
    }
}

impl MirBuilder {
    /// The block that `return` jumps to, the result slot and the next
    /// function number are as in `other`.
    pub closed spec fn keeps_function(self, other: Self) -> bool {
        &&& self.function_counter == other.function_counter
        &&& self.active_exit_block == other.active_exit_block
        &&& self.active_return_slot == other.active_return_slot
    }

    fn new_block_id(&mut self) -> (id: MirBlockId)
        ensures
            (final(self).state(), id) == (new_block_id(Lowering { state: old(self).state(), body: BodyView { values: seq![], blocks: seq![] } }).0.state, new_block_id(Lowering { state: old(self).state(), body: BodyView { values: seq![], blocks: seq![] } }).1),
            final(self).value_counter == old(self).value_counter,
            final(self).keeps_function(*old(self)),
            final(self).variable_symbols@ == old(self).variable_symbols@,
    {
        let id = MirBlockId::new(self.block_counter);
        self.block_counter = self.block_counter.saturating_add(1);
        proof {
            assert(self.state().vars =~= old(self).state().vars);
        }
        id
    }

    fn push_block(&mut self, f: &mut MirFunction, id: MirBlockId) -> (index: usize)
        ensures
            (final(self).lowering(*final(f)), index) == push_block(old(self).lowering(*old(f)), id),
            *final(self) == *old(self),
            final(f).values == old(f).values,
            final(f).blocks@.len() == old(f).blocks@.len() + 1,
            index == old(f).blocks@.len(),
            final(f).blocks@[index as int].terminator.is_none(),
            forall|j: int| 0 <= j < old(f).blocks@.len() ==> #[trigger] final(f).blocks@[j] == old(f).blocks@[j],
            crate::mir::function::same_outline(*old(f), *final(f)),
    {
        let index = f.blocks.len();
        let block = MirBasicBlock::new(id);
        proof {
            assert(block.instructions@.map_values(|i: MirInstruction| instr_view(i)) =~= Seq::<InstrView>::empty());
            assert(block.successors@ =~= Seq::<MirBlockId>::empty());
            assert(block.predecessors@ =~= Seq::<MirBlockId>::empty());
            assert(block_view(block) == empty_block(id, false, false));
        }
        f.add_block(block);
        proof {
            let want = push_block(old(self).lowering(*old(f)), id);
            assert(body_view(*f).blocks =~= want.0.body.blocks);
            assert(body_view(*f).values =~= want.0.body.values);
        }
        index
    }
}

impl MirBuilder {
    /// Lowers an expression whose value is not wanted.
    fn lower_effect(&mut self, e: &HirExpression, f: &mut MirFunction, index: usize) -> (r: Result<(), MirError>)
        requires
            old(self).counts_values(*old(f)),
            index < old(f).blocks@.len(),
            old(f).blocks@[index as int].terminator.is_none(),
        ensures
            (final(self).lowering(*final(f)), lowered(r)) == lower_effect(*e, old(self).lowering(*old(f)), index),
            final(self).counts_values(*final(f)),
            final(self).keeps_scope(*old(self)),
            final(f).blocks@.len() == old(f).blocks@.len(),
            final(f).blocks@[index as int].terminator.is_none(),
            crate::mir::function::same_outline(*old(f), *final(f)),
            lowering_error(r),
    {
        match &e.kind {
            HirExpressionKind::FunctionCall { .. } => match self.lower_function_call(e, false, f, index) {
                Ok(_) => Ok(()),
                Err(err) => Err(err),
            },
            HirExpressionKind::BuiltinCall { .. } => match self.lower_builtin_call(e, false, f, index) {
                Ok(_) => Ok(()),
                Err(err) => Err(err),
            },
            _ => match self.lower_expression(e, f, index) {
                Ok(_) => Ok(()),
                Err(err) => Err(err),
            },
        }
    }

    /// Stores `value` into an assignment target.
    fn lower_target(&mut self, t: &HirExpression, value: MirValueId, span: SourceSpan, f: &mut MirFunction, index: usize) -> (r: Result<(), MirError>)
        requires
            old(self).counts_values(*old(f)),
            index < old(f).blocks@.len(),
            old(f).blocks@[index as int].terminator.is_none(),
        ensures
            (final(self).lowering(*final(f)), lowered(r)) == lower_target(*t, value, span, old(self).lowering(*old(f)), index),
            final(self).counts_values(*final(f)),
            final(self).keeps_scope(*old(self)),
            final(f).blocks@.len() == old(f).blocks@.len(),
            final(f).blocks@[index as int].terminator.is_none(),
            crate::mir::function::same_outline(*old(f), *final(f)),
            lowering_error(r),
    {
        match &t.kind {
            HirExpressionKind::LocalVariable(v) => {
                let name = self.local_slot_name(*v);
                append(f, index, MirInstructionKind::Store { name, value }, None, Some(span));
                Ok(())
            },
            HirExpressionKind::GlobalVariable(name) => {
                let symbol = match t.symbol_id {
                    Some(s) => Some(s.0),
                    None => None,
                };
                let slot = global_slot_name(name.as_str(), symbol);
                append(f, index, MirInstructionKind::Store { name: slot, value }, None, Some(span));
                Ok(())
            },
            HirExpressionKind::Index { object, index: key } => {
                let tb = match self.lower_expression(object, f, index) {
                    Ok(v) => v,
                    Err(err) => return Err(err),
                };
                let k = match self.lower_expression(key, f, index) {
                    Ok(v) => v,
                    Err(err) => return Err(err),
                };
                append(f, index, MirInstructionKind::TableSet { table: tb, key: k, value }, None, Some(span));
                Ok(())
            },
            HirExpressionKind::FieldAccess { object, field } => {
                let tb = match self.lower_expression(object, f, index) {
                    Ok(v) => v,
                    Err(err) => return Err(err),
                };
                let k = self.emit_const(f, index, MirValue::String(to_owned_string(field.as_str())), MirType::String, span);
                append(f, index, MirInstructionKind::TableSet { table: tb, key: k, value }, None, Some(span));
                Ok(())
            },
            _ => Err(MirError::LoweringError(span_message("invalid assignment target reached MIR lowering at ", t.span))),
        }
    }

    /// Lowers the target-value pairs of an assignment in order.
    fn lower_assignment(
        &mut self,
        targets: &Vec<HirExpression>,
        values: &Vec<HirExpression>,
        span: SourceSpan,
        f: &mut MirFunction,
        index: usize,
    ) -> (r: Result<(), MirError>)
        requires
            old(self).counts_values(*old(f)),
            index < old(f).blocks@.len(),
            old(f).blocks@[index as int].terminator.is_none(),
        ensures
            (final(self).lowering(*final(f)), lowered(r)) == lower_assignments(
                targets@,
                values@,
                pair_count(targets@.len(), values@.len()),
                span,
                old(self).lowering(*old(f)),
                index,
            ),
            final(self).counts_values(*final(f)),
            final(self).keeps_scope(*old(self)),
            final(f).blocks@.len() == old(f).blocks@.len(),
            final(f).blocks@[index as int].terminator.is_none(),
            crate::mir::function::same_outline(*old(f), *final(f)),
            lowering_error(r),
    {
        let ghost st0 = self.lowering(*f);
        let n = if targets.len() <= values.len() {
            targets.len()
        } else {
            values.len()
        };
        let mut k: usize = 0;
        while k < n
            invariant
                k <= n,
                n == pair_count(targets@.len(), values@.len()),
                lower_assignments(targets@, values@, k as nat, span, st0, index).0 == self.lowering(*f),
                lower_assignments(targets@, values@, k as nat, span, st0, index).1 == Ok::<(), Seq<char>>(()),
                st0 == old(self).lowering(*old(f)),
                self.counts_values(*f),
                self.keeps_scope(*old(self)),
                f.blocks@.len() == old(f).blocks@.len(),
                index < f.blocks@.len(),
                f.blocks@[index as int].terminator.is_none(),
                crate::mir::function::same_outline(*old(f), *f),
            decreases n - k,
        {
            let v = match self.lower_expression(&values[k], f, index) {
                Ok(v) => v,
                Err(err) => {
                    proof {
                        lemma_assignments_stop(targets@, values@, (k + 1) as nat, n as nat, span, st0, index);
                    }
                    return Err(err);
                },
            };
            match self.lower_target(&targets[k], v, span, f, index) {
                Ok(()) => {},
                Err(err) => {
                    proof {
                        lemma_assignments_stop(targets@, values@, (k + 1) as nat, n as nat, span, st0, index);
                    }
                    return Err(err);
                },
            }
            k = k + 1;
        }
        Ok(())
    }

    /// Stores the returned value into the result slot, if there are both,
    /// then jumps to the exit block.
    fn return_to_exit(&mut self, f: &mut MirFunction, index: usize, value: Option<MirValueId>, span: SourceSpan) -> (r: Result<usize, MirError>)
        requires
            old(self).counts_values(*old(f)),
            index < old(f).blocks@.len(),
            old(f).blocks@[index as int].terminator.is_none(),
        ensures
            (final(self).lowering(*final(f)), lowered(r)) == return_to_exit(old(self).lowering(*old(f)), index, value, span),
            final(self).counts_values(*final(f)),
            *final(self) == *old(self),
            final(f).blocks@.len() == old(f).blocks@.len(),
            crate::mir::function::same_outline(*old(f), *final(f)),
            lowering_error(r),
            r matches Ok(b) ==> b == index,
    {
        match (&self.active_return_slot, value) {
            (Some(slot), Some(v)) => {
                append(f, index, MirInstructionKind::Store { name: to_owned_string(slot.as_str()), value: v }, None, Some(span));
            },
            _ => {},
        }
        match self.active_exit_block {
            Some(x) => {
                append(f, index, MirInstructionKind::Jump { target: x }, None, Some(span));
                Ok(index)
            },
            None => Err(MirError::LoweringError(to_owned_string("return lowered without an active exit block"))),
        }
    }
}

impl MirBuilder {
    /// Lowers a statement that starts in the block at `index`; gives back the
    /// block where lowering goes on.
    #[verifier::spinoff_prover]
    #[verifier::rlimit(40)]
    fn lower_statement(&mut self, s: &HirStatement, f: &mut MirFunction, index: usize) -> (r: Result<usize, MirError>)
        requires
            old(self).counts_values(*old(f)),
            index < old(f).blocks@.len(),
            old(f).blocks@[index as int].terminator.is_none(),
        ensures
            (final(self).lowering(*final(f)), lowered(r)) == lower_stmt(*s, old(self).lowering(*old(f)), index),
            final(self).counts_values(*final(f)),
            final(self).keeps_function(*old(self)),
            final(f).blocks@.len() >= old(f).blocks@.len(),
            r matches Ok(b) ==> b < final(f).blocks@.len(),
            crate::mir::function::same_outline(*old(f), *final(f)),
            lowering_error(r),
        decreases s, 1nat,
    {
        match &s.kind {
            HirStatementKind::LocalVariable { variable, initializer } => {
                self.variable_symbols.push((variable.id, variable.symbol_id.0));
                proof {
                    assert(self.lowering(*f) == (Lowering {
                        state: BuildState { vars: old(self).state().vars.push((variable.id, variable.symbol_id.0)), ..old(self).state() },
                        ..old(self).lowering(*old(f))
                    }));
                }
                match initializer {
                    Some(init) => {
                        let v = match self.lower_expression(init, f, index) {
                            Ok(v) => v,
                            Err(err) => return Err(err),
                        };
                        let name = local_symbol_slot_name(variable.symbol_id.0);
                        append(f, index, MirInstructionKind::Store { name, value: v }, None, Some(s.span));
                        Ok(index)
                    },
                    None => Ok(index),
                }
            },
            HirStatementKind::Assignment { targets, values } => match self.lower_assignment(targets, values, s.span, f, index) {
                Ok(()) => Ok(index),
                Err(err) => Err(err),
            },
            HirStatementKind::Expression(e) => match self.lower_effect(e, f, index) {
                Ok(()) => Ok(index),
                Err(err) => Err(err),
            },
            HirStatementKind::Return(es) => {
                let rv = match es {
                    Some(v) => if v.len() > 0 {
                        match self.lower_expression(&v[0], f, index) {
                            Ok(x) => Some(x),
                            Err(err) => return Err(err),
                        }
                    } else {
                        None
                    },
                    None => None,
                };
                self.return_to_exit(f, index, rv, s.span)
            },
            HirStatementKind::Block(statements) => self.lower_statement_block(statements, f, index),
            HirStatementKind::If { .. } => self.lower_if_statement(s, f, index),
            HirStatementKind::While { .. } => self.lower_while_statement(s, f, index),
            HirStatementKind::Function { .. } => Ok(index),
            HirStatementKind::Error => Err(MirError::LoweringError(to_owned_string("invalid HIR statement reached MIR lowering"))),
            _ => Err(MirError::LoweringError(span_message("unsupported HIR control-flow node during MIR lowering at ", s.span))),
        }
    }

    /// Lowers an `if` statement that starts in the block at `index`.
    #[verifier::spinoff_prover]
    #[verifier::rlimit(40)]
    fn lower_if_statement(&mut self, s: &HirStatement, f: &mut MirFunction, index: usize) -> (r: Result<usize, MirError>)
        requires
            old(self).counts_values(*old(f)),
            index < old(f).blocks@.len(),
            old(f).blocks@[index as int].terminator.is_none(),
        ensures
            (final(self).lowering(*final(f)), lowered(r)) == lower_if(*s, old(self).lowering(*old(f)), index),
            final(self).counts_values(*final(f)),
            final(self).keeps_function(*old(self)),
            final(f).blocks@.len() >= old(f).blocks@.len(),
            r matches Ok(b) ==> b < final(f).blocks@.len(),
            crate::mir::function::same_outline(*old(f), *final(f)),
            lowering_error(r),
        decreases s, 0nat,
    {
        if let HirStatementKind::If { condition, then_block, else_block } = &s.kind {
            let c = match self.lower_expression(condition, f, index) {
                Ok(c) => c,
                Err(err) => return Err(err),
            };
            let ghost s1 = self.lowering(*f);
            let then_id = self.new_block_id();
            let else_id = self.new_block_id();
            let merge_id = self.new_block_id();
            let ghost s4 = self.lowering(*f);
            proof {
                let (a2, b2) = new_block_id(s1);
                let (a3, b3) = new_block_id(a2);
                let (a4, b4) = new_block_id(a3);
                assert(a4.state =~= s4.state);
                assert(s4 == a4);
                assert(b2 == then_id && b3 == else_id && b4 == merge_id);
            }
            append(f, index, MirInstructionKind::Branch { condition: c, true_block: then_id, false_block: else_id }, None, Some(s.span));
            let then_index = self.push_block(f, then_id);
            let then_end = match self.lower_statement_block(then_block, f, then_index) {
                Ok(b) => b,
                Err(err) => return Err(err),
            };
            let ghost s7 = self.lowering(*f);
            let then_falls = !f.is_block_terminated(then_end);
            assert(then_falls == !terminated(s7, then_end));
            if then_falls {
                append(f, then_end, MirInstructionKind::Jump { target: merge_id }, None, Some(s.span));
            }
            let else_index = self.push_block(f, else_id);
            let else_end = match else_block {
                Some(other) => match self.lower_statement_block(other, f, else_index) {
                    Ok(b) => b,
                    Err(err) => return Err(err),
                },
                None => else_index,
            };
            let ghost s10 = self.lowering(*f);
            let else_falls = !f.is_block_terminated(else_end);
            assert(else_falls == !terminated(s10, else_end));
            if else_falls {
                append(f, else_end, MirInstructionKind::Jump { target: merge_id }, None, Some(s.span));
            }
            if then_falls || else_falls {
                Ok(self.push_block(f, merge_id))
            } else {
                Ok(then_end)
            }
        } else {
            Ok(index)
        }
    }

    /// Lowers a `while` statement that starts in the block at `index`.
    #[verifier::spinoff_prover]
    #[verifier::rlimit(40)]
    fn lower_while_statement(&mut self, s: &HirStatement, f: &mut MirFunction, index: usize) -> (r: Result<usize, MirError>)
        requires
            old(self).counts_values(*old(f)),
            index < old(f).blocks@.len(),
            old(f).blocks@[index as int].terminator.is_none(),
        ensures
            (final(self).lowering(*final(f)), lowered(r)) == lower_while(*s, old(self).lowering(*old(f)), index),
            final(self).counts_values(*final(f)),
            final(self).keeps_function(*old(self)),
            final(f).blocks@.len() >= old(f).blocks@.len(),
            r matches Ok(b) ==> b < final(f).blocks@.len(),
            crate::mir::function::same_outline(*old(f), *final(f)),
            lowering_error(r),
        decreases s, 0nat,
    {
        if let HirStatementKind::While { condition, body } = &s.kind {
            let ghost s0 = self.lowering(*f);
            let cond_id = self.new_block_id();
            let body_id = self.new_block_id();
            let exit_id = self.new_block_id();
            let ghost s3 = self.lowering(*f);
            proof {
                let (a1, b1) = new_block_id(s0);
                let (a2, b2) = new_block_id(a1);
                let (a3, b3) = new_block_id(a2);
                assert(a3.state =~= s3.state);
                assert(s3 == a3);
                assert(b1 == cond_id && b2 == body_id && b3 == exit_id);
            }
            append(f, index, MirInstructionKind::Jump { target: cond_id }, None, Some(s.span));
            let cond_index = self.push_block(f, cond_id);
            let c = match self.lower_expression(condition, f, cond_index) {
                Ok(c) => c,
                Err(err) => return Err(err),
            };
            append(f, cond_index, MirInstructionKind::Branch { condition: c, true_block: body_id, false_block: exit_id }, None, Some(s.span));
            let body_index = self.push_block(f, body_id);
            let body_end = match self.lower_statement_block(body, f, body_index) {
                Ok(b) => b,
                Err(err) => return Err(err),
            };
            let ghost s9 = self.lowering(*f);
            let open = !f.is_block_terminated(body_end);
            assert(open == !terminated(s9, body_end));
            if open {
                append(f, body_end, MirInstructionKind::Jump { target: cond_id }, None, Some(s.span));
            }
            Ok(self.push_block(f, exit_id))
        } else {
            Ok(index)
        }
    }

    /// Lowers statements one after another from the block at `index`,
    /// skipping those after the current block has its terminator.
    fn lower_statement_block(&mut self, ss: &Vec<HirStatement>, f: &mut MirFunction, index: usize) -> (r: Result<usize, MirError>)
        requires
            old(self).counts_values(*old(f)),
            index < old(f).blocks@.len(),
        ensures
            (final(self).lowering(*final(f)), lowered(r)) == lower_block(ss@, old(self).lowering(*old(f)), index),
            final(self).counts_values(*final(f)),
            final(self).keeps_function(*old(self)),
            final(f).blocks@.len() >= old(f).blocks@.len(),
            r matches Ok(b) ==> b < final(f).blocks@.len(),
            crate::mir::function::same_outline(*old(f), *final(f)),
            lowering_error(r),
        decreases ss, 0nat,
    {
        let ghost st0 = self.lowering(*f);
        let mut b = index;
        let mut i: usize = 0;
        while i < ss.len()
            invariant
                i <= ss@.len(),
                lower_block(ss@.subrange(0, i as int), st0, index).0 == self.lowering(*f),
                lower_block(ss@.subrange(0, i as int), st0, index).1 == Ok::<usize, Seq<char>>(b),
                b < f.blocks@.len(),
                st0 == old(self).lowering(*old(f)),
                self.counts_values(*f),
                self.keeps_function(*old(self)),
                f.blocks@.len() >= old(f).blocks@.len(),
                crate::mir::function::same_outline(*old(f), *f),
            decreases ss.len() - i,
        {
            if f.is_block_terminated(b) {
                proof {
                    lemma_block_stops(ss@, i as int, st0, index);
                }
                return Ok(b);
            }
            proof {
                assert(ss@.subrange(0, i + 1).drop_last() =~= ss@.subrange(0, i as int));
                assert(ss@.subrange(0, i + 1).last() == ss@[i as int]);
            }
            match self.lower_statement(&ss[i], f, b) {
                Ok(next) => {
                    b = next;
                },
                Err(err) => {
                    proof {
                        lemma_block_stops(ss@, i + 1, st0, index);
                    }
                    return Err(err);
                },
            }
            i = i + 1;
        }
        assert(ss@.subrange(0, ss@.len() as int) =~= ss@);
        Ok(b)
    }
}

proof fn lemma_add_local_view(before: Seq<MirLocal>, after: Seq<MirLocal>, l: MirLocal)
    requires
        (exists|i: int| 0 <= i < before.len() && #[trigger] before[i].storage@ == l.storage@) ==> after == before,
        !(exists|i: int| 0 <= i < before.len() && #[trigger] before[i].storage@ == l.storage@) ==> after == before.push(l),
    ensures
        after.map_values(|x: MirLocal| local_view(x)) == add_local(before.map_values(|x: MirLocal| local_view(x)), local_view(l)),
{
    let bv = before.map_values(|x: MirLocal| local_view(x));
    if exists|i: int| 0 <= i < before.len() && #[trigger] before[i].storage@ == l.storage@ {
        let i = choose|i: int| 0 <= i < before.len() && #[trigger] before[i].storage@ == l.storage@;
        assert(bv[i].storage == local_view(l).storage);
    } else {
        assert forall|i: int| 0 <= i < bv.len() implies #[trigger] bv[i].storage != local_view(l).storage by {
            assert(bv[i] == local_view(before[i]));
        }
        assert(after.map_values(|x: MirLocal| local_view(x)) =~= bv.push(local_view(l)));
    }
}

proof fn lemma_first_return_prefix(ss: Seq<HirStatement>, n: int)
    requires
        0 <= n <= ss.len(),
        first_return_type(ss.subrange(0, n)).is_some(),
    ensures
        first_return_type(ss) == first_return_type(ss.subrange(0, n)),
    decreases ss.len() - n,
{
    if n < ss.len() {
        assert(ss.subrange(0, n + 1).drop_last() =~= ss.subrange(0, n));
        lemma_first_return_prefix(ss, n + 1);
    } else {
        assert(ss.subrange(0, n) =~= ss);
    }
}

/// The type of the first value returned by a statement.
fn stmt_return_type_of(s: &HirStatement) -> (result: Option<HirType>)
    ensures
        result == stmt_return_type(*s),
    decreases s, 1nat,
{
    match &s.kind {
        HirStatementKind::Return(Some(values)) => if values.len() > 0 {
            values[0].expr_type
        } else {
            None
        },
        HirStatementKind::Block(statements) => first_return_type_of(statements),
        HirStatementKind::If { then_block, else_block, .. } => match first_return_type_of(then_block) {
            Some(t) => Some(t),
            None => match else_block {
                Some(other) => first_return_type_of(other),
                None => None,
            },
        },
        _ => None,
    }
}

/// The type of the first returned value of statements, in order.
fn first_return_type_of(ss: &Vec<HirStatement>) -> (result: Option<HirType>)
    ensures
        result == first_return_type(ss@),
    decreases ss, 0nat,
{
    let mut i: usize = 0;
    while i < ss.len()
        invariant
            i <= ss@.len(),
            first_return_type(ss@.subrange(0, i as int)).is_none(),
        decreases ss.len() - i,
    {
        proof {
            assert(ss@.subrange(0, i + 1).drop_last() =~= ss@.subrange(0, i as int));
            assert(ss@.subrange(0, i + 1).last() == ss@[i as int]);
        }
        match stmt_return_type_of(&ss[i]) {
            Some(t) => {
                proof {
                    lemma_first_return_prefix(ss@, i + 1);
                }
                return Some(t);
            },
            None => {},
        }
        i = i + 1;
    }
    assert(ss@.subrange(0, ss@.len() as int) =~= ss@);
    None
}

/// Appends a fresh block and gives its index.
fn add_fresh_block(f: &mut MirFunction, id: MirBlockId, is_entry: bool, is_exit: bool) -> (index: usize)
    requires
        !(is_entry && is_exit),
    ensures
        body_view(*final(f)) == (BodyView { blocks: body_view(*old(f)).blocks.push(empty_block(id, is_entry, is_exit)), ..body_view(*old(f)) }),
        index == old(f).blocks@.len(),
        final(f).blocks@.len() == old(f).blocks@.len() + 1,
        final(f).blocks@[index as int].terminator.is_none(),
        final(f).values == old(f).values,
        crate::mir::function::same_outline(*old(f), *final(f)),
{
    let index = f.blocks.len();
    let block = if is_entry {
        MirBasicBlock::with_entry(id)
    } else if is_exit {
        MirBasicBlock::with_exit(id)
    } else {
        MirBasicBlock::new(id)
    };
    proof {
        assert(block.instructions@.map_values(|i: MirInstruction| instr_view(i)) =~= Seq::<InstrView>::empty());
        assert(block.successors@ =~= Seq::<MirBlockId>::empty());
        assert(block.predecessors@ =~= Seq::<MirBlockId>::empty());
        assert(block_view(block) == empty_block(id, is_entry, is_exit));
    }
    f.add_block(block);
    proof {
        assert(body_view(*f).blocks =~= body_view(*old(f)).blocks.push(empty_block(id, is_entry, is_exit)));
        assert(body_view(*f).values =~= body_view(*old(f)).values);
    }
    index
}

/// Whether everything but the values, parameters and local slots is as in
/// `b`.
pub open spec fn same_shell(a: MirFunction, b: MirFunction) -> bool {
    &&& a.id == b.id
    &&& a.name == b.name
    &&& a.return_type == b.return_type
    &&& a.entry_block == b.entry_block
    &&& a.exit_blocks == b.exit_blocks
    &&& a.metadata == b.metadata
    &&& a.blocks == b.blocks
}

impl MirBuilder {
    /// Registers the parameters of a function.
    fn register_parameters(&mut self, ps: &Vec<crate::hir::function::HirParameter>, f: &mut MirFunction)
        requires
            old(self).counts_values(*old(f)),
        ensures
            (head_view(*final(f)), final(self).lowering(*final(f))) == register_params(ps@, head_view(*old(f)), old(self).lowering(*old(f))),
            final(self).counts_values(*final(f)),
            final(self).keeps_function(*old(self)),
            final(self).block_counter == old(self).block_counter,
            same_shell(*final(f), *old(f)),
    {
        let ghost h0 = head_view(*f);
        let ghost s0 = self.lowering(*f);
        let mut i: usize = 0;
        while i < ps.len()
            invariant
                i <= ps@.len(),
                (head_view(*f), self.lowering(*f)) == register_params(ps@.subrange(0, i as int), h0, s0),
                h0 == head_view(*old(f)),
                s0 == old(self).lowering(*old(f)),
                self.counts_values(*f),
                self.keeps_function(*old(self)),
                self.block_counter == old(self).block_counter,
                same_shell(*f, *old(f)),
            decreases ps.len() - i,
        {
            let ghost hp = head_view(*f);
            let p = &ps[i];
            let symbol = p.symbol_id.0;
            self.variable_symbols.push((p.id, symbol));
            let t = match p.param_type {
                Some(h) => lower_hir_type(h),
                None => MirType::Any,
            };
            let position = f.parameter_data.len();
            let kind = MirValueKind::Parameter { index: position, storage: local_symbol_slot_name(symbol), symbol_id: Some(symbol) };
            let v = self.new_value(f, kind, t, Some(p.span));
            let parameter = MirParameter {
                name: to_owned_string(p.name.as_str()),
                storage: local_symbol_slot_name(symbol),
                value_id: v,
                value_type: t,
                symbol_id: Some(symbol),
                span: Some(p.span),
            };
            let ghost pv = param_view(parameter);
            let ghost before_parameters = f.parameters@;
            let ghost before_data = f.parameter_data@;
            f.add_parameter(parameter);
            let ghost before_locals = f.locals@;
            let local = MirLocal { storage: local_symbol_slot_name(symbol), value_id: v, value_type: t, symbol_id: Some(symbol), span: Some(p.span) };
            let ghost lv = local;
            f.add_local(local);
            proof {
                lemma_add_local_view(before_locals, f.locals@, lv);
                assert(f.parameters@ =~= before_parameters.push(f.parameters@.last()));
                assert(f.parameters@.map_values(|x: String| x@) =~= hp.parameters.push(local_symbol_slot(symbol)));
                assert(f.parameter_data@.map_values(|x: MirParameter| param_view(x)) =~= hp.params.push(pv));
                assert(ps@.subrange(0, i + 1).drop_last() =~= ps@.subrange(0, i as int));
                assert(ps@.subrange(0, i + 1).last() == ps@[i as int]);
                let want = register_params(ps@.subrange(0, i + 1), h0, s0);
                assert(head_view(*f) =~= want.0);
                assert(self.state().vars =~= want.1.state.vars);
                assert(self.lowering(*f) =~= want.1);
            }
            i = i + 1;
        }
        assert(ps@.subrange(0, ps@.len() as int) =~= ps@);
    }

    /// Registers the local variables of a function.
    fn register_local_variables(&mut self, vs: &Vec<HirLocalVariable>, f: &mut MirFunction)
        requires
            old(self).counts_values(*old(f)),
        ensures
            (head_view(*final(f)), final(self).lowering(*final(f))) == register_locals(vs@, head_view(*old(f)), old(self).lowering(*old(f))),
            final(self).counts_values(*final(f)),
            final(self).keeps_function(*old(self)),
            final(self).block_counter == old(self).block_counter,
            same_shell(*final(f), *old(f)),
    {
        let ghost h0 = head_view(*f);
        let ghost s0 = self.lowering(*f);
        let mut i: usize = 0;
        while i < vs.len()
            invariant
                i <= vs@.len(),
                (head_view(*f), self.lowering(*f)) == register_locals(vs@.subrange(0, i as int), h0, s0),
                h0 == head_view(*old(f)),
                s0 == old(self).lowering(*old(f)),
                self.counts_values(*f),
                self.keeps_function(*old(self)),
                self.block_counter == old(self).block_counter,
                same_shell(*f, *old(f)),
            decreases vs.len() - i,
        {
            let ghost hp = head_view(*f);
            let l = &vs[i];
            let symbol = l.symbol_id.0;
            self.variable_symbols.push((l.id, symbol));
            let t = match l.var_type {
                Some(h) => lower_hir_type(h),
                None => MirType::Any,
            };
            let kind = MirValueKind::Local { storage: local_symbol_slot_name(symbol), symbol_id: Some(symbol) };
            let v = self.new_value(f, kind, t, Some(l.span));
            let ghost before_locals = f.locals@;
            let local = MirLocal { storage: local_symbol_slot_name(symbol), value_id: v, value_type: t, symbol_id: Some(symbol), span: Some(l.span) };
            let ghost lv = local;
            f.add_local(local);
            proof {
                lemma_add_local_view(before_locals, f.locals@, lv);
                assert(vs@.subrange(0, i + 1).drop_last() =~= vs@.subrange(0, i as int));
                assert(vs@.subrange(0, i + 1).last() == vs@[i as int]);
                let want = register_locals(vs@.subrange(0, i + 1), h0, s0);
                assert(head_view(*f) =~= want.0);
                assert(self.state().vars =~= want.1.state.vars);
                assert(self.lowering(*f) =~= want.1);
            }
            i = i + 1;
        }
        assert(vs@.subrange(0, vs@.len() as int) =~= vs@);
    }
}

impl MirBuilder {
    /// Allocates every local slot at the start of the entry block.
    fn allocate_locals(&mut self, f: &mut MirFunction)
        requires
            old(f).blocks@.len() > 0,
            old(f).blocks@[0].terminator.is_none(),
        ensures
            final(self).lowering(*final(f)) == allocate_locals(head_view(*old(f)).locals, old(self).lowering(*old(f))),
            *final(self) == *old(self),
            final(f).values == old(f).values,
            final(f).blocks@.len() == old(f).blocks@.len(),
            final(f).blocks@[0].terminator.is_none(),
            crate::mir::function::same_outline(*old(f), *final(f)),
    {
        let ghost ls = head_view(*f).locals;
        let ghost s0 = self.lowering(*f);
        let mut k: usize = 0;
        while k < f.locals.len()
            invariant
                k <= f.locals@.len(),
                ls == head_view(*f).locals,
                ls == head_view(*old(f)).locals,
                s0 == old(self).lowering(*old(f)),
                self.lowering(*f) == allocate_locals(ls.subrange(0, k as int), s0),
                *self == *old(self),
                f.values == old(f).values,
                f.blocks@.len() == old(f).blocks@.len(),
                f.blocks@.len() > 0,
                f.blocks@[0].terminator.is_none(),
                crate::mir::function::same_outline(*old(f), *f),
            decreases f.locals.len() - k,
        {
            let id = f.locals[k].value_id;
            let name = to_owned_string(f.locals[k].storage.as_str());
            let span = f.locals[k].span;
            proof {
                assert(ls[k as int] == local_view(f.locals@[k as int]));
                assert(ls.subrange(0, k + 1).drop_last() =~= ls.subrange(0, k as int));
                assert(ls.subrange(0, k + 1).last() == ls[k as int]);
            }
            append(f, 0, MirInstructionKind::AllocateLocal { local: id, name }, None, span);
            k = k + 1;
        }
        assert(ls.subrange(0, ls.len() as int) =~= ls);
    }

    /// The result type of a lowered function.
    fn infer_function_return_type(&self, h: &HirFunction) -> (result: MirType)
        ensures
            result == return_type_of(*h),
    {
        match h.return_type {
            Some(t) => lower_hir_type(t),
            None => match first_return_type_of(&h.body) {
                Some(t) => lower_hir_type(t),
                None => MirType::Void,
            },
        }
    }

    /// Lowers a function; see `lower_fn`.
    #[verifier::spinoff_prover]
    #[verifier::rlimit(60)]
    fn lower_function(&mut self, h: &HirFunction) -> (r: Result<MirFunction, MirError>)
        ensures
            final(self).state() == lower_fn(*h, old(self).state()).0,
            match r {
                Ok(f) => lower_fn(*h, old(self).state()).1 matches Ok(m) && function_matches(f, m),
                Err(e) => lower_fn(*h, old(self).state()).1 == Err::<FunctionModel, Seq<char>>(error_detail(e)) && e is LoweringError,
            },
    {
        let ghost st = self.state();
        let ghost h0 = HeadView { parameters: seq![], params: seq![], locals: seq![] };
        self.value_counter = 0;
        self.variable_symbols = Vec::new();
        let function_id = MirFunctionId::new(self.function_counter);
        self.function_counter = self.function_counter.saturating_add(1);
        let mut f = MirFunction::new(function_id, to_owned_string(h.name.as_str()));
        let rtype = self.infer_function_return_type(h);
        f.return_type = Some(rtype);
        f.metadata.span = Some(h.span);
        f.metadata.has_explicit_return = h.metadata.has_explicit_return;
        let ghost s0 = self.lowering(f);
        proof {
            assert(head_view(f) =~= h0);
            let want = Lowering {
                state: BuildState { values: 0, functions: sat_next(st.functions), vars: seq![], ..st },
                body: BodyView { values: seq![], blocks: seq![] },
            };
            assert(s0.state =~= want.state);
            assert(s0.body.values =~= want.body.values);
            assert(s0.body.blocks =~= want.body.blocks);
            assert(s0 =~= want);
        }
        self.register_parameters(&h.parameters, &mut f);
        self.register_local_variables(&h.local_variables, &mut f);
        let ghost s2 = self.lowering(f);
        let ghost h2 = head_view(f);
        let previous_exit = self.active_exit_block;
        let previous_slot = match &self.active_return_slot {
            Some(text) => Some(to_owned_string(text.as_str())),
            None => None,
        };
        let exit_id = self.new_block_id();
        self.active_exit_block = Some(exit_id);
        if rtype != MirType::Void {
            let kind = MirValueKind::Local { storage: to_owned_string("local_return"), symbol_id: None };
            let v = self.new_value(&mut f, kind, rtype, Some(h.span));
            let ghost before_locals = f.locals@;
            let local = MirLocal { storage: to_owned_string("local_return"), value_id: v, value_type: rtype, symbol_id: None, span: Some(h.span) };
            let ghost lv = local;
            f.add_local(local);
            proof {
                lemma_add_local_view(before_locals, f.locals@, lv);
            }
            self.active_return_slot = Some(to_owned_string("local_return"));
        } else {
            self.active_return_slot = None;
        }
        let ghost s5 = self.lowering(f);
        let ghost h5 = head_view(f);
        proof {
            let (a3, b3) = new_block_id(s2);
            let a4 = Lowering { state: BuildState { exit: Some(b3), ..a3.state }, ..a3 };
            assert(b3 == exit_id);
            if rtype != MirType::Void {
                let (sa, v) = new_value(a4, OriginView::Local("local_return"@, None), rtype, Some(h.span));
                assert(s5.state =~= (BuildState { slot: Some("local_return"@), ..sa.state }));
                assert(s5.body =~= sa.body);
                assert(h5 =~= (HeadView {
                    locals: add_local(h2.locals, LocalView { storage: "local_return"@, value_id: v, value_type: rtype, symbol_id: None, span: Some(h.span) }),
                    ..h2
                }));
            } else {
                assert(s5.state =~= (BuildState { slot: None, ..a4.state }));
                assert(s5.body =~= a4.body);
                assert(h5 =~= h2);
            }
        }
        let entry_id = self.new_block_id();
        f.entry_block = Some(0);
        let entry_index = add_fresh_block(&mut f, entry_id, true, false);
        let ghost s7 = self.lowering(f);
        proof {
            let (a6, b6) = new_block_id(s5);
            assert(b6 == entry_id);
            assert(s7.state =~= a6.state);
            assert(s7 =~= (Lowering { body: BodyView { blocks: a6.body.blocks.push(empty_block(entry_id, true, false)), ..a6.body }, ..a6 }));
            assert(head_view(f) == h5);
        }
        self.allocate_locals(&mut f);
        let current = match self.lower_statement_block(&h.body, &mut f, 0) {
            Ok(b) => b,
            Err(e) => return Err(e),
        };
        if !f.is_block_terminated(current) {
            append(&mut f, current, MirInstructionKind::Jump { target: exit_id }, None, Some(h.span));
        }
        let exit_index = add_fresh_block(&mut f, exit_id, false, true);
        let slot = match &self.active_return_slot {
            Some(text) => Some(to_owned_string(text.as_str())),
            None => None,
        };
        match slot {
            Some(name) => {
                let rv = self.new_value(&mut f, MirValueKind::Temporary, rtype, Some(h.span));
                let rt = self.value_type(&f, rv);
                append(&mut f, exit_index, MirInstructionKind::Load { result: rv, name }, rt, Some(h.span));
                append(&mut f, exit_index, MirInstructionKind::Return { value: Some(rv) }, Some(MirType::Void), Some(h.span));
            },
            None => {
                append(&mut f, exit_index, MirInstructionKind::Return { value: None }, Some(MirType::Void), Some(h.span));
            },
        }
        let ghost s12 = self.lowering(f);
        let exits = return_block_indices(&f);
        f.exit_blocks = exits;
        let ghost before_rebuild = f;
        f.rebuild_cfg();
        self.active_exit_block = previous_exit;
        self.active_return_slot = previous_slot;
        proof {
            assert(self.state() =~= (BuildState { exit: st.exit, slot: st.slot, ..s12.state }));
            assert(body_view(f).values =~= s12.body.values);
            let mb = s12.body.blocks;
            let ab = body_view(f).blocks;
            assert forall|i: int| 0 <= i < mb.len() implies (#[trigger] ab[i]) == (BlockView { predecessors: ab[i].predecessors, ..mb[i] }) by {
                assert(f.blocks@[i].instructions == before_rebuild.blocks@[i].instructions);
            }
            assert(head_view(f) == head_view(before_rebuild));
        }
        Ok(f)
    }
}

/// The indices of the blocks of `f` that end with a return.
fn return_block_indices(f: &MirFunction) -> (result: Vec<usize>)
    ensures
        result@ == return_indices(body_view(*f).blocks),
{
    let ghost bs = body_view(*f).blocks;
    let mut out: Vec<usize> = Vec::new();
    let mut i: usize = 0;
    while i < f.blocks.len()
        invariant
            i <= f.blocks@.len(),
            bs == body_view(*f).blocks,
            out@ == return_indices(bs.subrange(0, i as int)),
        decreases f.blocks.len() - i,
    {
        proof {
            assert(bs.subrange(0, i + 1).drop_last() =~= bs.subrange(0, i as int));
            assert(bs.subrange(0, i + 1).last() == bs[i as int]);
        }
        match f.blocks[i].terminator {
            Some(MirTerminator::Return { .. }) => {
                out.push(i);
            },
            _ => {},
        }
        i = i + 1;
    }
    assert(bs.subrange(0, bs.len() as int) =~= bs);
    out
}

/// The models of a successful lowering of functions; none otherwise.
pub open spec fn ok_models(r: Result<Seq<FunctionModel>, Seq<char>>) -> Seq<FunctionModel> {
    match r {
        Ok(models) => models,
        Err(_) => seq![],
    }
}

/// A module is the lowering of `hir`: its name, span and root scope, a
/// global per global variable, a constant per literal initializer, and the
/// lowered functions in order.
pub open spec fn module_matches(m: MirModule, hir: HirModule, models: Seq<FunctionModel>) -> bool {
    &&& m.name@ == hir.name@
    &&& m.metadata.span == Some(hir.span)
    &&& m.metadata.root_scope == match hir.metadata.root_scope {
        Some(s) => Some(s.0),
        None => None,
    }
    &&& m.globals@.map_values(|g: MirGlobal| global_view(g)) == Seq::new(
        hir.global_variables@.len(),
        |i: int| lowered_global(hir.global_variables@[i], i),
    )
    &&& m.constants@.map_values(|c: MirConstant| constant_view(c)) == global_constants(hir.global_variables@)
    &&& m.functions@.len() == models.len()
    &&& forall|i: int| 0 <= i < models.len() ==> function_matches(#[trigger] m.functions@[i], models[i])
}

proof fn lemma_fns_stop(fs: Seq<HirFunction>, i: int, st: BuildState)
    requires
        0 <= i <= fs.len(),
        lower_fns(fs.subrange(0, i), st).1 is Err,
    ensures
        lower_fns(fs, st) == lower_fns(fs.subrange(0, i), st),
    decreases fs.len() - i,
{
    if i < fs.len() {
        assert(fs.subrange(0, i + 1).drop_last() =~= fs.subrange(0, i));
        lemma_fns_stop(fs, i + 1, st);
    } else {
        assert(fs.subrange(0, i) =~= fs);
    }
}

/// The constant a literal initializer of a global becomes, if it is one.
fn literal_value(e: &HirExpression) -> (result: Option<(MirValue, MirType)>)
    ensures
        match result {
            Some((v, t)) => literal_const(*e) == Some((const_view(v), t)),
            None => literal_const(*e).is_none(),
        },
{
    match &e.kind {
        HirExpressionKind::Nil => Some((MirValue::Nil, MirType::Any)),
        HirExpressionKind::Boolean(b) => Some((MirValue::Boolean(*b), MirType::Boolean)),
        HirExpressionKind::Number(t) => Some(number_value(t)),
        HirExpressionKind::String(text) => Some((MirValue::String(to_owned_string(text.as_str())), MirType::String)),
        _ => None,
    }
}

impl MirBuilder {
    /// Lowers a module: a global for each global variable (with a constant
    /// for a literal initializer), then each function in order. The first
    /// function that cannot be lowered stops it with its error.
    pub fn build(&mut self, hir: &HirModule) -> (r: Result<MirModule, MirError>)
        ensures
            final(self).state() == lower_fns(hir.functions@, old(self).state()).0,
            match r {
                Ok(m) => lower_fns(hir.functions@, old(self).state()).1 is Ok && module_matches(
                    m,
                    *hir,
                    ok_models(lower_fns(hir.functions@, old(self).state()).1),
                ),
                Err(e) => lower_fns(hir.functions@, old(self).state()).1 == Err::<Seq<FunctionModel>, Seq<char>>(error_detail(e))
                    && e is LoweringError,
            },
    {
        let ghost st0 = self.state();
        let mut m = MirModule::new(to_owned_string(hir.name.as_str()));
        m.metadata.span = Some(hir.span);
        m.metadata.root_scope = match hir.metadata.root_scope {
            Some(s) => Some(s.0),
            None => None,
        };
        let ghost gs = hir.global_variables@;
        let ghost want_globals = Seq::new(gs.len(), |i: int| lowered_global(gs[i], i));
        let mut i: usize = 0;
        while i < hir.global_variables.len()
            invariant
                i <= gs.len(),
                gs == hir.global_variables@,
                want_globals == Seq::new(gs.len(), |i: int| lowered_global(gs[i], i)),
                m.globals@.map_values(|g: MirGlobal| global_view(g)) == want_globals.subrange(0, i as int),
                m.globals@.len() == i,
                m.constants@.map_values(|c: MirConstant| constant_view(c)) == global_constants(gs.subrange(0, i as int)),
                m.functions@.len() == 0,
                m.name@ == hir.name@,
                m.metadata.span == Some(hir.span),
                m.metadata.root_scope == match hir.metadata.root_scope {
                    Some(s) => Some(s.0),
                    None => None,
                },
            decreases gs.len() - i,
        {
            let g = &hir.global_variables[i];
            let t = match g.var_type {
                Some(h) => lower_hir_type(h),
                None => MirType::Any,
            };
            let value_id = MirValueId::new(m.globals.len());
            let mut storage = to_owned_string("global_symbol_");
            push_decimal(&mut storage, g.symbol_id.0);
            let global = MirGlobal {
                name: to_owned_string(g.name.as_str()),
                storage,
                value_id,
                value_type: t,
                symbol_id: Some(g.symbol_id.0),
                span: Some(g.span),
            };
            let ghost gv = global_view(global);
            let ghost prev_globals = m.globals@;
            let ghost prev_constants = m.constants@;
            m.add_global(global);
            proof {
                assert(prev_globals.len() == i);
                assert(gv == lowered_global(gs[i as int], i as int));
                assert(m.globals@.map_values(|g: MirGlobal| global_view(g)) =~= want_globals.subrange(0, i + 1));
                assert(gs.subrange(0, i + 1).drop_last() =~= gs.subrange(0, i as int));
                assert(gs.subrange(0, i + 1).last() == gs[i as int]);
            }
            match &g.initializer {
                Some(init) => match literal_value(init) {
                    Some((value, ct)) => {
                        let constant = MirConstant { value_id, value, value_type: ct, span: Some(g.span) };
                        let ghost cv = constant_view(constant);
                        m.add_constant(constant);
                        proof {
                            assert(m.constants@.map_values(|c: MirConstant| constant_view(c)) =~= prev_constants.map_values(
                                |c: MirConstant| constant_view(c),
                            ).push(cv));
                        }
                    },
                    None => {},
                },
                None => {},
            }
            i = i + 1;
        }
        proof {
            assert(want_globals.subrange(0, gs.len() as int) =~= want_globals);
            assert(gs.subrange(0, gs.len() as int) =~= gs);
        }
        let ghost fs = hir.functions@;
        let mut k: usize = 0;
        while k < hir.functions.len()
            invariant
                k <= fs.len(),
                fs == hir.functions@,
                st0 == old(self).state(),
                self.state() == lower_fns(fs.subrange(0, k as int), st0).0,
                lower_fns(fs.subrange(0, k as int), st0).1 is Ok,
                m.functions@.len() == k,
                forall|j: int| 0 <= j < k ==> function_matches(#[trigger] m.functions@[j], ok_models(lower_fns(fs.subrange(0, k as int), st0).1)[j]),
                ok_models(lower_fns(fs.subrange(0, k as int), st0).1).len() == k,
                m.globals@.map_values(|g: MirGlobal| global_view(g)) == want_globals,
                want_globals == Seq::new(gs.len(), |i: int| lowered_global(gs[i], i)),
                gs == hir.global_variables@,
                m.constants@.map_values(|c: MirConstant| constant_view(c)) == global_constants(gs),
                m.name@ == hir.name@,
                m.metadata.span == Some(hir.span),
                m.metadata.root_scope == match hir.metadata.root_scope {
                    Some(s) => Some(s.0),
                    None => None,
                },
            decreases fs.len() - k,
        {
            proof {
                assert(fs.subrange(0, k + 1).drop_last() =~= fs.subrange(0, k as int));
                assert(fs.subrange(0, k + 1).last() == fs[k as int]);
            }
            match self.lower_function(&hir.functions[k]) {
                Ok(f) => {
                    m.add_function(f);
                },
                Err(e) => {
                    proof {
                        let prev = lower_fns(fs.subrange(0, k as int), st0);
                        let step = lower_fn(fs[k as int], prev.0);
                        assert(step.1 == Err::<FunctionModel, Seq<char>>(error_detail(e)));
                        assert(lower_fns(fs.subrange(0, k + 1), st0) == (step.0, Err::<Seq<FunctionModel>, Seq<char>>(error_detail(e))));
                        lemma_fns_stop(fs, k + 1, st0);
                    }
                    return Err(e);
                },
            }
            k = k + 1;
        }
        proof {
            assert(fs.subrange(0, fs.len() as int) =~= fs);
        }
        Ok(m)
    }
}

impl MirBuilder {
    /// Appends a new empty block with the next block number; gives its index.
    pub fn create_block(&mut self, f: &mut MirFunction) -> (index: usize)
        ensures
            final(self).lowering(*final(f)) == push_block(
                new_block_id(old(self).lowering(*old(f))).0,
                new_block_id(old(self).lowering(*old(f))).1,
            ).0,
            index == old(f).blocks@.len(),
            crate::mir::function::same_outline(*old(f), *final(f)),
    {
        let ghost s0 = self.lowering(*f);
        let id = self.new_block_id();
        let index = add_fresh_block(f, id, false, false);
        proof {
            let (s1, b1) = new_block_id(s0);
            assert(b1 == id);
            assert(self.state() =~= s1.state);
            assert(self.lowering(*f) =~= push_block(s1, b1).0);
        }
        index
    }

    /// The index of the first block with id `id`.
    pub fn switch_block(&self, f: &MirFunction, id: MirBlockId) -> (r: Result<usize, MirError>)
        ensures
            match r {
                Ok(i) => i < f.blocks@.len() && f.blocks@[i as int].id == id && forall|j: int| 0 <= j < i ==> #[trigger] f.blocks@[j].id != id,
                Err(e) => (forall|j: int| 0 <= j < f.blocks@.len() ==> #[trigger] f.blocks@[j].id != id) && e is LoweringError
                    && error_detail(e) == "unknown MIR block "@ + decimal(id.0 as nat),
            },
    {
        let mut i: usize = 0;
        while i < f.blocks.len()
            invariant
                i <= f.blocks@.len(),
                forall|j: int| 0 <= j < i ==> #[trigger] f.blocks@[j].id != id,
            decreases f.blocks.len() - i,
        {
            if f.blocks[i].id == id {
                return Ok(i);
            }
            i = i + 1;
        }
        let mut message = to_owned_string("unknown MIR block ");
        push_decimal(&mut message, id.0);
        Err(MirError::LoweringError(message))
    }

    /// The last block without a terminator; when every block has one, the
    /// last block; none when there are no blocks.
    pub fn current_block(&self, f: &MirFunction) -> (r: Option<usize>)
        ensures
            match r {
                Some(i) => i < f.blocks@.len() && (forall|j: int| i < j < f.blocks@.len() ==> (#[trigger] f.blocks@[j]).terminator.is_some())
                    && (f.blocks@[i as int].terminator.is_none() || (i == f.blocks@.len() - 1 && forall|j: int|
                    0 <= j < f.blocks@.len() ==> (#[trigger] f.blocks@[j]).terminator.is_some())),
                None => f.blocks@.len() == 0,
            },
    {
        let mut i: usize = f.blocks.len();
        while i > 0
            invariant
                i <= f.blocks@.len(),
                forall|j: int| i <= j < f.blocks@.len() ==> (#[trigger] f.blocks@[j]).terminator.is_some(),
            decreases i,
        {
            if f.blocks[i - 1].terminator.is_none() {
                return Some(i - 1);
            }
            i = i - 1;
        }
        if f.blocks.len() > 0 {
            Some(f.blocks.len() - 1)
        } else {
            None
        }
    }

    /// Appends an instruction to the block at `block_index`, unless that
    /// block already has its terminator.
    pub fn append_instruction(&mut self, f: &mut MirFunction, block_index: usize, instruction: MirInstruction) -> (r: Result<(), MirError>)
        requires
            block_index < old(f).blocks@.len(),
        ensures
            *final(self) == *old(self),
            match r {
                Ok(()) => old(f).blocks@[block_index as int].terminator.is_none() && body_view(*final(f)) == emit_body(
                    body_view(*old(f)),
                    block_index,
                    instr_view(instruction),
                ) && crate::mir::function::same_outline(*old(f), *final(f)),
                Err(e) => old(f).blocks@[block_index as int].terminator.is_some() && *final(f) == *old(f) && e is LoweringError
                    && error_detail(e) == "attempted to emit instruction after terminator in block "@ + decimal(
                    old(f).blocks@[block_index as int].id.0 as nat,
                ),
            },
    {
        if f.is_block_terminated(block_index) {
            let mut message = to_owned_string("attempted to emit instruction after terminator in block ");
            push_decimal(&mut message, f.blocks[block_index].id.0);
            return Err(MirError::LoweringError(message));
        }
        append(f, block_index, instruction.kind, instruction.result_type, instruction.span);
        Ok(())
    }

    /// Appends an instruction meant to end the block at `block_index`,
    /// unless that block already has its terminator.
    pub fn append_terminator(&mut self, f: &mut MirFunction, block_index: usize, instruction: MirInstruction) -> (r: Result<(), MirError>)
        requires
            block_index < old(f).blocks@.len(),
        ensures
            *final(self) == *old(self),
            match r {
                Ok(()) => old(f).blocks@[block_index as int].terminator.is_none() && body_view(*final(f)) == emit_body(
                    body_view(*old(f)),
                    block_index,
                    instr_view(instruction),
                ) && crate::mir::function::same_outline(*old(f), *final(f)),
                Err(e) => old(f).blocks@[block_index as int].terminator.is_some() && *final(f) == *old(f) && e is LoweringError
                    && error_detail(e) == "block "@ + decimal(old(f).blocks@[block_index as int].id.0 as nat) + " already has a terminator"@,
            },
    {
        if f.is_block_terminated(block_index) {
            let mut message = to_owned_string("block ");
            push_decimal(&mut message, f.blocks[block_index].id.0);
            push_str(&mut message, " already has a terminator");
            return Err(MirError::LoweringError(message));
        }
        append(f, block_index, instruction.kind, instruction.result_type, instruction.span);
        Ok(())
    }

    /// Fills in every block's predecessors from the edges.
    pub fn connect_blocks(&self, f: &mut MirFunction)
        ensures
            crate::mir::function::predecessors_rebuilt(*old(f), *final(f)),
    {
        f.rebuild_cfg();
    }
}

impl Default for MirBuilder {
    fn default() -> (result: Self)
        ensures
            result.state() == (BuildState { values: 0, blocks: 0, functions: 0, vars: seq![], exit: None, slot: None }),
    {
        Self::new()
    }
}

} // verus!
