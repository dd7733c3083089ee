//! What the generated IR means: each comparison instruction is emitted with
//! the LLVM `icmp` predicate whose meaning, as the LLVM language reference
//! defines it on signed integers, is the comparison the instruction asks
//! for.
use vstd::prelude::*;

use crate::llvm::generator::{arith_text, binary_text, predicate_text, reg};
use crate::mir::fold_laws::{lemma_natural_division, truncated_division};
use crate::mir::instruction::MirInstructionKind;
use crate::mir::types::{MirCompareOperator, MirValueId};

verus! {

/// What the signed `icmp` predicate named `p` answers for the operands `x`
/// and `y`; no other text names a predicate.
pub open spec fn icmp_holds(p: Seq<char>, x: int, y: int) -> bool {
    if p == "eq"@ {
        x == y
    } else if p == "ne"@ {
        x != y
    } else if p == "slt"@ {
        x < y
    } else if p == "sle"@ {
        x <= y
    } else if p == "sgt"@ {
        x > y
    } else if p == "sge"@ {
        x >= y
    } else {
        false
    }
}

/// The operation text of an `icmp` on `i64` with the predicate `p`.
pub open spec fn icmp_text(p: Seq<char>) -> Seq<char> {
    "icmp "@ + p + " i64"@
}

/// `text` is the line `%result = icmp P i64 %left, %right` for a predicate
/// `P` that holds of two integers exactly when `rel` does.
pub open spec fn compares_as(
    text: Seq<char>,
    result: MirValueId,
    left: MirValueId,
    right: MirValueId,
    rel: spec_fn(int, int) -> bool,
) -> bool {
    exists|p: Seq<char>|
        #[trigger] icmp_text(p) == icmp_text(p) && text == binary_text(result, icmp_text(p), left, right) && forall|
            x: int,
            y: int,
        | #[trigger] icmp_holds(p, x, y) == rel(x, y)
}

/// The meanings of the six predicate names.
proof fn lemma_predicates(x: int, y: int)
    ensures
        icmp_holds("eq"@, x, y) == (x == y),
        icmp_holds("ne"@, x, y) == (x != y),
        icmp_holds("slt"@, x, y) == (x < y),
        icmp_holds("sle"@, x, y) == (x <= y),
        icmp_holds("sgt"@, x, y) == (x > y),
        icmp_holds("sge"@, x, y) == (x >= y),
{
    reveal_strlit("eq");
    reveal_strlit("ne");
    reveal_strlit("slt");
    reveal_strlit("sle");
    reveal_strlit("sgt");
    reveal_strlit("sge");
    assert("eq"@ != "ne"@) by {
        assert("eq"@[0] != "ne"@[0]);
    }
    assert("slt"@ != "eq"@ && "slt"@ != "ne"@) by {
        assert("slt"@.len() != "eq"@.len());
    }
    assert("sle"@ != "eq"@ && "sle"@ != "ne"@ && "sle"@ != "slt"@) by {
        assert("sle"@.len() != "eq"@.len());
        assert("sle"@[2] != "slt"@[2]);
    }
    assert("sgt"@ != "eq"@ && "sgt"@ != "ne"@ && "sgt"@ != "slt"@ && "sgt"@ != "sle"@) by {
        assert("sgt"@.len() != "eq"@.len());
        assert("sgt"@[1] != "slt"@[1]);
        assert("sgt"@[1] != "sle"@[1]);
    }
    assert("sge"@ != "eq"@ && "sge"@ != "ne"@ && "sge"@ != "slt"@ && "sge"@ != "sle"@ && "sge"@ != "sgt"@) by {
        assert("sge"@.len() != "eq"@.len());
        assert("sge"@[1] != "slt"@[1]);
        assert("sge"@[1] != "sle"@[1]);
        assert("sge"@[2] != "sgt"@[2]);
    }
}

/// Every comparison instruction is emitted as an `icmp` whose predicate
/// means, on signed integers, the comparison the instruction asks for:
/// equal, not equal, less, at most, greater, at least.
pub proof fn lemma_comparisons_keep_their_meaning(result: MirValueId, left: MirValueId, right: MirValueId)
    ensures
        compares_as(arith_text(MirInstructionKind::Equal { result, left, right }), result, left, right, |x: int, y: int| x == y),
        compares_as(arith_text(MirInstructionKind::NotEqual { result, left, right }), result, left, right, |x: int, y: int| x != y),
        compares_as(arith_text(MirInstructionKind::LessThan { result, left, right }), result, left, right, |x: int, y: int| x < y),
        compares_as(arith_text(MirInstructionKind::LessEqual { result, left, right }), result, left, right, |x: int, y: int| x <= y),
        compares_as(arith_text(MirInstructionKind::GreaterThan { result, left, right }), result, left, right, |x: int, y: int| x > y),
        compares_as(arith_text(MirInstructionKind::GreaterEqual { result, left, right }), result, left, right, |x: int, y: int| x >= y),
{
    reveal_strlit("icmp eq i64");
    reveal_strlit("icmp ne i64");
    reveal_strlit("icmp slt i64");
    reveal_strlit("icmp sle i64");
    reveal_strlit("icmp sgt i64");
    reveal_strlit("icmp sge i64");
    reveal_strlit("icmp ");
    reveal_strlit(" i64");
    reveal_strlit("eq");
    reveal_strlit("ne");
    reveal_strlit("slt");
    reveal_strlit("sle");
    reveal_strlit("sgt");
    reveal_strlit("sge");
    assert forall|x: int, y: int| #[trigger] icmp_holds("eq"@, x, y) == (x == y) by { lemma_predicates(x, y); }
    assert forall|x: int, y: int| #[trigger] icmp_holds("ne"@, x, y) == (x != y) by { lemma_predicates(x, y); }
    assert forall|x: int, y: int| #[trigger] icmp_holds("slt"@, x, y) == (x < y) by { lemma_predicates(x, y); }
    assert forall|x: int, y: int| #[trigger] icmp_holds("sle"@, x, y) == (x <= y) by { lemma_predicates(x, y); }
    assert forall|x: int, y: int| #[trigger] icmp_holds("sgt"@, x, y) == (x > y) by { lemma_predicates(x, y); }
    assert forall|x: int, y: int| #[trigger] icmp_holds("sge"@, x, y) == (x >= y) by { lemma_predicates(x, y); }
    assert("icmp eq i64"@ =~= icmp_text("eq"@));
    assert("icmp ne i64"@ =~= icmp_text("ne"@));
    assert("icmp slt i64"@ =~= icmp_text("slt"@));
    assert("icmp sle i64"@ =~= icmp_text("sle"@));
    assert("icmp sgt i64"@ =~= icmp_text("sgt"@));
    assert("icmp sge i64"@ =~= icmp_text("sge"@));
}

/// A general comparison is emitted as an `icmp` whose predicate means, on
/// signed integers, the comparison its operator names.
pub proof fn lemma_compare_keeps_its_meaning(result: MirValueId, operator: MirCompareOperator, left: MirValueId, right: MirValueId)
    ensures
        compares_as(
            arith_text(MirInstructionKind::Compare { result, operator, left, right }),
            result,
            left,
            right,
            |x: int, y: int| match operator {
                MirCompareOperator::Equal => x == y,
                MirCompareOperator::NotEqual => x != y,
                MirCompareOperator::LessThan => x < y,
                MirCompareOperator::LessEqual => x <= y,
                MirCompareOperator::GreaterThan => x > y,
                MirCompareOperator::GreaterEqual => x >= y,
            },
        ),
{
    let p = predicate_text(operator);
    let rel = |x: int, y: int| match operator {
        MirCompareOperator::Equal => x == y,
        MirCompareOperator::NotEqual => x != y,
        MirCompareOperator::LessThan => x < y,
        MirCompareOperator::LessEqual => x <= y,
        MirCompareOperator::GreaterThan => x > y,
        MirCompareOperator::GreaterEqual => x >= y,
    };
    assert forall|x: int, y: int| #[trigger] icmp_holds(p, x, y) == rel(x, y) by {
        lemma_predicates(x, y);
    }
    reveal_strlit(" = icmp ");
    reveal_strlit(" i64 ");
    reveal_strlit(" = ");
    reveal_strlit(" ");
    reveal_strlit("icmp ");
    reveal_strlit(" i64");
    assert(arith_text(MirInstructionKind::Compare { result, operator, left, right }) =~= binary_text(result, icmp_text(p), left, right));
    assert(icmp_text(p) == icmp_text(p));
}


/// The quotient of `x` by `y` with its fraction cut off: the size of `x`
/// divided by the size of `y`, negated when the signs differ.
pub open spec fn toward_zero_quotient(x: int, y: int) -> int {
    let q = (if x < 0 { -x } else { x }) / (if y < 0 { -y } else { y });
    if (x < 0) != (y < 0) {
        -q
    } else {
        q
    }
}

/// What the integer instruction named `p` computes from `x` and `y`, before
/// wrapping to 64 bits; no other text names one of these instructions.
pub open spec fn int_op_value(p: Seq<char>, x: int, y: int) -> Option<int> {
    if p == "add"@ {
        Some(x + y)
    } else if p == "sub"@ {
        Some(x - y)
    } else if p == "mul"@ {
        Some(x * y)
    } else if p == "sdiv"@ && y != 0 {
        Some(toward_zero_quotient(x, y))
    } else if p == "srem"@ && y != 0 {
        Some(x - y * toward_zero_quotient(x, y))
    } else {
        None
    }
}

/// The operation text of an integer instruction on `i64` named `p`.
pub open spec fn int_op_text(p: Seq<char>) -> Seq<char> {
    p + " i64"@
}

/// `text` is the line `%result = P i64 %left, %right` for an instruction
/// `P` that computes `f` of its operands.
pub open spec fn computes_as(
    text: Seq<char>,
    result: MirValueId,
    left: MirValueId,
    right: MirValueId,
    f: spec_fn(int, int) -> int,
) -> bool {
    exists|p: Seq<char>|
        #[trigger] int_op_text(p) == int_op_text(p) && text == binary_text(result, int_op_text(p), left, right) && forall|
            x: int,
            y: int,
        | #[trigger] int_op_value(p, x, y) == Some(f(x, y))
}

/// Addition, subtraction and multiplication are emitted as the LLVM
/// instructions that compute the sum, the difference (left minus right) and
/// the product of their operands.
pub proof fn lemma_arithmetic_keeps_its_meaning(result: MirValueId, left: MirValueId, right: MirValueId)
    ensures
        computes_as(arith_text(MirInstructionKind::Add { result, left, right }), result, left, right, |x: int, y: int| x + y),
        computes_as(arith_text(MirInstructionKind::Subtract { result, left, right }), result, left, right, |x: int, y: int| x - y),
        computes_as(arith_text(MirInstructionKind::Multiply { result, left, right }), result, left, right, |x: int, y: int| x * y),
{
    reveal_strlit("add i64");
    reveal_strlit("sub i64");
    reveal_strlit("mul i64");
    reveal_strlit(" i64");
    reveal_strlit("add");
    reveal_strlit("sub");
    reveal_strlit("mul");
    assert("sub"@ != "add"@) by {
        assert("sub"@[0] != "add"@[0]);
    }
    assert("mul"@ != "add"@ && "mul"@ != "sub"@) by {
        assert("mul"@[0] != "add"@[0]);
        assert("mul"@[0] != "sub"@[0]);
    }
    assert("add i64"@ =~= int_op_text("add"@));
    assert("sub i64"@ =~= int_op_text("sub"@));
    assert("mul i64"@ =~= int_op_text("mul"@));
    assert(int_op_text("add"@) == int_op_text("add"@));
    assert(int_op_text("sub"@) == int_op_text("sub"@));
    assert(int_op_text("mul"@) == int_op_text("mul"@));
}


/// What the one-bit instruction named `p` computes from `x` and `y`; no
/// other text names one of these instructions.
pub open spec fn bit_op_value(p: Seq<char>, x: bool, y: bool) -> Option<bool> {
    if p == "and"@ {
        Some(x && y)
    } else if p == "or"@ {
        Some(x || y)
    } else if p == "xor"@ {
        Some(x != y)
    } else {
        None
    }
}

/// The operation text of a one-bit instruction named `p`.
pub open spec fn bit_op_text(p: Seq<char>) -> Seq<char> {
    p + " i1"@
}

/// `text` is the line `%result = P i1 %left, %right` for a one-bit
/// instruction `P` that computes `f` of its operands.
pub open spec fn combines_as(
    text: Seq<char>,
    result: MirValueId,
    left: MirValueId,
    right: MirValueId,
    f: spec_fn(bool, bool) -> bool,
) -> bool {
    exists|p: Seq<char>|
        #[trigger] bit_op_text(p) == bit_op_text(p) && text == binary_text(result, bit_op_text(p), left, right) && forall|
            x: bool,
            y: bool,
        | #[trigger] bit_op_value(p, x, y) == Some(f(x, y))
}

/// `and` and `or` are emitted as the one-bit instructions that compute the
/// conjunction and the disjunction; `not` as an exclusive or with `true`,
/// which gives the negation; a move as an addition of 0, which gives the
/// value moved.
pub proof fn lemma_logic_and_moves_keep_their_meaning(result: MirValueId, left: MirValueId, right: MirValueId)
    ensures
        combines_as(arith_text(MirInstructionKind::And { result, left, right }), result, left, right, |x: bool, y: bool| x && y),
        combines_as(arith_text(MirInstructionKind::Or { result, left, right }), result, left, right, |x: bool, y: bool| x || y),
        arith_text(MirInstructionKind::Not { result, operand: left }) == reg(result) + " = "@ + bit_op_text("xor"@) + " "@
            + reg(left) + ", true\n"@,
        forall|x: bool| #[trigger] bit_op_value("xor"@, x, true) == Some(!x),
        arith_text(MirInstructionKind::Move { result, value: left }) == reg(result) + " = "@ + int_op_text("add"@) + " 0, "@
            + reg(left) + "\n"@,
        forall|y: int| #[trigger] int_op_value("add"@, 0, y) == Some(y),
{
    reveal_strlit("and i1");
    reveal_strlit("or i1");
    reveal_strlit(" i1");
    reveal_strlit("and");
    reveal_strlit("or");
    reveal_strlit("xor");
    reveal_strlit(" = xor i1 ");
    reveal_strlit(" = ");
    reveal_strlit(" ");
    reveal_strlit(" = add i64 0, ");
    reveal_strlit(" 0, ");
    reveal_strlit(" i64");
    reveal_strlit("add");
    assert("or"@ != "and"@) by {
        assert("or"@.len() != "and"@.len());
    }
    assert("xor"@ != "and"@ && "xor"@ != "or"@) by {
        assert("xor"@[0] != "and"@[0]);
        assert("xor"@.len() != "or"@.len());
    }
    assert("and i1"@ =~= bit_op_text("and"@));
    assert("or i1"@ =~= bit_op_text("or"@));
    assert(bit_op_text("and"@) == bit_op_text("and"@));
    assert(bit_op_text("or"@) == bit_op_text("or"@));
    assert(arith_text(MirInstructionKind::Not { result, operand: left }) =~= reg(result) + " = "@ + bit_op_text("xor"@) + " "@
        + reg(left) + ", true\n"@);
    assert(arith_text(MirInstructionKind::Move { result, value: left }) =~= reg(result) + " = "@ + int_op_text("add"@) + " 0, "@
        + reg(left) + "\n"@);
}

/// `text` is the line `%result = P i64 %left, %right` for an instruction `P`
/// that gives, for every nonzero divisor, the quotient (`quotient`) or the
/// remainder (otherwise) of the division rounded toward zero.
pub open spec fn divides_as(text: Seq<char>, result: MirValueId, left: MirValueId, right: MirValueId, quotient: bool) -> bool {
    exists|p: Seq<char>|
        #[trigger] int_op_text(p) == int_op_text(p) && text == binary_text(result, int_op_text(p), left, right) && forall|
            x: int,
            y: int,
        |
            y != 0 ==> (#[trigger] int_op_value(p, x, y) matches Some(v) && if quotient {
                truncated_division(x, y, v, x - v * y)
            } else {
                truncated_division(x, y, (x - v) / y, v)
            })
}

proof fn lemma_toward_zero(x: int, y: int)
    requires
        y != 0,
    ensures
        truncated_division(x, y, toward_zero_quotient(x, y), x - y * toward_zero_quotient(x, y)),
        (y * toward_zero_quotient(x, y)) / y == toward_zero_quotient(x, y),
{
    let q = toward_zero_quotient(x, y);
    if x >= 0 && y > 0 {
        lemma_natural_division(x, y);
    } else if x < 0 && y < 0 {
        lemma_natural_division(-x, -y);
        assert(q * -y == -(q * y)) by (nonlinear_arith);
    } else if x < 0 {
        lemma_natural_division(-x, y);
        assert((-(-x / y)) * y == -((-x / y) * y)) by (nonlinear_arith);
    } else {
        lemma_natural_division(x, -y);
        assert((-(x / -y)) * y == (x / -y) * -y) by (nonlinear_arith);
    }
    vstd::arithmetic::mul::lemma_mul_is_commutative(y, q);
    assert((y * q) / y == q) by (nonlinear_arith)
        requires
            y != 0,
    ;
}

/// Division and remainder are emitted as the LLVM instructions that give,
/// for a nonzero divisor, the quotient and the remainder of the division
/// rounded toward zero.
pub proof fn lemma_division_keeps_its_meaning(result: MirValueId, left: MirValueId, right: MirValueId)
    ensures
        divides_as(arith_text(MirInstructionKind::Divide { result, left, right }), result, left, right, true),
        divides_as(arith_text(MirInstructionKind::Modulo { result, left, right }), result, left, right, false),
{
    reveal_strlit("sdiv i64");
    reveal_strlit("srem i64");
    reveal_strlit(" i64");
    reveal_strlit("add");
    reveal_strlit("sub");
    reveal_strlit("mul");
    reveal_strlit("sdiv");
    reveal_strlit("srem");
    assert("sdiv"@ != "add"@ && "sdiv"@ != "sub"@ && "sdiv"@ != "mul"@) by {
        assert("sdiv"@.len() != "add"@.len());
        assert("sdiv"@.len() != "sub"@.len());
        assert("sdiv"@.len() != "mul"@.len());
    }
    assert("srem"@ != "add"@ && "srem"@ != "sub"@ && "srem"@ != "mul"@ && "srem"@ != "sdiv"@) by {
        assert("srem"@.len() != "add"@.len());
        assert("srem"@.len() != "sub"@.len());
        assert("srem"@.len() != "mul"@.len());
        assert("srem"@[1] != "sdiv"@[1]);
    }
    assert("sdiv i64"@ =~= int_op_text("sdiv"@));
    assert("srem i64"@ =~= int_op_text("srem"@));
    assert(int_op_text("sdiv"@) == int_op_text("sdiv"@));
    assert(int_op_text("srem"@) == int_op_text("srem"@));
    assert forall|x: int, y: int| y != 0 implies (#[trigger] int_op_value("sdiv"@, x, y) matches Some(v) && truncated_division(
        x,
        y,
        v,
        x - v * y,
    )) by {
        lemma_toward_zero(x, y);
        vstd::arithmetic::mul::lemma_mul_is_commutative(y, toward_zero_quotient(x, y));
    }
    assert forall|x: int, y: int| y != 0 implies (#[trigger] int_op_value("srem"@, x, y) matches Some(v) && truncated_division(
        x,
        y,
        (x - v) / y,
        v,
    )) by {
        lemma_toward_zero(x, y);
        let q = toward_zero_quotient(x, y);
        assert(x - (x - y * q) == y * q);
    }
}

} // verus!
