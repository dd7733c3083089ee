//! What constant folding computes: an operation on known constants is
//! replaced by the constant it evaluates to, and by nothing else.
use vstd::prelude::*;

use crate::mir::instruction::MirInstructionKind;
use crate::mir::optimizer::{fold_kind, KnownConstant};
use crate::mir::types::{MirValue, MirValueId};

verus! {

/// The constants `c` know that `left` holds `a` and `right` holds `b`.
pub open spec fn knows_integers(c: Map<usize, KnownConstant>, left: MirValueId, right: MirValueId, a: i64, b: i64) -> bool {
    &&& c.contains_key(left.0) && c[left.0] == KnownConstant::Integer(a)
    &&& c.contains_key(right.0) && c[right.0] == KnownConstant::Integer(b)
}

/// The constants `c` know that `left` holds `a` and `right` holds `b`.
pub open spec fn knows_booleans(c: Map<usize, KnownConstant>, left: MirValueId, right: MirValueId, a: bool, b: bool) -> bool {
    &&& c.contains_key(left.0) && c[left.0] == KnownConstant::Boolean(a)
    &&& c.contains_key(right.0) && c[right.0] == KnownConstant::Boolean(b)
}

/// `r` is an integer constant `v` for `result` holding exactly `n`, or,
/// when `n` does not fit in an `i64`, no folding at all.
pub open spec fn folds_to_integer(r: Option<(MirValueId, MirValue)>, result: MirValueId, n: int) -> bool {
    if i64::MIN <= n <= i64::MAX {
        r matches Some((id, MirValue::Integer(v))) && id == result && v as int == n
    } else {
        r is None
    }
}

/// Sums, differences (left minus right) and products of known integers
/// fold to their exact value when it fits in an `i64`, and are left alone
/// otherwise.
pub proof fn lemma_integer_arithmetic_folds_exactly(
    c: Map<usize, KnownConstant>,
    result: MirValueId,
    left: MirValueId,
    right: MirValueId,
    a: i64,
    b: i64,
)
    requires
        knows_integers(c, left, right, a, b),
    ensures
        folds_to_integer(fold_kind(MirInstructionKind::Add { result, left, right }, c), result, a + b),
        folds_to_integer(fold_kind(MirInstructionKind::Subtract { result, left, right }, c), result, a - b),
        folds_to_integer(fold_kind(MirInstructionKind::Multiply { result, left, right }, c), result, a * b),
{
}

/// Comparisons of known integers fold to the truth of the comparison.
pub proof fn lemma_integer_comparisons_fold_to_their_truth(
    c: Map<usize, KnownConstant>,
    result: MirValueId,
    left: MirValueId,
    right: MirValueId,
    a: i64,
    b: i64,
)
    requires
        knows_integers(c, left, right, a, b),
    ensures
        fold_kind(MirInstructionKind::Equal { result, left, right }, c) == Some((result, MirValue::Boolean(a == b))),
        fold_kind(MirInstructionKind::NotEqual { result, left, right }, c) == Some((result, MirValue::Boolean(a != b))),
        fold_kind(MirInstructionKind::LessThan { result, left, right }, c) == Some((result, MirValue::Boolean((a as int) < (b as int)))),
        fold_kind(MirInstructionKind::LessEqual { result, left, right }, c) == Some((result, MirValue::Boolean((a as int) <= (b as int)))),
        fold_kind(MirInstructionKind::GreaterThan { result, left, right }, c) == Some((result, MirValue::Boolean((a as int) > (b as int)))),
        fold_kind(MirInstructionKind::GreaterEqual { result, left, right }, c) == Some((result, MirValue::Boolean((a as int) >= (b as int)))),
{
}

/// `and` and `or` of known booleans fold to their conjunction and
/// disjunction.
pub proof fn lemma_logic_folds_to_its_truth(
    c: Map<usize, KnownConstant>,
    result: MirValueId,
    left: MirValueId,
    right: MirValueId,
    a: bool,
    b: bool,
)
    requires
        knows_booleans(c, left, right, a, b),
    ensures
        fold_kind(MirInstructionKind::And { result, left, right }, c) matches Some((id, MirValue::Boolean(v))) && id == result
            && (v <==> (a && b)),
        fold_kind(MirInstructionKind::Or { result, left, right }, c) matches Some((id, MirValue::Boolean(v))) && id == result
            && (v <==> (a || b)),
        fold_kind(MirInstructionKind::Not { result, operand: left }, c) matches Some((id, MirValue::Boolean(v))) && id == result
            && (v <==> !a),
{
}

/// `q` and `r` are the quotient and remainder of `a` divided by `b`
/// rounded toward zero: `a == q * b + r`, the remainder is smaller than the
/// divisor in size and is zero or carries the sign of `a`.
pub open spec fn truncated_division(a: int, b: int, q: int, r: int) -> bool {
    &&& a == q * b + r
    &&& (if r < 0 { -r } else { r }) < (if b < 0 { -b } else { b })
    &&& r == 0 || ((r > 0) == (a > 0))
}

pub(crate) proof fn lemma_natural_division(x: int, d: int)
    requires
        x >= 0,
        d > 0,
    ensures
        x == (x / d) * d + x % d,
        0 <= x % d < d,
        x / d >= 0,
        x / d <= x,
{
    vstd::arithmetic::div_mod::lemma_fundamental_div_mod(x, d);
    vstd::arithmetic::mul::lemma_mul_is_commutative(d, x / d);
    vstd::arithmetic::div_mod::lemma_mod_bound(x, d);
    vstd::arithmetic::div_mod::lemma_div_pos_is_pos(x, d);
    vstd::arithmetic::div_mod::lemma_div_is_ordered_by_denominator(x, 1, d);
    assert(x / 1 == x);
}

/// Quotients and remainders of known integers fold to division rounded
/// toward zero; a zero divisor, and `i64::MIN` divided by `-1`, are left
/// alone.
#[verifier::rlimit(40)]
pub proof fn lemma_division_folds_toward_zero(
    c: Map<usize, KnownConstant>,
    result: MirValueId,
    left: MirValueId,
    right: MirValueId,
    a: i64,
    b: i64,
)
    requires
        knows_integers(c, left, right, a, b),
    ensures
        b == 0 || (a == i64::MIN && b == -1) ==> fold_kind(MirInstructionKind::Divide { result, left, right }, c) is None
            && fold_kind(MirInstructionKind::Modulo { result, left, right }, c) is None,
        b != 0 && !(a == i64::MIN && b == -1) ==> (fold_kind(MirInstructionKind::Divide { result, left, right }, c) matches Some((
            qid,
            MirValue::Integer(q),
        )) && fold_kind(MirInstructionKind::Modulo { result, left, right }, c) matches Some((rid, MirValue::Integer(r)))
            && qid == result && rid == result && truncated_division(a as int, b as int, q as int, r as int)),
{
    if b != 0 && !(a == i64::MIN && b == -1) {
        let x = a as int;
        let d = b as int;
        let q: int;
        let r: int;
        if x == 0 {
            q = 0;
            r = 0;
        } else if x > 0 && d > 0 {
            lemma_natural_division(x, d);
            q = x / d;
            r = x % d;
        } else if x < 0 && d < 0 {
            lemma_natural_division(-x, -d);
            q = (x * -1) / (d * -1);
            r = ((x * -1) % (d * -1)) * -1;
            assert(q * -d == -(q * d)) by (nonlinear_arith);
            if d < -1 {
                assert(q * 2 <= q * -d) by (nonlinear_arith)
                    requires q >= 0, -d >= 2;
            }
        } else if x < 0 {
            lemma_natural_division(-x, d);
            q = ((x * -1) / d) * -1;
            r = ((x * -1) % d) * -1;
            assert(((-x / d) * -1) * d == -((-x / d) * d)) by (nonlinear_arith);
        } else {
            lemma_natural_division(x, -d);
            q = (x / (d * -1)) * -1;
            r = x % (d * -1);
            assert(((x / -d) * -1) * d == (x / -d) * -d) by (nonlinear_arith);
        }
        assert(truncated_division(x, d, q, r));
        assert(i64::MIN <= q <= i64::MAX);
        assert(a.checked_div(b) == Some(q as i64));
        assert(a.checked_rem(b) == Some(r as i64));
    }
}

} // verus!
