//! Binary and unary operator emission. Arithmetic faults (integer
//! overflow, zero divisors, `MIN / -1`, non-finite float results) branch
//! to a panic.

use vstd::prelude::*;
use crate::error::{says, LlvmError};
use crate::ir::{FaultTexts, IRBinOp, IRType, IRUnaryOp};
use crate::llvm::{
    a1, a2, call, itest, num, BinOp, Body, CastOp, Checked, Code, Inst, LType, Pred, Val,
};
use crate::runtime::Rt;
use crate::semantics::{
    bit, later_code_keeps_values, modulus, recording_keeps_values, signed_value, truncated_quotient,
    wrapped,
};
use crate::text::concat3;
use crate::types::{is_signed, shape_name, shape_text, signed, value_basic_type, value_type};

verus! {

/// The bits of positive infinity as a double.
pub const INFINITY_BITS: u64 = 0x7ff0_0000_0000_0000;

/// A branch to a panic with `message` when `fault` holds. The blocks are
/// panic and continue.
pub open spec fn fault_guard_code(s: Code, fault: Val, message: Seq<char>) -> Code {
    s.word("panic"@).word("ok"@)
        .i(Inst::CondBr(fault, s.b(0), s.b(1)))
        .at(s.b(0))
        .text(message)
        .i(call(Rt::Panic, a1(s.tv(0))))
        .i(Inst::Unreachable)
        .at(s.b(1))
}

/// Panics with `message` when `fault` holds, and goes on otherwise.
pub fn emit_fault_guard(f: &mut Body, fault: Val, message: &str)
    ensures
        final(f)@ == fault_guard_code(old(f)@, fault, message@),
{
    let panic_block = f.block("panic");
    let continue_block = f.block("ok");
    f.ins(Inst::CondBr(fault, panic_block, continue_block));
    f.at(panic_block);
    let payload = f.text(message);
    f.ins(call(Rt::Panic, a1(payload)));
    f.ins(Inst::Unreachable);
    f.at(continue_block);
}

/// The least value of a signed integer of the width, as bits.
pub open spec fn least(ty: LType) -> u64 {
    match ty {
        LType::I1 => 1,
        LType::I8 => 0x80,
        LType::I16 => 0x8000,
        LType::I32 => 0x8000_0000,
        _ => 0x8000_0000_0000_0000,
    }
}

/// All bits of an integer of the width.
pub open spec fn all_ones(ty: LType) -> u64 {
    match ty {
        LType::I1 => 1,
        LType::I8 => 0xff,
        LType::I16 => 0xffff,
        LType::I32 => 0xffff_ffff,
        _ => 0xffff_ffff_ffff_ffff,
    }
}

/// The least value of a signed integer of the width.
pub fn int_min(ty: LType) -> (r: u64)
    ensures
        r == least(ty),
{
    match ty {
        LType::I1 => 1,
        LType::I8 => 0x80,
        LType::I16 => 0x8000,
        LType::I32 => 0x8000_0000,
        _ => 0x8000_0000_0000_0000,
    }
}

/// All bits of an integer of the width.
pub fn int_ones(ty: LType) -> (r: u64)
    ensures
        r == all_ones(ty),
{
    match ty {
        LType::I1 => 1,
        LType::I8 => 0xff,
        LType::I16 => 0xffff,
        LType::I32 => 0xffff_ffff,
        _ => 0xffff_ffff_ffff_ffff,
    }
}

/// The integer predicate of a comparison.
pub open spec fn int_pred(op: IRBinOp, is_signed: bool) -> Pred {
    match op {
        IRBinOp::Eq => Pred::Eq,
        IRBinOp::NotEq => Pred::Ne,
        IRBinOp::Gt => if is_signed { Pred::Sgt } else { Pred::Ugt },
        IRBinOp::GtEq => if is_signed { Pred::Sge } else { Pred::Uge },
        IRBinOp::Lt => if is_signed { Pred::Slt } else { Pred::Ult },
        _ => if is_signed { Pred::Sle } else { Pred::Ule },
    }
}

/// The integer predicate of a comparison.
pub fn int_predicate(op: IRBinOp, is_signed: bool) -> (r: Pred)
    ensures
        r == int_pred(op, is_signed),
{
    match op {
        IRBinOp::Eq => Pred::Eq,
        IRBinOp::NotEq => Pred::Ne,
        IRBinOp::Gt => if is_signed { Pred::Sgt } else { Pred::Ugt },
        IRBinOp::GtEq => if is_signed { Pred::Sge } else { Pred::Uge },
        IRBinOp::Lt => if is_signed { Pred::Slt } else { Pred::Ult },
        _ => if is_signed { Pred::Sle } else { Pred::Ule },
    }
}

/// The float predicate of a comparison: ordered throughout.
pub open spec fn float_pred(op: IRBinOp) -> Pred {
    match op {
        IRBinOp::Eq => Pred::Oeq,
        IRBinOp::NotEq => Pred::One,
        IRBinOp::Gt => Pred::Ogt,
        IRBinOp::GtEq => Pred::Oge,
        IRBinOp::Lt => Pred::Olt,
        _ => Pred::Ole,
    }
}

/// The float predicate of a comparison.
pub fn float_predicate(op: IRBinOp) -> (r: Pred)
    ensures
        r == float_pred(op),
{
    match op {
        IRBinOp::Eq => Pred::Oeq,
        IRBinOp::NotEq => Pred::One,
        IRBinOp::Gt => Pred::Ogt,
        IRBinOp::GtEq => Pred::Oge,
        IRBinOp::Lt => Pred::Olt,
        _ => Pred::Ole,
    }
}

/// The checked form of an operator.
pub open spec fn checked_form(op: IRBinOp, is_signed: bool) -> Checked {
    match op {
        IRBinOp::Add => if is_signed { Checked::SAdd } else { Checked::UAdd },
        IRBinOp::Mul => if is_signed { Checked::SMul } else { Checked::UMul },
        _ => if is_signed { Checked::SSub } else { Checked::USub },
    }
}

/// `Add`, `Sub` and `Mul` that panic on overflow.
pub open spec fn overflow_checked_code(
    s: Code,
    op: IRBinOp,
    ty: LType,
    is_signed: bool,
    lhs: Val,
    rhs: Val,
    overflow: Seq<char>,
) -> Code {
    fault_guard_code(
        s.i(Inst::Checked(checked_form(op, is_signed), ty, lhs, rhs))
            .i(Inst::Unchecked(ty, s.v(0)))
            .i(Inst::Overflowed(ty, s.v(0))),
        s.v(2),
        overflow,
    )
}

/// Emits checked arithmetic.
pub fn emit_overflow_checked_arith(
    f: &mut Body,
    op: IRBinOp,
    ty: LType,
    is_signed: bool,
    lhs: Val,
    rhs: Val,
    overflow: &str,
) -> (r: Val)
    ensures
        final(f)@ == overflow_checked_code(old(f)@, op, ty, is_signed, lhs, rhs, overflow@),
        r == old(f)@.v(1),
{
    let form = match op {
        IRBinOp::Add => if is_signed { Checked::SAdd } else { Checked::UAdd },
        IRBinOp::Mul => if is_signed { Checked::SMul } else { Checked::UMul },
        _ => if is_signed { Checked::SSub } else { Checked::USub },
    };
    let pair = f.ins(Inst::Checked(form, ty, lhs, rhs));
    let result = f.ins(Inst::Unchecked(ty, pair));
    let overflowed = f.ins(Inst::Overflowed(ty, pair));
    emit_fault_guard(f, overflowed, overflow);
    result
}

/// `Div` and `Mod`: a zero divisor panics, and so does the signed
/// `MIN / -1`; both are undefined on the raw instructions.
pub open spec fn div_rem_code(
    s: Code,
    op: IRBinOp,
    ty: LType,
    is_signed: bool,
    lhs: Val,
    rhs: Val,
    overflow: Seq<char>,
    by_zero: Seq<char>,
) -> (Code, Val) {
    let z = fault_guard_code(
        s.i(Inst::ITest(Pred::Eq, ty, rhs, num(0))),
        s.v(0),
        by_zero,
    );
    if is_signed {
        let m = fault_guard_code(
            z.i(Inst::ITest(Pred::Eq, ty, lhs, num(least(ty))))
                .i(Inst::ITest(Pred::Eq, ty, rhs, num(all_ones(ty))))
                .i(Inst::Bin(BinOp::And, LType::I1, z.v(0), z.v(1))),
            z.v(2),
            overflow,
        );
        (
            m.i(
                Inst::Bin(
                    if op == IRBinOp::Div { BinOp::SDiv } else { BinOp::SRem },
                    ty,
                    lhs,
                    rhs,
                ),
            ),
            m.v(0),
        )
    } else {
        (
            z.i(
                Inst::Bin(
                    if op == IRBinOp::Div { BinOp::UDiv } else { BinOp::URem },
                    ty,
                    lhs,
                    rhs,
                ),
            ),
            z.v(0),
        )
    }
}

/// Unsigned division and remainder go to a panic exactly where the divisor
/// is zero, and otherwise give the quotient or the remainder.
pub proof fn unsigned_division_is_guarded(
    s: Code,
    env: spec_fn(Val) -> u64,
    op: IRBinOp,
    ty: LType,
    lhs: Val,
    rhs: Val,
    overflow: Seq<char>,
    by_zero: Seq<char>,
)
    requires
        s.room(5),
        s.defines(lhs),
        s.defines(rhs),
    ensures
        ({
            let (code, result) = div_rem_code(s, op, ty, false, lhs, rhs, overflow, by_zero);
            let (a, b) = (s.value(env, lhs), s.value(env, rhs));
            &&& code.log[s.log.len() as int + 1].inst == Inst::CondBr(s.v(0), s.b(0), s.b(1))
            &&& code.value(env, s.v(0)) == bit(b == 0)
            &&& b != 0 ==> code.value(env, result) == if op == IRBinOp::Div {
                a / b
            } else {
                a % b
            }
        }),
{
    let (a, b) = (s.value(env, lhs), s.value(env, rhs));
    let z = zero_guarded(s, env, ty, lhs, rhs, by_zero);
    let divide = Inst::Bin(
        if op == IRBinOp::Div {
            BinOp::UDiv
        } else {
            BinOp::URem
        },
        ty,
        lhs,
        rhs,
    );
    recording_keeps_values(z, env, divide);
}

/// The guard against a zero divisor.
proof fn zero_guarded(
    s: Code,
    env: spec_fn(Val) -> u64,
    ty: LType,
    lhs: Val,
    rhs: Val,
    by_zero: Seq<char>,
) -> (z: Code)
    requires
        s.room(4),
        s.defines(lhs),
        s.defines(rhs),
    ensures
        z == fault_guard_code(s.i(Inst::ITest(Pred::Eq, ty, rhs, num(0))), s.v(0), by_zero),
        z.log.len() == s.log.len() + 4,
        z.log[s.log.len() as int + 1].inst == Inst::CondBr(s.v(0), s.b(0), s.b(1)),
        z.value(env, s.v(0)) == bit(s.value(env, rhs) == 0),
        z.value(env, lhs) == s.value(env, lhs),
        z.value(env, rhs) == s.value(env, rhs),
{
    let zero = Inst::ITest(Pred::Eq, ty, rhs, num(0));
    recording_keeps_values(s, env, zero);
    let c1 = s.i(zero);
    guard_keeps_values(c1, env, s.v(0), by_zero);
    let z = fault_guard_code(c1, s.v(0), by_zero);
    assert(z.value(env, s.v(0)) == c1.value(env, s.v(0)));
    assert(z.value(env, lhs) == c1.value(env, lhs));
    assert(z.value(env, rhs) == c1.value(env, rhs));
    z
}

/// The guard against the one quotient that does not fit.
proof fn least_guarded(
    z: Code,
    env: spec_fn(Val) -> u64,
    ty: LType,
    lhs: Val,
    rhs: Val,
    overflow: Seq<char>,
) -> (m: Code)
    requires
        z.room(6),
        z.defines(lhs),
        z.defines(rhs),
    ensures
        m == fault_guard_code(
            z.i(Inst::ITest(Pred::Eq, ty, lhs, num(least(ty))))
                .i(Inst::ITest(Pred::Eq, ty, rhs, num(all_ones(ty))))
                .i(Inst::Bin(BinOp::And, LType::I1, z.v(0), z.v(1))),
            z.v(2),
            overflow,
        ),
        m.log.len() == z.log.len() + 6,
        z.log.is_prefix_of(m.log),
        m.log[z.log.len() as int + 3].inst == Inst::CondBr(z.v(2), z.b(0), z.b(1)),
        m.value(env, z.v(2)) == bit(
            z.value(env, lhs) == least(ty) && z.value(env, rhs) == all_ones(ty),
        ),
        forall|v: Val| z.defines(v) ==> #[trigger] m.value(env, v) == z.value(env, v),
{
    let min = Inst::ITest(Pred::Eq, ty, lhs, num(least(ty)));
    let minus_one = Inst::ITest(Pred::Eq, ty, rhs, num(all_ones(ty)));
    let both = Inst::Bin(BinOp::And, LType::I1, z.v(0), z.v(1));
    recording_keeps_values(z, env, min);
    let c2 = z.i(min);
    recording_keeps_values(c2, env, minus_one);
    let c3 = c2.i(minus_one);
    assert(c3.value(env, z.v(0)) == bit(z.value(env, lhs) == least(ty)));
    assert(c3.value(env, z.v(1)) == bit(z.value(env, rhs) == all_ones(ty)));
    recording_keeps_values(c3, env, both);
    let c4 = c3.i(both);
    assert(0u64 & 0 == 0 && 0u64 & 1 == 0 && 1u64 & 0 == 0 && 1u64 & 1 == 1) by (bit_vector);
    guard_keeps_values(c4, env, z.v(2), overflow);
    let m = fault_guard_code(c4, z.v(2), overflow);
    assert(m.value(env, z.v(2)) == c4.value(env, z.v(2)));
    assert(z.log =~= m.log.subrange(0, z.log.len() as int));
    assert forall|v: Val| z.defines(v) implies #[trigger] m.value(env, v) == z.value(env, v) by {
        later_code_keeps_values(z, m, env, v);
    }
    m
}

/// Signed division and remainder go to a panic exactly where the divisor
/// is zero or the quotient does not fit, and otherwise give the quotient,
/// rounded towards zero, or the remainder that goes with it.
pub proof fn signed_division_is_guarded(
    s: Code,
    env: spec_fn(Val) -> u64,
    op: IRBinOp,
    ty: LType,
    lhs: Val,
    rhs: Val,
    overflow: Seq<char>,
    by_zero: Seq<char>,
)
    requires
        s.room(11),
        s.defines(lhs),
        s.defines(rhs),
        s.value(env, lhs) < modulus(ty),
        s.value(env, rhs) < modulus(ty),
    ensures
        ({
            let (code, result) = div_rem_code(s, op, ty, true, lhs, rhs, overflow, by_zero);
            let x = signed_value(ty, s.value(env, lhs));
            let y = signed_value(ty, s.value(env, rhs));
            let too_large = 2 * truncated_quotient(x, y) >= modulus(ty);
            &&& code.log[s.log.len() as int + 1].inst == Inst::CondBr(s.v(0), s.b(0), s.b(1))
            &&& code.value(env, s.v(0)) == bit(y == 0)
            &&& code.log[s.log.len() as int + 7].inst == Inst::CondBr(s.v(6), s.b(2), s.b(3))
            &&& y != 0 ==> code.value(env, s.v(6)) == bit(too_large)
            &&& y != 0 && !too_large ==> code.value(env, result) == wrapped(
                ty,
                if op == IRBinOp::Div {
                    truncated_quotient(x, y)
                } else {
                    x - y * truncated_quotient(x, y)
                },
            )
        }),
{
    let (a, b) = (s.value(env, lhs), s.value(env, rhs));
    let (x, y) = (signed_value(ty, a), signed_value(ty, b));
    let z = zero_guarded(s, env, ty, lhs, rhs, by_zero);
    let m = least_guarded(z, env, ty, lhs, rhs, overflow);
    assert(z.log[s.log.len() as int + 1] == m.log.subrange(0, z.log.len() as int)[s.log.len() as int
        + 1]);
    assert(z.v(2) == s.v(6) && z.b(0) == s.b(2) && z.b(1) == s.b(3));
    assert(m.value(env, s.v(0)) == bit(b == 0));
    assert(m.value(env, lhs) == a && m.value(env, rhs) == b);
    let divide = Inst::Bin(
        if op == IRBinOp::Div {
            BinOp::SDiv
        } else {
            BinOp::SRem
        },
        ty,
        lhs,
        rhs,
    );
    recording_keeps_values(m, env, divide);
    let code = m.i(divide);
    assert(code.value(env, s.v(0)) == m.value(env, s.v(0)));
    assert(code.value(env, s.v(6)) == m.value(env, s.v(6)));
    assert(code.value(env, m.v(0)) == m.outcome(env, divide));
    if y != 0 {
        quotient_fits(x, y, modulus(ty));
    }
}

/// The quotient of the least number and `-1` alone does not fit.
pub proof fn quotient_fits(x: int, y: int, limit: int)
    requires
        limit > 0,
        limit % 2 == 0,
        -limit <= 2 * x < limit,
        -limit <= 2 * y < limit,
        y != 0,
    ensures
        2 * truncated_quotient(x, y) >= limit <==> 2 * x == -limit && y == -1,
{
    let q = truncated_quotient(x, y);
    if y == -1 {
        assert((-x) / 1 == -x && x / 1 == x);
    } else if y == 1 {
        assert((-x) / 1 == -x && x / 1 == x);
    } else {
        let (p, d) = (
            if x >= 0 {
                x
            } else {
                -x
            },
            if y >= 0 {
                y
            } else {
                -y
            },
        );
        assert(0 <= p / d && 2 * (p / d) <= p) by (nonlinear_arith)
            requires
                p >= 0,
                d >= 2,
        ;
    }
}

/// A guard changes no value.
proof fn guard_keeps_values(s: Code, env: spec_fn(Val) -> u64, fault: Val, message: Seq<char>)
    requires
        s.room(3),
    ensures
        fault_guard_code(s, fault, message).log.len() == s.log.len() + 3,
        forall|v: Val|
            s.defines(v) ==> #[trigger] fault_guard_code(s, fault, message).value(env, v) == s.value(
                env,
                v,
            ),
{
    let t = fault_guard_code(s, fault, message);
    assert forall|v: Val| s.defines(v) implies #[trigger] t.value(env, v) == s.value(env, v) by {
        assert(s.log =~= t.log.subrange(0, s.log.len() as int));
        later_code_keeps_values(s, t, env, v);
    }
}

/// Emits guarded division or remainder.
pub fn emit_guarded_div_rem(
    f: &mut Body,
    op: IRBinOp,
    ty: LType,
    is_signed: bool,
    lhs: Val,
    rhs: Val,
    overflow: &str,
    by_zero: &str,
) -> (r: Val)
    ensures
        (final(f)@, r) == div_rem_code(
            old(f)@,
            op,
            ty,
            is_signed,
            lhs,
            rhs,
            overflow@,
            by_zero@,
        ),
{
    let zero_divisor = f.ins(Inst::ITest(Pred::Eq, ty, rhs, num(0)));
    emit_fault_guard(f, zero_divisor, by_zero);
    if !is_signed {
        let form = if op == IRBinOp::Div { BinOp::UDiv } else { BinOp::URem };
        return f.ins(Inst::Bin(form, ty, lhs, rhs));
    }
    let lhs_is_min = f.ins(Inst::ITest(Pred::Eq, ty, lhs, num(int_min(ty))));
    let rhs_is_neg_one = f.ins(Inst::ITest(Pred::Eq, ty, rhs, num(int_ones(ty))));
    let both = f.ins(Inst::Bin(BinOp::And, LType::I1, lhs_is_min, rhs_is_neg_one));
    emit_fault_guard(f, both, overflow);
    let form = if op == IRBinOp::Div { BinOp::SDiv } else { BinOp::SRem };
    f.ins(Inst::Bin(form, ty, lhs, rhs))
}

/// An integer operator: arithmetic is checked, comparison follows the
/// operand type's signedness.
pub open spec fn int_op_code(
    s: Code,
    op: IRBinOp,
    operand_ty: IRType,
    lhs: Val,
    rhs: Val,
    overflow: Seq<char>,
    by_zero: Seq<char>,
) -> (Code, Val) {
    let ty = value_type(operand_ty);
    match op {
        IRBinOp::Add | IRBinOp::Mul | IRBinOp::Sub => (
            overflow_checked_code(s, op, ty, signed(operand_ty), lhs, rhs, overflow),
            s.v(1),
        ),
        IRBinOp::Div | IRBinOp::Mod => div_rem_code(
            s,
            op,
            ty,
            signed(operand_ty),
            lhs,
            rhs,
            overflow,
            by_zero,
        ),
        _ => (s.i(Inst::ITest(int_pred(op, signed(operand_ty)), ty, lhs, rhs)), s.v(0)),
    }
}

/// Emits an integer operator.
pub fn emit_int_binary_op(
    f: &mut Body,
    op: IRBinOp,
    operand_ty: IRType,
    lhs: Val,
    rhs: Val,
    texts: &FaultTexts,
) -> (r: Val)
    ensures
        (final(f)@, r) == int_op_code(
            old(f)@,
            op,
            operand_ty,
            lhs,
            rhs,
            texts.overflow@,
            texts.division_by_zero@,
        ),
{
    let ty = value_basic_type(operand_ty);
    let sign = is_signed(operand_ty);
    match op {
        IRBinOp::Add | IRBinOp::Mul | IRBinOp::Sub => emit_overflow_checked_arith(
            f,
            op,
            ty,
            sign,
            lhs,
            rhs,
            texts.overflow.as_str(),
        ),
        IRBinOp::Div | IRBinOp::Mod => emit_guarded_div_rem(
            f,
            op,
            ty,
            sign,
            lhs,
            rhs,
            texts.overflow.as_str(),
            texts.division_by_zero.as_str(),
        ),
        _ => f.ins(Inst::ITest(int_predicate(op, sign), ty, lhs, rhs)),
    }
}

/// A panic when a float is not finite: `fabs(value) < +inf` is false for
/// both infinities and, being ordered, for NaN.
pub open spec fn finite_guard_code(s: Code, ty: LType, value: Val, message: Seq<char>) -> Code {
    fault_guard_code(
        s.i(Inst::FAbs(ty, value))
            .i(Inst::FTest(Pred::Olt, ty, s.v(0), Val::Float(INFINITY_BITS)))
            .i(Inst::Not(LType::I1, s.v(1))),
        s.v(2),
        message,
    )
}

/// Tests whether a float is finite.
pub fn emit_is_finite(f: &mut Body, ty: LType, value: Val) -> (r: Val)
    ensures
        final(f)@ == old(f)@.i(Inst::FAbs(ty, value)).i(
            Inst::FTest(Pred::Olt, ty, old(f)@.v(0), Val::Float(INFINITY_BITS)),
        ),
        r == old(f)@.v(1),
{
    let magnitude = f.ins(Inst::FAbs(ty, value));
    f.ins(Inst::FTest(Pred::Olt, ty, magnitude, Val::Float(INFINITY_BITS)))
}

/// Panics when a float is not finite.
pub fn emit_finite_guard(f: &mut Body, ty: LType, value: Val, message: &str)
    ensures
        final(f)@ == finite_guard_code(old(f)@, ty, value, message@),
{
    let finite = emit_is_finite(f, ty, value);
    let non_finite = f.ins(Inst::Not(LType::I1, finite));
    emit_fault_guard(f, non_finite, message);
}

/// A float operator: arithmetic panics on a non-finite result.
pub open spec fn float_op_code(
    s: Code,
    op: IRBinOp,
    ty: LType,
    lhs: Val,
    rhs: Val,
    non_finite: Seq<char>,
) -> Code {
    match op {
        IRBinOp::Add => finite_guard_code(
            s.i(Inst::Bin(BinOp::FAdd, ty, lhs, rhs)),
            ty,
            s.v(0),
            non_finite,
        ),
        IRBinOp::Div => finite_guard_code(
            s.i(Inst::Bin(BinOp::FDiv, ty, lhs, rhs)),
            ty,
            s.v(0),
            non_finite,
        ),
        IRBinOp::Mod => finite_guard_code(
            s.i(Inst::Bin(BinOp::FRem, ty, lhs, rhs)),
            ty,
            s.v(0),
            non_finite,
        ),
        IRBinOp::Mul => finite_guard_code(
            s.i(Inst::Bin(BinOp::FMul, ty, lhs, rhs)),
            ty,
            s.v(0),
            non_finite,
        ),
        IRBinOp::Sub => finite_guard_code(
            s.i(Inst::Bin(BinOp::FSub, ty, lhs, rhs)),
            ty,
            s.v(0),
            non_finite,
        ),
        _ => s.i(Inst::FTest(float_pred(op), ty, lhs, rhs)),
    }
}

/// Emits a float operator.
pub fn emit_float_binary_op(
    f: &mut Body,
    op: IRBinOp,
    ty: LType,
    lhs: Val,
    rhs: Val,
    non_finite: &str,
) -> (r: Val)
    ensures
        final(f)@ == float_op_code(old(f)@, op, ty, lhs, rhs, non_finite@),
        r == old(f)@.v(0),
{
    let form = match op {
        IRBinOp::Add => BinOp::FAdd,
        IRBinOp::Div => BinOp::FDiv,
        IRBinOp::Mod => BinOp::FRem,
        IRBinOp::Mul => BinOp::FMul,
        IRBinOp::Sub => BinOp::FSub,
        _ => {
            return f.ins(Inst::FTest(float_predicate(op), ty, lhs, rhs));
        },
    };
    let result = f.ins(Inst::Bin(form, ty, lhs, rhs));
    emit_finite_guard(f, ty, result, non_finite);
    result
}

/// What an operator is called in an error.
pub open spec fn operator_text(op: IRBinOp) -> Seq<char> {
    match op {
        IRBinOp::Add => "Add"@,
        IRBinOp::Div => "Div"@,
        IRBinOp::Eq => "Eq"@,
        IRBinOp::Gt => "Gt"@,
        IRBinOp::GtEq => "GtEq"@,
        IRBinOp::Lt => "Lt"@,
        IRBinOp::LtEq => "LtEq"@,
        IRBinOp::Mod => "Mod"@,
        IRBinOp::Mul => "Mul"@,
        IRBinOp::NotEq => "NotEq"@,
        IRBinOp::Sub => "Sub"@,
    }
}

fn operator_name(op: IRBinOp) -> (r: &'static str)
    ensures
        r@ == operator_text(op),
{
    match op {
        IRBinOp::Add => "Add",
        IRBinOp::Div => "Div",
        IRBinOp::Eq => "Eq",
        IRBinOp::Gt => "Gt",
        IRBinOp::GtEq => "GtEq",
        IRBinOp::Lt => "Lt",
        IRBinOp::LtEq => "LtEq",
        IRBinOp::Mod => "Mod",
        IRBinOp::Mul => "Mul",
        IRBinOp::NotEq => "NotEq",
        IRBinOp::Sub => "Sub",
    }
}

/// What is said of an operator on strings that is not defined.
pub open spec fn not_on_strings(op: IRBinOp) -> Seq<char> {
    "LLVM emit: `"@ + operator_text(op) + "` is not defined for `String` operands (typecheck violation)"@
}

/// What is said of a `not` on floats.
pub open spec fn not_on_floats() -> Seq<char> {
    "LLVM emit: `not` is Bool-only, float operand should never reach this path (typecheck violation)"@
}

/// A string comparison: the runtime's length-aware equality.
pub open spec fn string_op_code(s: Code, op: IRBinOp, lhs: Val, rhs: Val) -> Code {
    s.i(call(Rt::StringEq, a2(lhs, rhs))).i(
        itest(if op == IRBinOp::Eq { Pred::Ne } else { Pred::Eq }, s.v(0), num(0)),
    )
}

/// Emits a string comparison. Only equality and its negation are defined
/// on strings.
pub fn emit_string_binary_op(f: &mut Body, op: IRBinOp, lhs: Val, rhs: Val) -> (r: Result<
    Val,
    LlvmError,
>)
    ensures
        match r {
            Ok(v) => {
                &&& op == IRBinOp::Eq || op == IRBinOp::NotEq
                &&& final(f)@ == string_op_code(old(f)@, op, lhs, rhs)
                &&& v == old(f)@.v(1)
            },
            Err(e) => {
                &&& op != IRBinOp::Eq && op != IRBinOp::NotEq
                &&& final(f)@ == old(f)@
                &&& says(e, not_on_strings(op))
            },
        },
{
    let pred = match op {
        IRBinOp::Eq => Pred::Ne,
        IRBinOp::NotEq => Pred::Eq,
        _ => {
            return Err(
                LlvmError::Codegen(
                    concat3(
                        "LLVM emit: `",
                        operator_name(op),
                        "` is not defined for `String` operands (typecheck violation)",
                    ),
                ),
            );
        },
    };
    let equal = f.ins(call(Rt::StringEq, a2(lhs, rhs)));
    Ok(f.ins(itest(pred, equal, num(0))))
}

/// A binary operator, by the type of its operands.
pub open spec fn binary_op_code(
    s: Code,
    op: IRBinOp,
    operand_ty: IRType,
    lhs: Val,
    rhs: Val,
    texts: &FaultTexts,
) -> (Code, Val) {
    match operand_ty {
        IRType::Float32 | IRType::Float64 => (
            float_op_code(s, op, value_type(operand_ty), lhs, rhs, texts.non_finite@),
            s.v(0),
        ),
        IRType::String => (string_op_code(s, op, lhs, rhs), s.v(1)),
        _ => int_op_code(
            s,
            op,
            operand_ty,
            lhs,
            rhs,
            texts.overflow@,
            texts.division_by_zero@,
        ),
    }
}

/// The operator is defined on the operand type.
pub open spec fn binary_op_ok(op: IRBinOp, operand_ty: IRType) -> bool {
    operand_ty == IRType::String ==> op == IRBinOp::Eq || op == IRBinOp::NotEq
}

/// Emits a binary operator.
pub fn emit_binary_op(
    f: &mut Body,
    op: IRBinOp,
    operand_ty: IRType,
    lhs: Val,
    rhs: Val,
    texts: &FaultTexts,
) -> (r: Result<Val, LlvmError>)
    ensures
        match r {
            Ok(v) => binary_op_ok(op, operand_ty) && (final(f)@, v) == binary_op_code(
                old(f)@,
                op,
                operand_ty,
                lhs,
                rhs,
                texts,
            ),
            Err(e) => !binary_op_ok(op, operand_ty) && says(e, not_on_strings(op)) && final(f)@ == old(f)@,
        },
{
    match operand_ty {
        IRType::Float32 | IRType::Float64 => Ok(
            emit_float_binary_op(
                f,
                op,
                value_basic_type(operand_ty),
                lhs,
                rhs,
                texts.non_finite.as_str(),
            ),
        ),
        IRType::String => emit_string_binary_op(f, op, lhs, rhs),
        _ => Ok(emit_int_binary_op(f, op, operand_ty, lhs, rhs, texts)),
    }
}

/// How a sized numeric widens: signed integers sign-extend, unsigned ones
/// zero-extend, a single float extends.
pub open spec fn widening(from: IRType, to: IRType) -> Option<(CastOp, LType)> {
    match from {
        IRType::Float32 => Some((CastOp::FPExt, LType::F64)),
        IRType::Int8 | IRType::Int16 | IRType::Int32 => Some((CastOp::SExt, value_type(to))),
        IRType::UInt8 | IRType::UInt16 | IRType::UInt32 => Some((CastOp::ZExt, value_type(to))),
        _ => None,
    }
}

/// What is said of a source that does not widen.
pub open spec fn no_widening(from: IRType) -> Seq<char> {
    "LLVM emit: NumericWiden source must be a widenable sized numeric, got `"@ + shape_text(from)
        + "` (typecheck violation)"@
}

/// Emits a lossless widening.
pub fn emit_numeric_widen(f: &mut Body, from: IRType, to: IRType, value: Val) -> (r: Result<
    Val,
    LlvmError,
>)
    ensures
        match r {
            Ok(v) => {
                &&& widening(from, to) matches Some((op, ty)) && final(f)@ == old(f)@.i(
                    Inst::Cast(op, value_type(from), value, ty),
                )
                &&& v == old(f)@.v(0)
            },
            Err(e) => widening(from, to) is None && says(e, no_widening(from)) && final(f)@
                == old(f)@,
        },
{
    let (op, ty) = match from {
        IRType::Float32 => (CastOp::FPExt, LType::F64),
        IRType::Int8 | IRType::Int16 | IRType::Int32 => (CastOp::SExt, value_basic_type(to)),
        IRType::UInt8 | IRType::UInt16 | IRType::UInt32 => (CastOp::ZExt, value_basic_type(to)),
        _ => {
            return Err(
                LlvmError::Codegen(
                    concat3(
                        "LLVM emit: NumericWiden source must be a widenable sized numeric, got `",
                        shape_name(from),
                        "` (typecheck violation)",
                    ),
                ),
            );
        },
    };
    Ok(f.ins(Inst::Cast(op, value_basic_type(from), value, ty)))
}

/// A unary operator: integer negation panics on the least value, float
/// negation never does, `not` flips the bits of an integer.
pub open spec fn unary_op_code(
    s: Code,
    op: IRUnaryOp,
    operand_ty: IRType,
    operand: Val,
    overflow: Seq<char>,
) -> (Code, Val) {
    let ty = value_type(operand_ty);
    match op {
        IRUnaryOp::Neg => if operand_ty == IRType::Float32 || operand_ty == IRType::Float64 {
            (s.i(Inst::FNeg(ty, operand)), s.v(0))
        } else {
            let g = fault_guard_code(
                s.i(Inst::ITest(Pred::Eq, ty, operand, num(least(ty)))),
                s.v(0),
                overflow,
            );
            (g.i(Inst::Neg(ty, operand)), g.v(0))
        },
        IRUnaryOp::Not => (s.i(Inst::Not(ty, operand)), s.v(0)),
    }
}

/// The operator is defined on the operand type: `not` is not, on floats.
pub open spec fn unary_op_ok(op: IRUnaryOp, operand_ty: IRType) -> bool {
    operand_ty == IRType::Float32 || operand_ty == IRType::Float64 ==> op == IRUnaryOp::Neg
}

/// Emits a unary operator.
pub fn emit_unary_op(
    f: &mut Body,
    op: IRUnaryOp,
    operand_ty: IRType,
    operand: Val,
    overflow: &str,
) -> (r: Result<Val, LlvmError>)
    ensures
        match r {
            Ok(v) => unary_op_ok(op, operand_ty) && (final(f)@, v) == unary_op_code(
                old(f)@,
                op,
                operand_ty,
                operand,
                overflow@,
            ),
            Err(e) => !unary_op_ok(op, operand_ty) && says(e, not_on_floats()) && final(f)@ == old(f)@,
        },
{
    let ty = value_basic_type(operand_ty);
    match operand_ty {
        IRType::Float32 | IRType::Float64 => match op {
            IRUnaryOp::Neg => Ok(f.ins(Inst::FNeg(ty, operand))),
            IRUnaryOp::Not => Err(
                LlvmError::Codegen(
                    "LLVM emit: `not` is Bool-only, float operand should never reach this path (typecheck violation)".to_owned(),
                ),
            ),
        },
        _ => Ok(emit_int_unary_op(f, op, ty, operand, overflow)),
    }
}

/// Emits a unary operator on an integer.
fn emit_int_unary_op(f: &mut Body, op: IRUnaryOp, ty: LType, operand: Val, overflow: &str) -> (r: Val)
    ensures
        op == IRUnaryOp::Neg ==> {
            let g = fault_guard_code(
                old(f)@.i(Inst::ITest(Pred::Eq, ty, operand, num(least(ty)))),
                old(f)@.v(0),
                overflow@,
            );
            final(f)@ == g.i(Inst::Neg(ty, operand)) && r == g.v(0)
        },
        op == IRUnaryOp::Not ==> final(f)@ == old(f)@.i(Inst::Not(ty, operand)) && r == old(f)@.v(0),
{
    match op {
        IRUnaryOp::Neg => {
            let is_min = f.ins(Inst::ITest(Pred::Eq, ty, operand, num(int_min(ty))));
            emit_fault_guard(f, is_min, overflow);
            f.ins(Inst::Neg(ty, operand))
        },
        IRUnaryOp::Not => f.ins(Inst::Not(ty, operand)),
    }
}

} // verus!
