//! Bitwise methods of the integer types. A shift count comes as an
//! `Int`, and LLVM wants it in the operand's type, so it is truncated to
//! the operand's width first. The right shift of a signed type is
//! arithmetic, of an unsigned one logical.

use vstd::prelude::*;
use crate::ctx::EmitContext;
use crate::error::{says, LlvmError};
use crate::intrinsics::params::{has_param, nth_int, param_fault};
use crate::ir::{BitOp, IRFunction};
use crate::llvm::{BinOp, Body, CastOp, Code, Inst, LType, Val};
use crate::types::{value_basic_type, value_type, Kind};

verus! {

/// The function can be the method: an integer receiver and, but for the
/// complement, an integer operand.
#[verifier::opaque]
pub open spec fn bitwise_ok(function: &IRFunction, op: BitOp) -> bool {
    has_param(function, 0, Kind::Int) && (op != BitOp::Bnot ==> has_param(function, 1, Kind::Int))
}

/// The second operand of a shift, in the receiver's type.
pub open spec fn shift_count_code(s: Code, ty: LType, count_ty: LType) -> (Code, Val) {
    if count_ty == ty {
        (s, Val::Param(1))
    } else {
        (s.i(Inst::Cast(CastOp::Trunc, count_ty, Val::Param(1), ty)), s.v(0))
    }
}

/// Brings the second operand of a shift to the receiver's type.
pub fn shift_count(f: &mut Body, ty: LType, count_ty: LType) -> (r: Val)
    ensures
        (final(f)@, r) == shift_count_code(old(f)@, ty, count_ty),
{
    if count_ty == ty {
        Val::Param(1)
    } else {
        f.ins(Inst::Cast(CastOp::Trunc, count_ty, Val::Param(1), ty))
    }
}

/// The body of a bitwise method.
#[verifier::opaque]
pub open spec fn bitwise_code(s: Code, function: &IRFunction, op: BitOp, signed: bool) -> Code {
    let ty = value_type(function.params@[0].ty);
    let count_ty = value_type(function.params@[1].ty);
    let (c, n) = shift_count_code(s, ty, count_ty);
    match op {
        BitOp::Band => s.i(Inst::Bin(BinOp::And, ty, Val::Param(0), Val::Param(1))).i(
            Inst::Ret(ty, s.v(0)),
        ),
        BitOp::Bor => s.i(Inst::Bin(BinOp::Or, ty, Val::Param(0), Val::Param(1))).i(
            Inst::Ret(ty, s.v(0)),
        ),
        BitOp::Bxor => s.i(Inst::Bin(BinOp::Xor, ty, Val::Param(0), Val::Param(1))).i(
            Inst::Ret(ty, s.v(0)),
        ),
        BitOp::Bnot => s.i(Inst::Not(ty, Val::Param(0))).i(Inst::Ret(ty, s.v(0))),
        BitOp::Bsl => c.i(Inst::Bin(BinOp::Shl, ty, Val::Param(0), n)).i(Inst::Ret(ty, c.v(0))),
        BitOp::Bsr => c.i(
            Inst::Bin(if signed { BinOp::AShr } else { BinOp::LShr }, ty, Val::Param(0), n),
        ).i(Inst::Ret(ty, c.v(0))),
    }
}

/// Emits a bitwise method.
pub fn emit_bitwise(
    c: &EmitContext,
    function: &IRFunction,
    f: &mut Body,
    op: BitOp,
    signed: bool,
) -> (r: Result<(), LlvmError>)
    ensures
        match r {
            Ok(()) => bitwise_ok(function, op) && final(f)@ == bitwise_code(
                old(f)@,
                function,
                op,
                signed,
            ),
            Err(e) => !bitwise_ok(function, op) && says(
                e,
                if has_param(function, 0, Kind::Int) {
                    param_fault(c, function, 1, "other"@, Kind::Int)
                } else {
                    param_fault(c, function, 0, "self"@, Kind::Int)
                },
            ) && final(f)@ == old(f)@,
        },
{
    proof {
        reveal(bitwise_ok);
        reveal(bitwise_code);
    }
    let lhs = nth_int(c, function, 0, "self")?;
    let ty = value_basic_type(function.params[0].ty);
    if op == BitOp::Bnot {
        let flipped = f.ins(Inst::Not(ty, lhs));
        f.ins(Inst::Ret(ty, flipped));
        return Ok(());
    }
    let rhs = nth_int(c, function, 1, "other")?;
    let result = match op {
        BitOp::Band => f.ins(Inst::Bin(BinOp::And, ty, lhs, rhs)),
        BitOp::Bor => f.ins(Inst::Bin(BinOp::Or, ty, lhs, rhs)),
        BitOp::Bsl => {
            let n = shift_count(f, ty, value_basic_type(function.params[1].ty));
            f.ins(Inst::Bin(BinOp::Shl, ty, lhs, n))
        },
        BitOp::Bsr => {
            let n = shift_count(f, ty, value_basic_type(function.params[1].ty));
            let form = if signed { BinOp::AShr } else { BinOp::LShr };
            f.ins(Inst::Bin(form, ty, lhs, n))
        },
        _ => f.ins(Inst::Bin(BinOp::Xor, ty, lhs, rhs)),
    };
    f.ins(Inst::Ret(ty, result));
    Ok(())
}

} // verus!
