//! Explicit numeric conversions. The checked ones test the receiver
//! against the target's bounds under signed comparison and give
//! `NumericConversionError.OutOfRange` outside them.

use vstd::prelude::*;
use crate::ctx::EmitContext;
use crate::error::{says, LlvmError};
use crate::intrinsics::params::{has_param, nth_float, nth_int, param_fault};
use crate::intrinsics::result::{
    resolve_unit_error, result_fault, ret_ok, ret_ok_code, ret_unit_error, ret_unit_error_code,
    return_symbol, returns_result, unit_error, unit_error_fault,
};
use crate::ir::{IRFunction, IRSymbol, IRType, IntNarrowTarget, NumericConvert};
use crate::llvm::{itest, num, BinOp, Body, CastOp, Code, Inst, LType, Pred, Val};
use crate::semantics::{bit, recording_keeps_values, signed_value};
use crate::types::Kind;

verus! {

/// Inclusive signed bounds of a checked conversion.
pub open spec fn bounds(convert: NumericConvert) -> (int, int) {
    match convert {
        NumericConvert::IntNarrow(target) => match target {
            IntNarrowTarget::Int8 => (-0x80, 0x7f),
            IntNarrowTarget::Int16 => (-0x8000, 0x7fff),
            IntNarrowTarget::Int32 => (-0x8000_0000, 0x7fff_ffff),
            IntNarrowTarget::UInt8 => (0, 0xff),
            IntNarrowTarget::UInt16 => (0, 0xffff),
            IntNarrowTarget::UInt32 => (0, 0xffff_ffff),
            IntNarrowTarget::UInt64 => (0, 0x7fff_ffff_ffff_ffff),
        },
        _ => (0, 0x7fff_ffff_ffff_ffff),
    }
}

/// Inclusive signed bounds of a checked conversion.
pub fn checked_bounds(convert: NumericConvert) -> (r: (i64, i64))
    ensures
        r.0 == bounds(convert).0,
        r.1 == bounds(convert).1,
{
    match convert {
        NumericConvert::IntNarrow(target) => match target {
            IntNarrowTarget::Int8 => (-0x80, 0x7f),
            IntNarrowTarget::Int16 => (-0x8000, 0x7fff),
            IntNarrowTarget::Int32 => (-0x8000_0000, 0x7fff_ffff),
            IntNarrowTarget::UInt8 => (0, 0xff),
            IntNarrowTarget::UInt16 => (0, 0xffff),
            IntNarrowTarget::UInt32 => (0, 0xffff_ffff),
            IntNarrowTarget::UInt64 => (0, 0x7fff_ffff_ffff_ffff),
        },
        _ => (0, 0x7fff_ffff_ffff_ffff),
    }
}

/// `min <= value <= max` under signed comparison.
pub open spec fn range_check_code(s: Code, convert: NumericConvert, value: Val) -> Code {
    s.i(itest(Pred::Sge, value, num(bounds(convert).0 as i64 as u64)))
        .i(itest(Pred::Sle, value, num(bounds(convert).1 as i64 as u64)))
        .i(Inst::Bin(BinOp::And, LType::I1, s.v(0), s.v(1)))
}

/// Emits the range check of a conversion.
pub fn emit_range_check(f: &mut Body, convert: NumericConvert, value: Val) -> (r: Val)
    ensures
        final(f)@ == range_check_code(old(f)@, convert, value),
        r == old(f)@.v(2),
{
    let (min, max) = checked_bounds(convert);
    let above = f.ins(itest(Pred::Sge, value, num(min as u64)));
    let below = f.ins(itest(Pred::Sle, value, num(max as u64)));
    f.ins(Inst::Bin(BinOp::And, LType::I1, above, below))
}

/// The range check of a conversion holds exactly of the numbers within its
/// bounds.
pub proof fn range_check_is_exact(
    s: Code,
    env: spec_fn(Val) -> u64,
    convert: NumericConvert,
    value: Val,
)
    requires
        s.room(3),
        s.defines(value),
    ensures
        ({
            let x = signed_value(LType::I64, s.value(env, value));
            range_check_code(s, convert, value).value(env, s.v(2)) == bit(
                bounds(convert).0 <= x <= bounds(convert).1,
            )
        }),
{
    let (lo, hi) = bounds(convert);
    let above = itest(Pred::Sge, value, num(lo as i64 as u64));
    let below = itest(Pred::Sle, value, num(hi as i64 as u64));
    recording_keeps_values(s, env, above);
    let c1 = s.i(above);
    recording_keeps_values(c1, env, below);
    let c2 = c1.i(below);
    recording_keeps_values(c2, env, Inst::Bin(BinOp::And, LType::I1, s.v(0), s.v(1)));
    signed_bits(lo as i64);
    signed_bits(hi as i64);
    assert(0u64 & 0 == 0 && 0u64 & 1 == 0 && 1u64 & 0 == 0 && 1u64 & 1 == 1) by (bit_vector);
}

/// The bits of a signed number stand for it.
proof fn signed_bits(x: i64)
    ensures
        signed_value(LType::I64, x as u64) == x,
{
    assert(x >= 0 ==> x as u64 == x) by (bit_vector);
    assert(x < 0 ==> x as u64 == 0x1_0000_0000_0000_0000 + x) by (bit_vector);
}

/// The LLVM type a conversion gives.
pub open spec fn target_type(convert: NumericConvert) -> LType {
    match convert {
        NumericConvert::IntNarrow(target) => match target {
            IntNarrowTarget::Int8 | IntNarrowTarget::UInt8 => LType::I8,
            IntNarrowTarget::Int16 | IntNarrowTarget::UInt16 => LType::I16,
            IntNarrowTarget::Int32 | IntNarrowTarget::UInt32 => LType::I32,
            IntNarrowTarget::UInt64 => LType::I64,
        },
        NumericConvert::UInt64ToInt => LType::I64,
        NumericConvert::FloatToFloat32 => LType::F32,
    }
}

/// The receiver in the target's width.
pub open spec fn narrow_code(s: Code, ty: LType) -> (Code, Val) {
    if ty == LType::I64 {
        (s, Val::Param(0))
    } else {
        (s.i(Inst::Cast(CastOp::Trunc, LType::I64, Val::Param(0), ty)), s.v(0))
    }
}

/// A checked conversion. The blocks are ok and err.
pub open spec fn checked_convert_code(
    c: &EmitContext,
    s: Code,
    convert: NumericConvert,
    result: IRSymbol,
) -> Code {
    let t = range_check_code(s, convert, Val::Param(0));
    let (n, narrowed) = narrow_code(
        t.word("ok"@).word("err"@).i(Inst::CondBr(s.v(2), s.b(0), s.b(1))).at(s.b(0)),
        target_type(convert),
    );
    ret_unit_error_code(
        c,
        ret_ok_code(c, n, result, narrowed).at(s.b(1)),
        result,
        unit_error(c, result, "OutOfRange"@)->0,
    )
}

/// The function can be the conversion.
#[verifier::opaque]
pub open spec fn convert_ok(c: &EmitContext, function: &IRFunction, convert: NumericConvert) -> bool {
    if convert == NumericConvert::FloatToFloat32 {
        has_param(function, 0, Kind::Float)
    } else {
        &&& has_param(function, 0, Kind::Int)
        &&& returns_result(c, function)
        &&& function.return_type matches IRType::Enum(r) && unit_error(c, r, "OutOfRange"@) is Some
    }
}

/// What is said of a function that cannot be the conversion.
pub open spec fn convert_fault(c: &EmitContext, function: &IRFunction, convert: NumericConvert) -> Seq<
    char,
> {
    if convert == NumericConvert::FloatToFloat32 {
        param_fault(c, function, 0, "self"@, Kind::Float)
    } else if !has_param(function, 0, Kind::Int) {
        param_fault(c, function, 0, "self"@, Kind::Int)
    } else if !returns_result(c, function) {
        result_fault(c, function, "numeric convert"@)
    } else {
        unit_error_fault(c, function, "OutOfRange"@)
    }
}

/// The body of a conversion.
#[verifier::opaque]
pub open spec fn convert_code(
    c: &EmitContext,
    s: Code,
    function: &IRFunction,
    convert: NumericConvert,
) -> Code {
    if convert == NumericConvert::FloatToFloat32 {
        s.i(Inst::Cast(CastOp::FPTrunc, LType::F64, Val::Param(0), LType::F32)).i(
            Inst::Ret(LType::F32, s.v(0)),
        )
    } else {
        checked_convert_code(c, s, convert, function.return_type->Enum_0)
    }
}

/// Emits a conversion.
pub fn emit_numeric_convert(
    c: &EmitContext,
    function: &IRFunction,
    f: &mut Body,
    convert: NumericConvert,
) -> (r: Result<(), LlvmError>)
    ensures
        match r {
            Ok(()) => convert_ok(c, function, convert) && final(f)@ == convert_code(
                c,
                old(f)@,
                function,
                convert,
            ),
            Err(e) => !convert_ok(c, function, convert) && says(
                e,
                convert_fault(c, function, convert),
            ) && final(f)@ == old(f)@,
        },
{
    proof {
        reveal(convert_ok);
        reveal(convert_code);
    }
    if convert == NumericConvert::FloatToFloat32 {
        let value = nth_float(c, function, 0, "self")?;
        let narrowed = f.ins(Inst::Cast(CastOp::FPTrunc, LType::F64, value, LType::F32));
        f.ins(Inst::Ret(LType::F32, narrowed));
        return Ok(());
    }
    let value = nth_int(c, function, 0, "self")?;
    let result = return_symbol(c, function, "numeric convert")?;
    let error = resolve_unit_error(c, function, result, "OutOfRange")?;
    let in_range = emit_range_check(f, convert, value);
    let ok_bb = f.block("ok");
    let err_bb = f.block("err");
    f.ins(Inst::CondBr(in_range, ok_bb, err_bb));

    f.at(ok_bb);
    let ty = match convert {
        NumericConvert::IntNarrow(target) => match target {
            IntNarrowTarget::Int8 | IntNarrowTarget::UInt8 => LType::I8,
            IntNarrowTarget::Int16 | IntNarrowTarget::UInt16 => LType::I16,
            IntNarrowTarget::Int32 | IntNarrowTarget::UInt32 => LType::I32,
            IntNarrowTarget::UInt64 => LType::I64,
        },
        _ => LType::I64,
    };
    let narrowed = if ty == LType::I64 {
        value
    } else {
        f.ins(Inst::Cast(CastOp::Trunc, LType::I64, value, ty))
    };
    ret_ok(c, f, result, narrowed);

    f.at(err_bb);
    ret_unit_error(c, f, result, error);
    Ok(())
}

} // verus!
