//! `Debug.format`: each receiver shape goes to one runtime helper that
//! returns a fresh string payload. Signed integers sign-extend, unsigned
//! ones and `Bool` zero-extend.

use vstd::prelude::*;
use crate::ctx::EmitContext;
use crate::error::{says, LlvmError};
use crate::intrinsics::hash::{widen_code, zero_extend};
use crate::intrinsics::params::{has_param, nth_float, nth_int, param_fault};
use crate::ir::{DebugImpl, IRFunction};
use crate::llvm::{a1, call, Body, CastOp, Code, Inst, LType, Val};
use crate::runtime::Rt;
use crate::types::{value_basic_type, value_type, width, width_of, Kind};

verus! {

/// The kind of receiver a `format` takes.
pub open spec fn format_kind(d: DebugImpl) -> Kind {
    match d {
        DebugImpl::Float | DebugImpl::Float32 => Kind::Float,
        _ => Kind::Int,
    }
}

/// The runtime helper of a `format`.
pub open spec fn format_helper(d: DebugImpl) -> Rt {
    match d {
        DebugImpl::Bool => Rt::FormatBool,
        DebugImpl::Float => Rt::FormatF64,
        DebugImpl::Float32 => Rt::FormatF32,
        DebugImpl::Signed => Rt::FormatI64,
        DebugImpl::Unsigned => Rt::FormatU64,
    }
}

/// The receiver as its helper takes it.
pub open spec fn format_arg_code(s: Code, ty: LType, d: DebugImpl) -> (Code, Val) {
    match d {
        DebugImpl::Float | DebugImpl::Float32 => (s, Val::Param(0)),
        DebugImpl::Signed => if width_of(ty) < 64 {
            (s.i(Inst::Cast(CastOp::SExt, ty, Val::Param(0), LType::I64)), s.v(0))
        } else {
            (s, Val::Param(0))
        },
        _ => widen_code(s, ty, Val::Param(0)),
    }
}

/// The body of a `format`.
#[verifier::opaque]
pub open spec fn format_code(s: Code, function: &IRFunction, d: DebugImpl) -> Code {
    let (a, arg) = format_arg_code(s, value_type(function.params@[0].ty), d);
    a.i(call(format_helper(d), a1(arg))).i(Inst::Ret(LType::Ptr, a.v(0)))
}

/// Emits a `format`.
pub fn emit_format(c: &EmitContext, function: &IRFunction, f: &mut Body, d: DebugImpl) -> (r: Result<
    (),
    LlvmError,
>)
    ensures
        match r {
            Ok(()) => has_param(function, 0, format_kind(d)) && final(f)@ == format_code(
                old(f)@,
                function,
                d,
            ),
            Err(e) => !has_param(function, 0, format_kind(d)) && says(
                e,
                param_fault(c, function, 0, "self"@, format_kind(d)),
            ) && final(f)@ == old(f)@,
        },
{
    proof {
        reveal(format_code);
    }
    let (arg, helper) = match d {
        DebugImpl::Float => (nth_float(c, function, 0, "self")?, Rt::FormatF64),
        DebugImpl::Float32 => (nth_float(c, function, 0, "self")?, Rt::FormatF32),
        DebugImpl::Bool => {
            let raw = nth_int(c, function, 0, "self")?;
            (zero_extend(f, value_basic_type(function.params[0].ty), raw), Rt::FormatBool)
        },
        DebugImpl::Unsigned => {
            let raw = nth_int(c, function, 0, "self")?;
            (zero_extend(f, value_basic_type(function.params[0].ty), raw), Rt::FormatU64)
        },
        DebugImpl::Signed => {
            let raw = nth_int(c, function, 0, "self")?;
            let ty = value_basic_type(function.params[0].ty);
            let wide = if width(ty) < 64 {
                f.ins(Inst::Cast(CastOp::SExt, ty, raw, LType::I64))
            } else {
                raw
            };
            (wide, Rt::FormatI64)
        },
    };
    let payload = f.ins(call(helper, a1(arg)));
    f.ins(Inst::Ret(LType::Ptr, payload));
    Ok(())
}

} // verus!
