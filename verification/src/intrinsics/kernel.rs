//! `Kernel.panic` and the adoption of runtime blocks.

use vstd::prelude::*;
use crate::ctx::EmitContext;
use crate::error::{says, LlvmError};
use crate::intrinsics::heap_payload::pointer_param;
use crate::intrinsics::params::{has_param, missing, nth_param, param_fault};
use crate::ir::IRFunction;
use crate::llvm::{a1, call, Body, Inst, LType, Val};
use crate::runtime::Rt;
use crate::types::Kind;

verus! {

/// Emits `Kernel.panic(message)`: a call that does not come back.
pub fn emit_panic(c: &EmitContext, function: &IRFunction, f: &mut Body) -> (r: Result<(), LlvmError>)
    ensures
        match r {
            Ok(()) => function.params@.len() > 0 && final(f)@ == old(f)@.i(
                call(Rt::Panic, a1(Val::Param(0))),
            ).i(Inst::Unreachable),
            Err(e) => function.params@.len() == 0 && says(e, missing(c, function, 0, "message"@))
                && final(f)@ == old(f)@,
        },
{
    let message = nth_param(c, function, 0, "message")?;
    f.ins(call(Rt::Panic, a1(message)));
    f.ins(Inst::Unreachable);
    Ok(())
}

/// Emits the adoption of a block that the runtime allocated: its payload
/// pointer already is a `Binary`.
pub fn emit_adopt_binary(c: &EmitContext, function: &IRFunction, f: &mut Body) -> (r: Result<
    (),
    LlvmError,
>)
    ensures
        match r {
            Ok(()) => has_param(function, 0, Kind::Pointer) && final(f)@ == old(f)@.i(
                Inst::Ret(LType::Ptr, Val::Param(0)),
            ),
            Err(e) => !has_param(function, 0, Kind::Pointer) && says(
                e,
                param_fault(c, function, 0, "self"@, Kind::Pointer),
            ) && final(f)@ == old(f)@,
        },
{
    let payload = pointer_param(c, function)?;
    f.ins(Inst::Ret(LType::Ptr, payload));
    Ok(())
}

} // verus!
