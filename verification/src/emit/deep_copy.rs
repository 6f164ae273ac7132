//! `DeepCopy`: the copy a value gets when it crosses a process boundary.
//! Where a clone shares a block, a deep copy shares no storage with its
//! source. Collections, boxes and heap-owning tuples never come here:
//! copying one is a call of its deep-copy glue.

use vstd::prelude::*;
use crate::emit::clone::{composite_without_glue, needs_glue};
use crate::emit::closures::{env_ptr_code, load_closure_env_ptr};
use crate::error::{says, LlvmError};
use crate::ir::IRType;
use crate::llvm::{a1, call, Body, Code, Inst, LType, Val};
use crate::runtime::Rt;

verus! {

/// A closure value with another environment: spilled, its environment
/// overwritten, and loaded again.
pub open spec fn rebuild_code(s: Code, closure: Val, env: Val) -> Code {
    s.slot(LType::Closure)
        .i(Inst::Store(LType::Closure, closure, s.sv(0)))
        .i(Inst::Field(LType::Closure, s.sv(0), 1))
        .i(Inst::Store(LType::Ptr, env, s.v(1)))
        .i(Inst::Load(LType::Closure, s.sv(0)))
}

/// Gives a closure value another environment.
pub fn rebuild_fat_pointer(f: &mut Body, closure: Val, env: Val) -> (r: Val)
    ensures
        final(f)@ == rebuild_code(old(f)@, closure, env),
        r == old(f)@.v(3),
{
    let slot = f.slot(LType::Closure);
    f.ins(Inst::Store(LType::Closure, closure, slot));
    let env_slot = f.ins(Inst::Field(LType::Closure, slot, 1));
    f.ins(Inst::Store(LType::Ptr, env, env_slot));
    f.ins(Inst::Load(LType::Closure, slot))
}

/// How a value is deep-copied: nothing for a collection or a box.
pub open spec fn deep_copy_code(s: Code, ty: IRType, value: Val) -> Option<(Code, Val)> {
    match ty {
        IRType::Binary | IRType::Bits | IRType::String => Some(
            (s.i(call(Rt::HeapDeepCopy, a1(value))), s.v(0)),
        ),
        IRType::Function(_) => Some(
            (
                rebuild_code(
                    env_ptr_code(s, value).i(call(Rt::ClosureDeepCopy, a1(s.v(2)))),
                    value,
                    s.v(3),
                ),
                s.v(7),
            ),
        ),
        IRType::Indirect(_) | IRType::List(_) | IRType::MapOf(_, _) | IRType::SetOf(_) => None,
        _ => Some((s, value)),
    }
}

/// Emits a deep copy.
pub fn emit_deep_copy(f: &mut Body, ty: IRType, value: Val) -> (r: Result<Val, LlvmError>)
    ensures
        match r {
            Ok(v) => deep_copy_code(old(f)@, ty, value) == Some((final(f)@, v)),
            Err(e) => deep_copy_code(old(f)@, ty, value) is None && says(e, needs_glue(ty)),
        },
{
    match ty {
        IRType::Binary | IRType::Bits | IRType::String => Ok(
            f.ins(call(Rt::HeapDeepCopy, a1(value))),
        ),
        IRType::Function(_) => {
            let env = load_closure_env_ptr(f, value);
            let fresh = f.ins(call(Rt::ClosureDeepCopy, a1(env)));
            Ok(rebuild_fat_pointer(f, value, fresh))
        },
        IRType::Indirect(_) | IRType::List(_) | IRType::MapOf(_, _) | IRType::SetOf(_) => Err(
            composite_without_glue(ty),
        ),
        _ => Ok(value),
    }
}

} // verus!
