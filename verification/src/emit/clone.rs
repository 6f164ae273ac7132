//! `Clone`: the acquiring half of value semantics. Heap leaves, boxes
//! and closure environments get one more owner; everything else that
//! comes here is a register copy. Collections never do: cloning one is a
//! call of its clone glue.

use vstd::prelude::*;
use crate::emit::closures::{env_ptr_code, load_closure_env_ptr};
use crate::emit::heap_layout::{emit_rc_inc, rc_inc_code};
use crate::error::{says, LlvmError};
use crate::ir::IRType;
use crate::llvm::{a1, call, Body, Code, Val};
use crate::runtime::Rt;
use crate::text::concat3;
use crate::types::{shape_name, shape_text};

verus! {

/// How a value is cloned: nothing for a collection.
pub open spec fn clone_code(s: Code, ty: IRType, value: Val) -> Option<Code> {
    match ty {
        IRType::Binary | IRType::Bits | IRType::Indirect(_) | IRType::String => Some(
            rc_inc_code(s, value),
        ),
        IRType::Function(_) => Some(env_ptr_code(s, value).i(call(Rt::RcInc, a1(s.v(2))))),
        IRType::List(_) | IRType::MapOf(_, _) | IRType::SetOf(_) => None,
        _ => Some(s),
    }
}

/// What is said of a composite that needs glue.
pub open spec fn needs_glue(ty: IRType) -> Seq<char> {
    "composite of type `"@ + shape_text(ty) + "` reached the backend without its glue call"@
}

/// An error about a composite that needs glue.
pub fn composite_without_glue(ty: IRType) -> (r: LlvmError)
    ensures
        says(r, needs_glue(ty)),
{
    LlvmError::Codegen(
        concat3(
            "composite of type `",
            shape_name(ty),
            "` reached the backend without its glue call",
        ),
    )
}

/// Emits a clone. The clone is the same operand as the source.
pub fn emit_clone(f: &mut Body, ty: IRType, value: Val) -> (r: Result<Val, LlvmError>)
    ensures
        match r {
            Ok(v) => clone_code(old(f)@, ty, value) == Some(final(f)@) && v == value,
            Err(e) => clone_code(old(f)@, ty, value) is None && says(e, needs_glue(ty)),
        },
{
    match ty {
        IRType::Binary | IRType::Bits | IRType::Indirect(_) | IRType::String => {
            emit_rc_inc(f, value);
        },
        IRType::Function(_) => {
            let env = load_closure_env_ptr(f, value);
            f.ins(call(Rt::RcInc, a1(env)));
        },
        IRType::List(_) | IRType::MapOf(_, _) | IRType::SetOf(_) => {
            return Err(composite_without_glue(ty));
        },
        _ => {},
    }
    Ok(value)
}

} // verus!
