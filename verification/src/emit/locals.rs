//! Local slots: declaring, reading, writing and dropping them.

use vstd::prelude::*;
use crate::emit::clone::{composite_without_glue, needs_glue};
use crate::emit::closures::{drop_closure_code, emit_drop_closure_value};
use crate::emit::frame::{undefined_local, Frame, Scope};
use crate::emit::heap_layout::{emit_rc_dec, rc_dec_code};
use crate::error::{says, LlvmError};
use crate::ir::{IRLocalId, IRType};
use crate::llvm::{Body, Code, Inst, Val};
use crate::types::{value_basic_type, value_type};

verus! {

/// The declaration of a local: its slot, unless it is placed already, and
/// the zero it starts from.
pub open spec fn local_decl_code(s: Code, sc: Scope, local: IRLocalId, ty: IRType) -> (Code, Scope) {
    match sc.local(local) {
        Some(slot) => (s.i(Inst::Store(value_type(ty), Val::Zero, slot)), sc),
        None => (
            s.slot(value_type(ty)).i(Inst::Store(value_type(ty), Val::Zero, s.sv(0))),
            sc.place(local, s.sv(0)),
        ),
    }
}

/// Emits the declaration of a local.
pub fn emit_local_decl(f: &mut Body, fr: &mut Frame, local: IRLocalId, ty: IRType)
    ensures
        (final(f)@, final(fr)@) == local_decl_code(old(f)@, old(fr)@, local, ty),
{
    let lt = value_basic_type(ty);
    match fr.try_local_slot(local) {
        Some(slot) => {
            f.ins(Inst::Store(lt, Val::Zero, slot));
        },
        None => {
            let slot = f.slot(lt);
            fr.register_local_slot(local, slot);
            f.ins(Inst::Store(lt, Val::Zero, slot));
        },
    }
}

/// Emits the read of a local.
pub fn emit_local_read(f: &mut Body, fr: &Frame, local: IRLocalId, ty: IRType) -> (r: Result<
    Val,
    LlvmError,
>)
    ensures
        match r {
            Ok(v) => fr@.local(local) matches Some(slot) && final(f)@ == old(f)@.i(
                Inst::Load(value_type(ty), slot),
            ) && v == old(f)@.v(0),
            Err(e) => fr@.local(local) is None && says(e, undefined_local(local)) && final(f)@
                == old(f)@,
        },
{
    let slot = fr.local_slot(local)?;
    Ok(f.ins(Inst::Load(value_basic_type(ty), slot)))
}

/// Emits the write of a local.
pub fn emit_local_write(f: &mut Body, fr: &Frame, local: IRLocalId, ty: IRType, value: Val) -> (r:
    Result<(), LlvmError>)
    ensures
        match r {
            Ok(()) => fr@.local(local) matches Some(slot) && final(f)@ == old(f)@.i(
                Inst::Store(value_type(ty), value, slot),
            ),
            Err(e) => fr@.local(local) is None && says(e, undefined_local(local)) && final(f)@
                == old(f)@,
        },
{
    let slot = fr.local_slot(local)?;
    f.ins(Inst::Store(value_basic_type(ty), value, slot));
    Ok(())
}

/// How a value is dropped: a heap leaf and a closure lose an owner, an
/// aggregate without glue needs nothing, and there is no way to drop
/// anything else here.
pub open spec fn drop_value_code(s: Code, ty: IRType, value: Val) -> Option<Code> {
    match ty {
        IRType::Binary | IRType::Bits | IRType::String => Some(rc_dec_code(s, value)),
        IRType::Function(_) => Some(drop_closure_code(s, value)),
        IRType::Enum(_) | IRType::Struct(_) | IRType::Union(_) => Some(s),
        _ => None,
    }
}

/// Emits the drop of a value.
pub fn emit_drop_value(f: &mut Body, ty: IRType, value: Val) -> (r: Result<(), LlvmError>)
    ensures
        match r {
            Ok(()) => drop_value_code(old(f)@, ty, value) == Some(final(f)@),
            Err(e) => drop_value_code(old(f)@, ty, value) is None && says(e, needs_glue(ty)),
        },
{
    match ty {
        IRType::Binary | IRType::Bits | IRType::String => {
            emit_rc_dec(f, value);
            Ok(())
        },
        IRType::Function(_) => {
            emit_drop_closure_value(f, value);
            Ok(())
        },
        IRType::Enum(_) | IRType::Struct(_) | IRType::Union(_) => Ok(()),
        _ => Err(composite_without_glue(ty)),
    }
}

/// How a local is dropped: what it holds is read and dropped. An
/// aggregate without glue is not even read.
pub open spec fn drop_local_code(s: Code, sc: Scope, local: IRLocalId, ty: IRType) -> Option<Code> {
    match ty {
        IRType::Binary | IRType::Bits | IRType::String | IRType::Function(_) => match sc.local(
            local,
        ) {
            Some(slot) => drop_value_code(s.i(Inst::Load(value_type(ty), slot)), ty, s.v(0)),
            None => None,
        },
        _ => drop_value_code(s, ty, Val::Undef),
    }
}

/// What is said of a local that cannot be dropped.
pub open spec fn drop_local_fault(local: IRLocalId, ty: IRType) -> Seq<char> {
    match ty {
        IRType::Binary | IRType::Bits | IRType::String | IRType::Function(_) => undefined_local(local),
        _ => needs_glue(ty),
    }
}

/// Emits the drop of a local.
pub fn emit_drop_local(f: &mut Body, fr: &Frame, local: IRLocalId, ty: IRType) -> (r: Result<
    (),
    LlvmError,
>)
    ensures
        match r {
            Ok(()) => drop_local_code(old(f)@, fr@, local, ty) == Some(final(f)@),
            Err(e) => drop_local_code(old(f)@, fr@, local, ty) is None && says(
                e,
                drop_local_fault(local, ty),
            ),
        },
{
    match ty {
        IRType::Binary | IRType::Bits | IRType::String | IRType::Function(_) => {
            let value = emit_local_read(f, fr, local, ty)?;
            emit_drop_value(f, ty, value)
        },
        _ => emit_drop_value(f, ty, Val::Undef),
    }
}

} // verus!
