//! Boxed slots: `Indirect(T)` values live in an rc block of their own,
//! addressed by its payload pointer.

use vstd::prelude::*;
use crate::ctx::EmitContext;
use crate::emit::heap_layout::{
    block_alloc_size, block_base, block_base_code, init_heap_block, init_heap_block_code, overhead,
};
use crate::intrinsics::element::{release_in_slot, release_in_slot_code};
use crate::ir::{IRIndirectSlot, IRType};
use crate::llvm::{a1, call, iadd, itest, is_null, num, Body, Code, Inst, LType, Pred, Val};
use crate::runtime::Rt;
use crate::types::{value_basic_type, value_type};

verus! {

/// A fresh rc block that holds `value`.
pub open spec fn box_value_code(c: &EmitContext, s: Code, inner: IRType, value: Val) -> Code {
    let size = num(c.abi(value_type(inner)));
    init_heap_block_code(
        s.i(iadd(size, num(overhead(false)))).i(call(Rt::Malloc, a1(s.v(0)))),
        s.v(1),
        size,
    ).i(Inst::Store(value_type(inner), value, s.v(5)))
}

/// Allocates a fresh rc block for `inner`, stamped with one owner, copies
/// `value` into it and gives its payload pointer.
pub fn emit_box_value(c: &EmitContext, f: &mut Body, inner: IRType, value: Val) -> (r: Val)
    ensures
        final(f)@ == box_value_code(c, old(f)@, inner, value),
        r == old(f)@.v(5),
{
    let ty = value_basic_type(inner);
    let size = num(c.abi_size(ty));
    let total = block_alloc_size(f, size, false);
    let base = f.ins(call(Rt::Malloc, a1(total)));
    let payload = init_heap_block(f, base, size);
    f.ins(Inst::Store(ty, value, payload));
    payload
}

/// Releases one reference to a box. Null is left alone. The last owner
/// releases the contents and frees the block; any other takes one from
/// its count.
pub open spec fn release_box_code(c: &EmitContext, s: Code, inner: IRType, payload: Val) -> Code {
    let checked = block_base_code(
        s.word("box_check"@).word("box_last"@).word("box_dec"@).word("box_done"@)
            .i(is_null(payload))
            .i(Inst::CondBr(s.v(0), s.b(3), s.b(0)))
            .at(s.b(0)),
        payload,
    )
        .i(Inst::Load(LType::I64, s.v(4)))
        .i(itest(Pred::Eq, s.v(5), num(1)))
        .i(Inst::CondBr(s.v(6), s.b(1), s.b(2)))
        .at(s.b(1));
    release_in_slot_code(c, checked, inner, payload)
        .i(call(Rt::Free, a1(s.v(4))))
        .i(Inst::Br(s.b(3)))
        .at(s.b(2))
        .i(call(Rt::RcDec, a1(s.v(4))))
        .i(Inst::Br(s.b(3)))
        .at(s.b(3))
}

/// Releases one reference to the box whose payload pointer is `payload`.
pub fn emit_release_box(c: &EmitContext, f: &mut Body, inner: IRType, payload: Val)
    ensures
        final(f)@ == release_box_code(c, old(f)@, inner, payload),
{
    let check_block = f.block("box_check");
    let last_block = f.block("box_last");
    let dec_block = f.block("box_dec");
    let done_block = f.block("box_done");
    let null = f.ins(is_null(payload));
    f.ins(Inst::CondBr(null, done_block, check_block));

    f.at(check_block);
    let base = block_base(f, payload);
    let rc = f.ins(Inst::Load(LType::I64, base));
    let unique = f.ins(itest(Pred::Eq, rc, num(1)));
    f.ins(Inst::CondBr(unique, last_block, dec_block));

    f.at(last_block);
    release_in_slot(c, f, inner, payload);
    f.ins(call(Rt::Free, a1(base)));
    f.ins(Inst::Br(done_block));

    f.at(dec_block);
    f.ins(call(Rt::RcDec, a1(base)));
    f.ins(Inst::Br(done_block));

    f.at(done_block);
}

/// Loads the value behind a box pointer.
pub fn emit_unbox_value(f: &mut Body, inner: IRType, ptr: Val) -> (r: Val)
    ensures
        final(f)@ == old(f)@.i(Inst::Load(value_type(inner), ptr)),
        r == old(f)@.v(0),
{
    f.ins(Inst::Load(value_basic_type(inner), ptr))
}

/// The box pointer held by a slot of `base`.
pub open spec fn indirect_pointer_code(s: Code, base: Val, slot: IRIndirectSlot) -> (Code, Val) {
    match slot {
        IRIndirectSlot::EnumPayload { payload_index, tag, ty } => (
            s.slot(LType::Enum(ty))
                .i(Inst::Store(LType::Enum(ty), base, s.sv(0)))
                .i(Inst::Field(LType::Variant(ty, tag.0), s.sv(0), 2))
                .i(Inst::Field(LType::Payload(ty, tag.0), s.v(1), payload_index))
                .i(Inst::Load(LType::Ptr, s.v(2))),
            s.v(3),
        ),
        IRIndirectSlot::StructField { field_index, struct_symbol } => (
            s.slot(LType::Struct(struct_symbol))
                .i(Inst::Store(LType::Struct(struct_symbol), base, s.sv(0)))
                .i(Inst::Field(LType::Struct(struct_symbol), s.sv(0), field_index))
                .i(Inst::Load(LType::Ptr, s.v(1))),
            s.v(2),
        ),
    }
}

/// Spills `base` and loads the box pointer of one of its slots.
pub fn indirect_pointer(f: &mut Body, base: Val, slot: IRIndirectSlot) -> (r: Val)
    ensures
        (final(f)@, r) == indirect_pointer_code(old(f)@, base, slot),
{
    match slot {
        IRIndirectSlot::EnumPayload { payload_index, tag, ty } => {
            let spill = f.slot(LType::Enum(ty));
            f.ins(Inst::Store(LType::Enum(ty), base, spill));
            let payload = f.ins(Inst::Field(LType::Variant(ty, tag.0), spill, 2));
            let field = f.ins(Inst::Field(LType::Payload(ty, tag.0), payload, payload_index));
            load_box_pointer(f, field)
        },
        IRIndirectSlot::StructField { field_index, struct_symbol } => {
            let spill = f.slot(LType::Struct(struct_symbol));
            f.ins(Inst::Store(LType::Struct(struct_symbol), base, spill));
            let field = f.ins(Inst::Field(LType::Struct(struct_symbol), spill, field_index));
            load_box_pointer(f, field)
        },
    }
}

fn load_box_pointer(f: &mut Body, slot: Val) -> (r: Val)
    ensures
        final(f)@ == old(f)@.i(Inst::Load(LType::Ptr, slot)),
        r == old(f)@.v(0),
{
    f.ins(Inst::Load(LType::Ptr, slot))
}

/// Whether a boxed slot of `base` holds a box.
pub open spec fn indirect_present_code(s: Code, base: Val, slot: IRIndirectSlot) -> (Code, Val) {
    let (p, ptr) = indirect_pointer_code(s, base, slot);
    (p.i(Inst::ITest(Pred::Ne, LType::Ptr, ptr, Val::Null)), p.v(0))
}

/// Tests whether a boxed slot of `base` holds a box.
pub fn emit_indirect_present(f: &mut Body, base: Val, slot: IRIndirectSlot) -> (r: Val)
    ensures
        (final(f)@, r) == indirect_present_code(old(f)@, base, slot),
{
    let ptr = indirect_pointer(f, base, slot);
    f.ins(Inst::ITest(Pred::Ne, LType::Ptr, ptr, Val::Null))
}

} // verus!
