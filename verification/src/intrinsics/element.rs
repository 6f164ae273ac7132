//! Canonical per-element acquire and release under value semantics,
//! shared by the places that walk a collection's backing buffer.
//!
//! Acquiring an element makes a freshly copied slot own an independent
//! reference; releasing one hands that reference back:
//!
//! - a heap leaf (`String` / `Binary` / `Bits`) moves its count;
//! - a composite that carries glue goes through it;
//! - anything else needs nothing: the copy already is independent.

use vstd::prelude::*;
use crate::ctx::{EmitContext, GlueKind};
use crate::emit::heap_layout::{
    emit_rc_dec, emit_rc_inc, heap_leaf, is_heap_leaf, rc_dec_code, rc_inc_code,
};
use crate::ir::IRType;
use crate::llvm::{a1, call, call_fn, gep, iadd, itest, imul, num, Body, Code, Inst, LType, Pred, Val};
use crate::runtime::Rt;
use crate::types::{value_basic_type, value_type};

verus! {

/// Acquiring an element held as a value, and the value to go on with.
pub open spec fn acquire_value_code(
    c: &EmitContext,
    s: Code,
    element: IRType,
    value: Val,
) -> (Code, Val) {
    if heap_leaf(element) {
        (rc_inc_code(s, value), value)
    } else {
        match c.glue_of(GlueKind::Clone, element) {
            Some(k) => (s.i(call_fn(k, a1(value))), s.v(0)),
            None => (s, value),
        }
    }
}

/// Acquires an element held as a value: a heap leaf passes through after
/// its increment, a composite becomes an independent clone, anything else
/// passes through untouched.
pub fn acquire_value(c: &EmitContext, f: &mut Body, element: IRType, value: Val) -> (r: Val)
    ensures
        (final(f)@, r) == acquire_value_code(c, old(f)@, element, value),
{
    if is_heap_leaf(element) {
        emit_rc_inc(f, value);
        value
    } else {
        match c.glue(GlueKind::Clone, element) {
            Some(k) => f.ins(call_fn(k, a1(value))),
            None => value,
        }
    }
}

/// Acquiring the element in a slot.
pub open spec fn acquire_in_slot_code(c: &EmitContext, s: Code, element: IRType, slot: Val) -> Code {
    if heap_leaf(element) {
        rc_inc_code(s.i(Inst::Load(LType::Ptr, slot)), s.v(0))
    } else {
        match c.glue_of(GlueKind::Clone, element) {
            Some(k) => s.i(Inst::Load(value_type(element), slot))
                .i(call_fn(k, a1(s.v(0))))
                .i(Inst::Store(value_type(element), s.v(1), slot)),
            None => s,
        }
    }
}

/// Acquires the element in a slot of a freshly copied buffer: a heap leaf
/// gets one more owner, a composite is overwritten with its clone.
pub fn acquire_in_slot(c: &EmitContext, f: &mut Body, element: IRType, slot: Val)
    ensures
        final(f)@ == acquire_in_slot_code(c, old(f)@, element, slot),
{
    if is_heap_leaf(element) {
        let payload = load_pointer(f, slot);
        emit_rc_inc(f, payload);
    } else {
        match c.glue(GlueKind::Clone, element) {
            Some(k) => {
                let ty = value_basic_type(element);
                let held = f.ins(Inst::Load(ty, slot));
                let cloned = f.ins(call_fn(k, a1(held)));
                f.ins(Inst::Store(ty, cloned, slot));
            },
            None => {},
        }
    }
}

/// Severing the element in a slot from the storage it was copied from.
pub open spec fn deep_copy_in_slot_code(
    c: &EmitContext,
    s: Code,
    element: IRType,
    slot: Val,
) -> Code {
    if heap_leaf(element) {
        s.i(Inst::Load(LType::Ptr, slot))
            .i(call(Rt::HeapDeepCopy, a1(s.v(0))))
            .i(Inst::Store(LType::Ptr, s.v(1), slot))
    } else {
        match c.glue_of(GlueKind::DeepCopy, element) {
            Some(k) => s.i(Inst::Load(value_type(element), slot))
                .i(call_fn(k, a1(s.v(0))))
                .i(Inst::Store(value_type(element), s.v(1), slot)),
            None => s,
        }
    }
}

/// Replaces the element in a slot by a copy that shares no storage.
pub fn deep_copy_in_slot(c: &EmitContext, f: &mut Body, element: IRType, slot: Val)
    ensures
        final(f)@ == deep_copy_in_slot_code(c, old(f)@, element, slot),
{
    if is_heap_leaf(element) {
        let payload = load_pointer(f, slot);
        let fresh = f.ins(call(Rt::HeapDeepCopy, a1(payload)));
        f.ins(Inst::Store(LType::Ptr, fresh, slot));
    } else {
        match c.glue(GlueKind::DeepCopy, element) {
            Some(k) => {
                let ty = value_basic_type(element);
                let held = f.ins(Inst::Load(ty, slot));
                let fresh = f.ins(call_fn(k, a1(held)));
                f.ins(Inst::Store(ty, fresh, slot));
            },
            None => {},
        }
    }
}

/// Releasing the element in a slot.
pub open spec fn release_in_slot_code(c: &EmitContext, s: Code, element: IRType, slot: Val) -> Code {
    if heap_leaf(element) {
        rc_dec_code(s.i(Inst::Load(LType::Ptr, slot)), s.v(0))
    } else {
        match c.glue_of(GlueKind::Drop, element) {
            Some(k) => s.i(Inst::Load(value_type(element), slot)).i(call_fn(k, a1(s.v(0)))),
            None => s,
        }
    }
}

/// Releases the element in a slot: a heap leaf loses an owner, a
/// composite goes through its drop glue.
pub fn release_in_slot(c: &EmitContext, f: &mut Body, element: IRType, slot: Val)
    ensures
        final(f)@ == release_in_slot_code(c, old(f)@, element, slot),
{
    if is_heap_leaf(element) {
        let payload = load_pointer(f, slot);
        emit_rc_dec(f, payload);
    } else {
        match c.glue(GlueKind::Drop, element) {
            Some(k) => {
                let value = f.ins(Inst::Load(value_basic_type(element), slot));
                f.ins(call_fn(k, a1(value)));
            },
            None => {},
        }
    }
}

/// What is done to every element of a buffer.
#[derive(Clone, Copy, Debug, PartialEq, Eq, Structural)]
pub enum Walk {
    Acquire,
    DeepCopy,
    Release,
}

/// The step of a walk on one slot.
pub open spec fn walk_slot_code(
    c: &EmitContext,
    s: Code,
    walk: Walk,
    element: IRType,
    slot: Val,
) -> Code {
    match walk {
        Walk::Acquire => acquire_in_slot_code(c, s, element, slot),
        Walk::DeepCopy => deep_copy_in_slot_code(c, s, element, slot),
        Walk::Release => release_in_slot_code(c, s, element, slot),
    }
}

/// Takes the step of a walk on one slot.
pub fn walk_slot(c: &EmitContext, f: &mut Body, walk: Walk, element: IRType, slot: Val)
    ensures
        final(f)@ == walk_slot_code(c, old(f)@, walk, element, slot),
{
    match walk {
        Walk::Acquire => acquire_in_slot(c, f, element, slot),
        Walk::DeepCopy => deep_copy_in_slot(c, f, element, slot),
        Walk::Release => release_in_slot(c, f, element, slot),
    }
}

/// Whether an element carries any acquire or release work: a heap leaf,
/// or a composite with clone glue.
pub open spec fn heap_owner(c: &EmitContext, element: IRType) -> bool {
    heap_leaf(element) || c.glue_of(GlueKind::Clone, element) is Some
}

/// Whether an element carries any acquire or release work.
pub fn owns_heap(c: &EmitContext, element: IRType) -> (r: bool)
    ensures
        r == heap_owner(c, element),
{
    is_heap_leaf(element) || c.glue(GlueKind::Clone, element).is_some()
}

/// The head of a `for index in 0..count` loop: the counter slot, the
/// guard, and the way into the body. The blocks are head, body and exit.
pub open spec fn loop_begin(s: Code, count: Val) -> Code {
    s.slot(LType::I64)
        .i(Inst::Store(LType::I64, num(0), s.sv(0)))
        .word("head"@).word("body"@).word("exit"@)
        .i(Inst::Br(s.b(0)))
        .at(s.b(0))
        .i(Inst::Load(LType::I64, s.sv(0)))
        .i(itest(Pred::Ult, s.v(2), count))
        .i(Inst::CondBr(s.v(3), s.b(1), s.b(2)))
        .at(s.b(1))
}

/// The tail of the loop that began at `s`: the step and the back edge.
pub open spec fn loop_end(s: Code, body: Code) -> Code {
    body.i(iadd(s.v(2), num(1)))
        .i(Inst::Store(LType::I64, body.v(0), s.sv(0)))
        .i(Inst::Br(s.b(0)))
        .at(s.b(2))
}

/// An open `for index in 0..count` loop.
#[derive(Clone, Copy, Debug, PartialEq, Eq, Structural)]
pub struct IndexLoop {
    pub counter: Val,
    pub head: usize,
    pub exit: usize,
    pub index: Val,
}

/// The loop that begins at `s`.
pub open spec fn loop_at(s: Code) -> IndexLoop {
    IndexLoop { counter: s.sv(0), head: s.b(0), exit: s.b(2), index: s.v(2) }
}

/// Opens a `for index in 0..count` loop and goes on in its body.
pub fn index_loop(f: &mut Body, count: Val) -> (r: IndexLoop)
    ensures
        final(f)@ == loop_begin(old(f)@, count),
        r == loop_at(old(f)@),
{
    let counter = f.slot(LType::I64);
    f.ins(Inst::Store(LType::I64, num(0), counter));
    let head = f.block("head");
    let body = f.block("body");
    let exit = f.block("exit");
    f.ins(Inst::Br(head));
    f.at(head);
    let index = f.ins(Inst::Load(LType::I64, counter));
    let in_range = f.ins(itest(Pred::Ult, index, count));
    f.ins(Inst::CondBr(in_range, body, exit));
    f.at(body);
    IndexLoop { counter, head, exit, index }
}

impl IndexLoop {
    /// Closes the loop and goes on behind it.
    pub fn close(self, f: &mut Body)
        ensures
            forall|s: Code| self == loop_at(s) ==> final(f)@ == #[trigger] loop_end(s, old(f)@),
    {
        let next = f.ins(iadd(self.index, num(1)));
        f.ins(Inst::Store(LType::I64, next, self.counter));
        f.ins(Inst::Br(self.head));
        f.at(self.exit);
    }
}

/// The address of element `index` in a buffer.
pub open spec fn element_slot_code(s: Code, buf: Val, index: Val, size: Val) -> Code {
    s.i(imul(index, size)).i(gep(buf, s.v(0)))
}

/// The address of element `index` in a buffer.
pub fn element_slot(f: &mut Body, buf: Val, index: Val, size: Val) -> (r: Val)
    ensures
        final(f)@ == element_slot_code(old(f)@, buf, index, size),
        r == old(f)@.v(1),
{
    let offset = f.ins(imul(index, size));
    f.ins(gep(buf, offset))
}

/// A walk over `buf[0..count]`, left out where the element owns no heap.
pub open spec fn walk_buffer_code(
    c: &EmitContext,
    s: Code,
    walk: Walk,
    element: IRType,
    buf: Val,
    count: Val,
    size: Val,
) -> Code {
    if heap_owner(c, element) {
        let b = loop_begin(s, count);
        loop_end(
            s,
            walk_slot_code(c, element_slot_code(b, buf, s.v(2), size), walk, element, b.v(1)),
        )
    } else {
        s
    }
}

/// Walks every element of `buf[0..count]`, a contiguous element array.
pub fn walk_buffer(
    c: &EmitContext,
    f: &mut Body,
    walk: Walk,
    element: IRType,
    buf: Val,
    count: Val,
    size: Val,
)
    ensures
        final(f)@ == walk_buffer_code(c, old(f)@, walk, element, buf, count, size),
{
    if owns_heap(c, element) {
        let l = index_loop(f, count);
        let slot = element_slot(f, buf, l.index, size);
        walk_slot(c, f, walk, element, slot);
        l.close(f);
    }
}

/// Acquires every element of `buf[0..count]`.
pub fn acquire_buffer(
    c: &EmitContext,
    f: &mut Body,
    element: IRType,
    buf: Val,
    count: Val,
    size: Val,
)
    ensures
        final(f)@ == walk_buffer_code(c, old(f)@, Walk::Acquire, element, buf, count, size),
{
    walk_buffer(c, f, Walk::Acquire, element, buf, count, size);
}

/// Releases every element of `buf[0..count]`.
pub fn release_buffer(
    c: &EmitContext,
    f: &mut Body,
    element: IRType,
    buf: Val,
    count: Val,
    size: Val,
)
    ensures
        final(f)@ == walk_buffer_code(c, old(f)@, Walk::Release, element, buf, count, size),
{
    walk_buffer(c, f, Walk::Release, element, buf, count, size);
}

fn load_pointer(f: &mut Body, slot: Val) -> (r: Val)
    ensures
        final(f)@ == old(f)@.i(Inst::Load(LType::Ptr, slot)),
        r == old(f)@.v(0),
{
    f.ins(Inst::Load(LType::Ptr, slot))
}

} // verus!
