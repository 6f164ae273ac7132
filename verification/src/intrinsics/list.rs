//! `List<T>` methods: a heap-backed dynamic array `{ buf, len, cap }`,
//! passed by value. Every method that writes builds a fresh buffer.

use vstd::prelude::*;
use crate::ctx::EmitContext;
use crate::emit::enums::{build_single_value, build_unit_value, enum_value_code};
use crate::error::{says, LlvmError};
use crate::intrinsics::element::{
    acquire_buffer, acquire_value, acquire_value_code, element_slot, element_slot_code,
    release_in_slot, release_in_slot_code, walk_buffer, walk_buffer_code, Walk,
};
use crate::intrinsics::hashtable::read::{OPTION_NONE, OPTION_SOME};
use crate::intrinsics::map::{is_option, option_shape};
use crate::intrinsics::params::{expect_enum_symbol, has_param, missing, not_enum, nth_int, nth_param, nth_struct, param_fault};
use crate::ir::{IRFunction, IRSymbol, IRType, IRVariantTag, ListMethod};
use crate::llvm::{
    a1, a3, call, gep, iadd, itest, imul, isub, num, Body, Code, Inst, LType, Pred, Val,
};
use crate::runtime::Rt;
use crate::text::{concat3, concat5};
use crate::types::{
    ir_basic_type, no_unit, shape_name, shape_text, value_basic_type, value_type, Kind,
};

verus! {

/// Buffer capacity of `List.new`.
pub const INITIAL_CAPACITY: u64 = 8;

/// The allocation size of an element.
pub open spec fn size_of(element: IRType) -> Val {
    Val::SizeOf(value_type(element))
}

fn element_byte_size(element: IRType) -> (r: Val)
    ensures
        r == size_of(element),
{
    Val::SizeOf(value_basic_type(element))
}

/// The list value `{ buf, len, cap }`.
pub open spec fn list_struct_code(s: Code, buf: Val, len: Val, cap: Val) -> Code {
    s.i(Inst::Insert(LType::List, Val::Undef, LType::Ptr, buf, 0))
        .i(Inst::Insert(LType::List, s.v(0), LType::I64, len, 1))
        .i(Inst::Insert(LType::List, s.v(1), LType::I64, cap, 2))
}

/// Packs a list value.
pub fn build_list_struct(f: &mut Body, buf: Val, len: Val, cap: Val) -> (r: Val)
    ensures
        final(f)@ == list_struct_code(old(f)@, buf, len, cap),
        r == old(f)@.v(2),
{
    let a = f.ins(Inst::Insert(LType::List, Val::Undef, LType::Ptr, buf, 0));
    let b = f.ins(Inst::Insert(LType::List, a, LType::I64, len, 1));
    f.ins(Inst::Insert(LType::List, b, LType::I64, cap, 2))
}

/// Returning a list value made of a buffer that is exactly full.
pub open spec fn ret_list_code(s: Code, buf: Val, len: Val) -> Code {
    list_struct_code(s, buf, len, len).i(Inst::Ret(LType::List, s.v(2)))
}

fn ret_list(f: &mut Body, buf: Val, len: Val)
    ensures
        final(f)@ == ret_list_code(old(f)@, buf, len),
{
    let list = build_list_struct(f, buf, len, len);
    f.ins(Inst::Ret(LType::List, list));
}

/// A fresh buffer of `new_cap` elements that holds owned copies of the
/// first `copy_count` elements of `src`.
pub open spec fn copy_buffer_code(
    c: &EmitContext,
    s: Code,
    walk: Walk,
    element: IRType,
    src: Val,
    copy_count: Val,
    new_cap: Val,
    size: Val,
) -> Code {
    walk_buffer_code(
        c,
        s.i(imul(new_cap, size))
            .i(call(Rt::Malloc, a1(s.v(0))))
            .i(imul(copy_count, size))
            .i(call(Rt::Memcpy, a3(s.v(1), src, s.v(2)))),
        walk,
        element,
        s.v(1),
        copy_count,
        size,
    )
}

/// Copies a buffer. Every mutator builds a new buffer instead of touching
/// its source, and each copied element is acquired so that both buffers
/// can be dropped on their own.
pub fn copy_buffer(
    c: &EmitContext,
    f: &mut Body,
    walk: Walk,
    element: IRType,
    src: Val,
    copy_count: Val,
    new_cap: Val,
    size: Val,
) -> (r: Val)
    ensures
        final(f)@ == copy_buffer_code(c, old(f)@, walk, element, src, copy_count, new_cap, size),
        r == old(f)@.v(1),
{
    let alloc_bytes = f.ins(imul(new_cap, size));
    let new_buf = f.ins(call(Rt::Malloc, a1(alloc_bytes)));
    let copy_bytes = f.ins(imul(copy_count, size));
    f.ins(call(Rt::Memcpy, a3(new_buf, src, copy_bytes)));
    walk_buffer(c, f, walk, element, new_buf, copy_count, size);
    new_buf
}

/// `List.new`: an empty list with room for eight elements.
pub open spec fn new_code(s: Code, element: IRType) -> Code {
    let t = s.i(imul(num(INITIAL_CAPACITY), size_of(element))).i(call(Rt::Malloc, a1(s.v(0))));
    list_struct_code(t, s.v(1), num(0), num(INITIAL_CAPACITY)).i(Inst::Ret(LType::List, t.v(2)))
}

/// Emits `List.new`.
pub fn emit_new(f: &mut Body, element: IRType)
    ensures
        final(f)@ == new_code(old(f)@, element),
{
    let cap = num(INITIAL_CAPACITY);
    let bytes = f.ins(imul(cap, element_byte_size(element)));
    let buf = f.ins(call(Rt::Malloc, a1(bytes)));
    let list = build_list_struct(f, buf, num(0), cap);
    f.ins(Inst::Ret(LType::List, list));
}

/// `List.length`.
pub open spec fn length_code(s: Code) -> Code {
    s.i(Inst::Extract(LType::List, Val::Param(0), 1)).i(Inst::Ret(LType::I64, s.v(0)))
}

/// Emits `List.length`.
pub fn emit_length(f: &mut Body)
    ensures
        final(f)@ == length_code(old(f)@),
{
    let len = f.ins(Inst::Extract(LType::List, Val::Param(0), 1));
    f.ins(Inst::Ret(LType::I64, len));
}

/// `List.empty?`.
pub open spec fn empty_q_code(s: Code) -> Code {
    s.i(Inst::Extract(LType::List, Val::Param(0), 1))
        .i(itest(Pred::Eq, s.v(0), num(0)))
        .i(Inst::Ret(LType::I1, s.v(1)))
}

/// Emits `List.empty?`.
pub fn emit_empty_q(f: &mut Body)
    ensures
        final(f)@ == empty_q_code(old(f)@),
{
    let len = f.ins(Inst::Extract(LType::List, Val::Param(0), 1));
    let is_empty = f.ins(itest(Pred::Eq, len, num(0)));
    f.ins(Inst::Ret(LType::I1, is_empty));
}

/// An owned copy of the receiver, returned.
pub open spec fn clone_list_code(c: &EmitContext, s: Code, element: IRType) -> Code {
    let e = s.i(Inst::Extract(LType::List, Val::Param(0), 0)).i(
        Inst::Extract(LType::List, Val::Param(0), 1),
    );
    ret_list_code(
        copy_buffer_code(c, e, Walk::Acquire, element, s.v(0), s.v(1), s.v(1), size_of(element)),
        e.v(1),
        s.v(1),
    )
}

/// Returns an independent copy of the receiver: the caller drops it, so
/// handing its own buffer back would free it twice.
pub fn clone_list_value(c: &EmitContext, f: &mut Body, element: IRType)
    ensures
        final(f)@ == clone_list_code(c, old(f)@, element),
{
    let buf = f.ins(Inst::Extract(LType::List, Val::Param(0), 0));
    let len = f.ins(Inst::Extract(LType::List, Val::Param(0), 1));
    let fresh = copy_buffer(c, f, Walk::Acquire, element, buf, len, len, element_byte_size(element));
    ret_list(f, fresh, len);
}

/// `List.append`: a copy one element longer, the acquired item at its
/// end.
pub open spec fn append_code(c: &EmitContext, s: Code, element: IRType) -> Code {
    let size = size_of(element);
    let (a, item) = acquire_value_code(c, s, element, Val::Param(1));
    let e = a.i(Inst::Extract(LType::List, Val::Param(0), 0))
        .i(Inst::Extract(LType::List, Val::Param(0), 1))
        .i(iadd(a.v(1), num(1)));
    let b = copy_buffer_code(c, e, Walk::Acquire, element, a.v(0), a.v(1), a.v(2), size);
    ret_list_code(
        b.i(imul(a.v(1), size))
            .i(gep(e.v(1), b.v(0)))
            .i(Inst::Store(value_type(element), item, b.v(1))),
        e.v(1),
        a.v(2),
    )
}

/// Emits `List.append`.
pub fn emit_append(c: &EmitContext, f: &mut Body, element: IRType)
    ensures
        final(f)@ == append_code(c, old(f)@, element),
{
    let size = element_byte_size(element);
    let item = acquire_value(c, f, element, Val::Param(1));
    let buf = f.ins(Inst::Extract(LType::List, Val::Param(0), 0));
    let len = f.ins(Inst::Extract(LType::List, Val::Param(0), 1));
    let new_len = f.ins(iadd(len, num(1)));
    let fresh = copy_buffer(c, f, Walk::Acquire, element, buf, len, new_len, size);
    let offset = f.ins(imul(len, size));
    let slot = f.ins(gep(fresh, offset));
    f.ins(Inst::Store(value_basic_type(element), item, slot));
    ret_list(f, fresh, new_len);
}

/// The bounds check of `List.get` and the element in bounds.
pub open spec fn get_load_code(s: Code, element: IRType) -> Code {
    s.word("ok"@).word("oob"@)
        .i(Inst::Extract(LType::List, Val::Param(0), 0))
        .i(Inst::Extract(LType::List, Val::Param(0), 1))
        .i(itest(Pred::Ult, Val::Param(1), s.v(1)))
        .i(Inst::CondBr(s.v(2), s.b(0), s.b(1)))
        .at(s.b(0))
        .i(imul(Val::Param(1), size_of(element)))
        .i(gep(s.v(0), s.v(4)))
        .i(Inst::Load(value_type(element), s.v(5)))
}

/// The element of `List.get`, acquired.
pub open spec fn get_item_code(c: &EmitContext, s: Code, element: IRType) -> (Code, Val) {
    acquire_value_code(c, get_load_code(s, element), element, s.v(6))
}

/// `List.get`: `Some` of an owned element where the index is below the
/// length, `None` elsewhere. The comparison is unsigned, so a negative
/// index is out of bounds. The blocks are in-bounds and out-of-bounds.
pub open spec fn get_code(c: &EmitContext, s: Code, element: IRType, option: IRSymbol) -> Code {
    let (a, value) = get_item_code(c, s, element);
    let (w, some) = enum_value_code(c, a, option, IRVariantTag(OPTION_SOME), seq![value]);
    let (n, none) = enum_value_code(
        c,
        w.i(Inst::Ret(LType::Enum(option), some)).at(s.b(1)),
        option,
        IRVariantTag(OPTION_NONE),
        seq![],
    );
    n.i(Inst::Ret(LType::Enum(option), none))
}

/// Emits `List.get`.
pub fn emit_get(c: &EmitContext, f: &mut Body, element: IRType, option: IRSymbol)
    requires
        option_shape(c, option),
    ensures
        final(f)@ == get_code(c, old(f)@, element, option),
{
    let ok_bb = f.block("ok");
    let oob_bb = f.block("oob");
    let buf = f.ins(Inst::Extract(LType::List, Val::Param(0), 0));
    let len = f.ins(Inst::Extract(LType::List, Val::Param(0), 1));
    let in_bounds = f.ins(itest(Pred::Ult, Val::Param(1), len));
    f.ins(Inst::CondBr(in_bounds, ok_bb, oob_bb));

    f.at(ok_bb);
    let offset = f.ins(imul(Val::Param(1), element_byte_size(element)));
    let slot = f.ins(gep(buf, offset));
    let raw = f.ins(Inst::Load(value_basic_type(element), slot));
    let value = acquire_value(c, f, element, raw);
    let some = build_single_value(c, f, option, IRVariantTag(OPTION_SOME), value);
    f.ins(Inst::Ret(LType::Enum(option), some));

    f.at(oob_bb);
    let none = build_unit_value(c, f, option, IRVariantTag(OPTION_NONE));
    f.ins(Inst::Ret(LType::Enum(option), none));
}

/// A pair built in a stack slot.
pub open spec fn tuple_code(
    s: Code,
    tuple: usize,
    first_ty: LType,
    first: Val,
    second_ty: LType,
    second: Val,
) -> Code {
    s.i(Inst::Alloca(LType::Tuple(tuple)))
        .i(Inst::Field(LType::Tuple(tuple), s.v(0), 0))
        .i(Inst::Store(first_ty, first, s.v(1)))
        .i(Inst::Field(LType::Tuple(tuple), s.v(0), 1))
        .i(Inst::Store(second_ty, second, s.v(3)))
        .i(Inst::Load(LType::Tuple(tuple), s.v(0)))
}

fn build_tuple(
    f: &mut Body,
    tuple: usize,
    first_ty: LType,
    first: Val,
    second_ty: LType,
    second: Val,
) -> (r: Val)
    ensures
        final(f)@ == tuple_code(old(f)@, tuple, first_ty, first, second_ty, second),
        r == old(f)@.v(5),
{
    let slot = f.ins(Inst::Alloca(LType::Tuple(tuple)));
    let first_ptr = f.ins(Inst::Field(LType::Tuple(tuple), slot, 0));
    f.ins(Inst::Store(first_ty, first, first_ptr));
    let second_ptr = f.ins(Inst::Field(LType::Tuple(tuple), slot, 1));
    f.ins(Inst::Store(second_ty, second, second_ptr));
    f.ins(Inst::Load(LType::Tuple(tuple), slot))
}

/// Returning an option and a list of exactly `len` elements as a pair.
pub open spec fn ret_pop_code(
    s: Code,
    tuple: usize,
    option: IRSymbol,
    popped: Val,
    buf: Val,
    len: Val,
) -> Code {
    let l = list_struct_code(s, buf, len, len);
    tuple_code(l, tuple, LType::Enum(option), popped, LType::List, s.v(2)).i(
        Inst::Ret(LType::Tuple(tuple), l.v(5)),
    )
}

fn ret_pop(f: &mut Body, tuple: usize, option: IRSymbol, popped: Val, buf: Val, len: Val)
    ensures
        final(f)@ == ret_pop_code(old(f)@, tuple, option, popped, buf, len),
{
    let list = build_list_struct(f, buf, len, len);
    let pair = build_tuple(f, tuple, LType::Enum(option), popped, LType::List, list);
    f.ins(Inst::Ret(LType::Tuple(tuple), pair));
}

/// `List.pop`: the owned last element and a copy without it, or `None`
/// and an empty copy. The blocks are empty and nonempty.
pub open spec fn pop_code(
    c: &EmitContext,
    s: Code,
    element: IRType,
    tuple: usize,
    option: IRSymbol,
) -> Code {
    let size = size_of(element);
    let (n, none) = enum_value_code(
        c,
        s.word("empty"@).word("nonempty"@)
            .i(Inst::Extract(LType::List, Val::Param(0), 0))
            .i(Inst::Extract(LType::List, Val::Param(0), 1))
            .i(itest(Pred::Eq, s.v(1), num(0)))
            .i(Inst::CondBr(s.v(2), s.b(0), s.b(1)))
            .at(s.b(0)),
        option,
        IRVariantTag(OPTION_NONE),
        seq![],
    );
    let empty = ret_pop_code(
        copy_buffer_code(c, n, Walk::Acquire, element, s.v(0), s.v(1), s.v(1), size),
        tuple,
        option,
        none,
        n.v(1),
        s.v(1),
    ).at(s.b(1));
    let (a, value) = acquire_value_code(
        c,
        empty.i(isub(s.v(1), num(1)))
            .i(imul(empty.v(0), size))
            .i(gep(s.v(0), empty.v(1)))
            .i(Inst::Load(value_type(element), empty.v(2))),
        element,
        empty.v(3),
    );
    let (w, some) = enum_value_code(c, a, option, IRVariantTag(OPTION_SOME), seq![value]);
    ret_pop_code(
        copy_buffer_code(c, w, Walk::Acquire, element, s.v(0), empty.v(0), empty.v(0), size),
        tuple,
        option,
        some,
        w.v(1),
        empty.v(0),
    )
}

/// Emits `List.pop`.
pub fn emit_pop(c: &EmitContext, f: &mut Body, element: IRType, tuple: usize, option: IRSymbol)
    requires
        option_shape(c, option),
    ensures
        final(f)@ == pop_code(c, old(f)@, element, tuple, option),
{
    let size = element_byte_size(element);
    let empty_bb = f.block("empty");
    let nonempty_bb = f.block("nonempty");
    let buf = f.ins(Inst::Extract(LType::List, Val::Param(0), 0));
    let len = f.ins(Inst::Extract(LType::List, Val::Param(0), 1));
    let is_empty = f.ins(itest(Pred::Eq, len, num(0)));
    f.ins(Inst::CondBr(is_empty, empty_bb, nonempty_bb));

    f.at(empty_bb);
    let none = build_unit_value(c, f, option, IRVariantTag(OPTION_NONE));
    let empty_buf = copy_buffer(c, f, Walk::Acquire, element, buf, len, len, size);
    ret_pop(f, tuple, option, none, empty_buf, len);

    f.at(nonempty_bb);
    let new_len = f.ins(isub(len, num(1)));
    let offset = f.ins(imul(new_len, size));
    let slot = f.ins(gep(buf, offset));
    let raw = f.ins(Inst::Load(value_basic_type(element), slot));
    let value = acquire_value(c, f, element, raw);
    let some = build_single_value(c, f, option, IRVariantTag(OPTION_SOME), value);
    let fresh = copy_buffer(c, f, Walk::Acquire, element, buf, new_len, new_len, size);
    ret_pop(f, tuple, option, some, fresh, new_len);
}

/// `List.replace_at`: a copy whose element at the index is released and
/// replaced by the acquired value; a plain copy where the index is out of
/// bounds. The blocks are in-bounds and done.
pub open spec fn replace_at_code(c: &EmitContext, s: Code, element: IRType) -> Code {
    let size = size_of(element);
    let e = s.word("in_bounds"@).word("done"@)
        .i(Inst::Extract(LType::List, Val::Param(0), 0))
        .i(Inst::Extract(LType::List, Val::Param(0), 1))
        .i(itest(Pred::Ult, Val::Param(1), s.v(1)))
        .i(Inst::CondBr(s.v(2), s.b(0), s.b(1)))
        .at(s.b(0));
    let b = copy_buffer_code(c, e, Walk::Acquire, element, s.v(0), s.v(1), s.v(1), size);
    let (a, value) = acquire_value_code(
        c,
        release_in_slot_code(
            c,
            element_slot_code(b, e.v(1), Val::Param(1), size),
            element,
            b.v(1),
        ),
        element,
        Val::Param(2),
    );
    clone_list_code(
        c,
        ret_list_code(a.i(Inst::Store(value_type(element), value, b.v(1))), e.v(1), s.v(1)).at(
            s.b(1),
        ),
        element,
    )
}

/// Emits `List.replace_at`.
pub fn emit_replace_at(c: &EmitContext, f: &mut Body, element: IRType)
    ensures
        final(f)@ == replace_at_code(c, old(f)@, element),
{
    let size = element_byte_size(element);
    let in_bounds_bb = f.block("in_bounds");
    let done_bb = f.block("done");
    let buf = f.ins(Inst::Extract(LType::List, Val::Param(0), 0));
    let len = f.ins(Inst::Extract(LType::List, Val::Param(0), 1));
    let in_bounds = f.ins(itest(Pred::Ult, Val::Param(1), len));
    f.ins(Inst::CondBr(in_bounds, in_bounds_bb, done_bb));

    f.at(in_bounds_bb);
    let fresh = copy_buffer(c, f, Walk::Acquire, element, buf, len, len, size);
    let slot = element_slot(f, fresh, Val::Param(1), size);
    release_in_slot(c, f, element, slot);
    let value = acquire_value(c, f, element, Val::Param(2));
    f.ins(Inst::Store(value_basic_type(element), value, slot));
    ret_list(f, fresh, len);

    f.at(done_bb);
    clone_list_value(c, f, element);
}

/// `List.slice`: an owned copy of the elements from the clamped start on,
/// as many as the clamped count says; a fresh empty list where that is
/// none. The blocks are nonempty and empty.
pub open spec fn slice_code(c: &EmitContext, s: Code, element: IRType) -> Code {
    let size = size_of(element);
    let full = ret_list_code(
        walk_buffer_code(
            c,
            s.word("nonempty"@).word("empty"@)
                .i(Inst::Extract(LType::List, Val::Param(0), 0))
                .i(Inst::Extract(LType::List, Val::Param(0), 1))
                .i(itest(Pred::Ult, Val::Param(1), s.v(1)))
                .i(Inst::Select(LType::I64, s.v(2), Val::Param(1), s.v(1)))
                .i(isub(s.v(1), s.v(3)))
                .i(itest(Pred::Ule, Val::Param(2), s.v(4)))
                .i(Inst::Select(LType::I64, s.v(5), Val::Param(2), s.v(4)))
                .i(itest(Pred::Ugt, s.v(6), num(0)))
                .i(Inst::CondBr(s.v(7), s.b(0), s.b(1)))
                .at(s.b(0))
                .i(imul(s.v(6), size))
                .i(call(Rt::Malloc, a1(s.v(9))))
                .i(imul(s.v(3), size))
                .i(gep(s.v(0), s.v(11)))
                .i(call(Rt::Memcpy, a3(s.v(10), s.v(12), s.v(9)))),
            Walk::Acquire,
            element,
            s.v(10),
            s.v(6),
            size,
        ),
        s.v(10),
        s.v(6),
    ).at(s.b(1));
    ret_list_code(full.i(call(Rt::Malloc, a1(num(0)))), full.v(0), num(0))
}

/// Emits `List.slice`.
pub fn emit_slice(c: &EmitContext, f: &mut Body, element: IRType)
    ensures
        final(f)@ == slice_code(c, old(f)@, element),
{
    let size = element_byte_size(element);
    let nonempty_bb = f.block("nonempty");
    let empty_bb = f.block("empty");
    let buf = f.ins(Inst::Extract(LType::List, Val::Param(0), 0));
    let len = f.ins(Inst::Extract(LType::List, Val::Param(0), 1));
    let start_ok = f.ins(itest(Pred::Ult, Val::Param(1), len));
    let start = f.ins(Inst::Select(LType::I64, start_ok, Val::Param(1), len));
    let remaining = f.ins(isub(len, start));
    let count_ok = f.ins(itest(Pred::Ule, Val::Param(2), remaining));
    let count = f.ins(Inst::Select(LType::I64, count_ok, Val::Param(2), remaining));
    let has_elems = f.ins(itest(Pred::Ugt, count, num(0)));
    f.ins(Inst::CondBr(has_elems, nonempty_bb, empty_bb));

    f.at(nonempty_bb);
    let bytes = f.ins(imul(count, size));
    let fresh = f.ins(call(Rt::Malloc, a1(bytes)));
    let offset = f.ins(imul(start, size));
    let src = f.ins(gep(buf, offset));
    f.ins(call(Rt::Memcpy, a3(fresh, src, bytes)));
    acquire_buffer(c, f, element, fresh, count, size);
    ret_list(f, fresh, count);

    f.at(empty_bb);
    let nothing = f.ins(call(Rt::Malloc, a1(num(0))));
    ret_list(f, nothing, num(0));
}

/// `List.concat`: owned copies of the receiver's elements, then of the
/// other list's.
pub open spec fn concat_code(c: &EmitContext, s: Code, element: IRType) -> Code {
    let size = size_of(element);
    let e = s.i(Inst::Extract(LType::List, Val::Param(0), 0))
        .i(Inst::Extract(LType::List, Val::Param(0), 1))
        .i(Inst::Extract(LType::List, Val::Param(1), 0))
        .i(Inst::Extract(LType::List, Val::Param(1), 1))
        .i(iadd(s.v(1), s.v(3)));
    let b = copy_buffer_code(c, e, Walk::Acquire, element, s.v(0), s.v(1), s.v(4), size);
    ret_list_code(
        walk_buffer_code(
            c,
            b.i(imul(s.v(1), size))
                .i(gep(e.v(1), b.v(0)))
                .i(imul(s.v(3), size))
                .i(call(Rt::Memcpy, a3(b.v(1), s.v(2), b.v(2)))),
            Walk::Acquire,
            element,
            b.v(1),
            s.v(3),
            size,
        ),
        e.v(1),
        s.v(4),
    )
}

/// Emits `List.concat`.
pub fn emit_concat(c: &EmitContext, f: &mut Body, element: IRType)
    ensures
        final(f)@ == concat_code(c, old(f)@, element),
{
    let size = element_byte_size(element);
    let self_ptr = f.ins(Inst::Extract(LType::List, Val::Param(0), 0));
    let self_len = f.ins(Inst::Extract(LType::List, Val::Param(0), 1));
    let other_ptr = f.ins(Inst::Extract(LType::List, Val::Param(1), 0));
    let other_len = f.ins(Inst::Extract(LType::List, Val::Param(1), 1));
    let total = f.ins(iadd(self_len, other_len));
    let fresh = copy_buffer(c, f, Walk::Acquire, element, self_ptr, self_len, total, size);
    let offset = f.ins(imul(self_len, size));
    let dst = f.ins(gep(fresh, offset));
    let bytes = f.ins(imul(other_len, size));
    f.ins(call(Rt::Memcpy, a3(dst, other_ptr, bytes)));
    acquire_buffer(c, f, element, dst, other_len, size);
    ret_list(f, fresh, total);
}

/// The type that names a method's instantiation.
pub open spec fn list_receiver(function: &IRFunction, method: ListMethod) -> Option<IRType> {
    if method == ListMethod::New {
        Some(function.return_type)
    } else if function.params@.len() > 0 {
        Some(function.params@[0].ty)
    } else {
        None
    }
}

/// The option that `pop` hands its element out in: the first element of
/// the returned pair.
pub open spec fn popped_option(c: &EmitContext, ty: IRType) -> Option<(usize, IRSymbol)> {
    match ty {
        IRType::Tuple(tuple) => if c.elements(tuple).len() > 0 {
            match c.elements(tuple)[0] {
                IRType::Enum(option) => Some((tuple, option)),
                _ => None,
            }
        } else {
            None
        },
        _ => None,
    }
}

/// The function is one whose body the method can be.
#[verifier::opaque]
pub open spec fn list_ok(c: &EmitContext, function: &IRFunction, method: ListMethod) -> bool {
    match list_receiver(function, method) {
        Some(IRType::List(t)) => {
            &&& c.node(t) != IRType::Unit
            &&& match method {
                ListMethod::New | ListMethod::Length | ListMethod::EmptyQ | ListMethod::FromList =>
                    true,
                ListMethod::Append => function.params@.len() > 1,
                ListMethod::Concat => has_param(function, 1, Kind::Aggregate),
                ListMethod::Get => has_param(function, 1, Kind::Int)
                    && (function.return_type matches IRType::Enum(o) && option_shape(c, o)),
                ListMethod::Pop => popped_option(c, function.return_type) matches Some((_, o))
                    && option_shape(c, o),
                ListMethod::ReplaceAt => has_param(function, 1, Kind::Int) && function.params@.len()
                    > 2,
                ListMethod::Slice => has_param(function, 1, Kind::Int) && has_param(
                    function,
                    2,
                    Kind::Int,
                ),
            }
        },
        _ => false,
    }
}

/// The body of a `List` method.
#[verifier::opaque]
pub open spec fn list_code(
    c: &EmitContext,
    s: Code,
    function: &IRFunction,
    method: ListMethod,
    element: IRType,
) -> Code {
    match method {
        ListMethod::Append => append_code(c, s, element),
        ListMethod::Concat => concat_code(c, s, element),
        ListMethod::EmptyQ => empty_q_code(s),
        ListMethod::FromList => clone_list_code(c, s, element),
        ListMethod::Get => get_code(c, s, element, function.return_type->Enum_0),
        ListMethod::Length => length_code(s),
        ListMethod::New => new_code(s, element),
        ListMethod::Pop => {
            let (tuple, option) = popped_option(c, function.return_type)->0;
            pop_code(c, s, element, tuple, option)
        },
        ListMethod::ReplaceAt => replace_at_code(c, s, element),
        ListMethod::Slice => slice_code(c, s, element),
    }
}

/// What is said of an ill-shaped list method.
pub open spec fn shape_fault(c: &EmitContext, function: &IRFunction, what: Seq<char>) -> Seq<char> {
    what + " (symbol `"@ + c.mangled(function.symbol) + "`"@ + ")"@
}

/// What is said of a `List.pop` that returns something else.
pub open spec fn popped_fault(c: &EmitContext, function: &IRFunction) -> Seq<char> {
    shape_fault(
        c,
        function,
        if function.return_type is Tuple {
            "List.pop expected an enum-typed element at index 0"@
        } else {
            "List.pop expected a tuple return type"@
        },
    )
}

/// What is said of a function that cannot be the `List` method.
pub open spec fn list_fault(c: &EmitContext, function: &IRFunction, method: ListMethod) -> Seq<char> {
    match list_receiver(function, method) {
        None => shape_fault(c, function, "List method has no receiver"@),
        Some(IRType::List(t)) => if c.node(t) == IRType::Unit {
            no_unit()
        } else {
            match method {
                ListMethod::Append => missing(c, function, 1, "item"@),
                ListMethod::Concat => param_fault(c, function, 1, "other"@, Kind::Aggregate),
                ListMethod::Get => if !(function.return_type is Enum) {
                    not_enum(c, function, "List.get"@, function.return_type)
                } else if !has_param(function, 1, Kind::Int) {
                    param_fault(c, function, 1, "index"@, Kind::Int)
                } else {
                    shape_fault(c, function, "List.get returns an ill-shaped option"@)
                },
                ListMethod::Pop => if popped_option(c, function.return_type) is None {
                    popped_fault(c, function)
                } else {
                    shape_fault(c, function, "List.pop returns an ill-shaped option"@)
                },
                ListMethod::ReplaceAt => if !has_param(function, 1, Kind::Int) {
                    param_fault(c, function, 1, "index"@, Kind::Int)
                } else {
                    missing(c, function, 2, "value"@)
                },
                ListMethod::Slice => if !has_param(function, 1, Kind::Int) {
                    param_fault(c, function, 1, "start"@, Kind::Int)
                } else {
                    param_fault(c, function, 2, "count"@, Kind::Int)
                },
                _ => ""@,
            }
        },
        Some(ty) => shape_fault(
            c,
            function,
            "expected a `List<T>` slot, got `"@ + shape_text(ty) + "`"@,
        ),
    }
}

fn ill_shaped(c: &EmitContext, function: &IRFunction, what: &str) -> (r: LlvmError)
    ensures
        says(r, shape_fault(c, function, what@)),
{
    LlvmError::Codegen(concat5(what, " (symbol `", c.name_of(function.symbol), "`", ")"))
}

fn tuple_element_enum_symbol(c: &EmitContext, function: &IRFunction) -> (r: Result<
    (usize, IRSymbol),
    LlvmError,
>)
    ensures
        match r {
            Ok(p) => popped_option(c, function.return_type) == Some(p),
            Err(e) => popped_option(c, function.return_type) is None && says(
                e,
                popped_fault(c, function),
            ),
        },
{
    match function.return_type {
        IRType::Tuple(tuple) => match c.tuple_element(tuple, 0) {
            Some(IRType::Enum(option)) => Ok((tuple, option)),
            _ => Err(
                ill_shaped(c, function, "List.pop expected an enum-typed element at index 0"),
            ),
        },
        _ => Err(ill_shaped(c, function, "List.pop expected a tuple return type")),
    }
}

/// Emits a `List` method.
pub fn emit_list(c: &EmitContext, function: &IRFunction, f: &mut Body, method: ListMethod) -> (r: Result<
    (),
    LlvmError,
>)
    ensures
        match r {
            Ok(()) => {
                &&& list_ok(c, function, method)
                &&& list_receiver(function, method) matches Some(IRType::List(t)) && final(f)@
                    == list_code(c, old(f)@, function, method, c.node(t))
            },
            Err(e) => !list_ok(c, function, method) && says(e, list_fault(c, function, method))
                && final(f)@ == old(f)@,
        },
{
    proof {
        reveal(list_ok);
        reveal(list_code);
    }
    let receiver = if method == ListMethod::New {
        function.return_type
    } else if function.params.len() > 0 {
        function.params[0].ty
    } else {
        return Err(ill_shaped(c, function, "List method has no receiver"));
    };
    match receiver {
        IRType::List(t) => {
            let element = c.component(t);
            let _ty = ir_basic_type(element)?;
            match method {
                ListMethod::Append => {
                    let _item = nth_param(c, function, 1, "item")?;
                    emit_append(c, f, element);
                },
                ListMethod::Concat => {
                    let _other = nth_struct(c, function, 1, "other")?;
                    emit_concat(c, f, element);
                },
                ListMethod::EmptyQ => emit_empty_q(f),
                ListMethod::FromList => clone_list_value(c, f, element),
                ListMethod::Get => {
                    let option = expect_enum_symbol(c, function, function.return_type, "List.get")?;
                    let _index = nth_int(c, function, 1, "index")?;
                    if !is_option(c, option) {
                        return Err(ill_shaped(c, function, "List.get returns an ill-shaped option"));
                    }
                    emit_get(c, f, element, option);
                },
                ListMethod::Length => emit_length(f),
                ListMethod::New => emit_new(f, element),
                ListMethod::Pop => {
                    let (tuple, option) = tuple_element_enum_symbol(c, function)?;
                    if !is_option(c, option) {
                        return Err(ill_shaped(c, function, "List.pop returns an ill-shaped option"));
                    }
                    emit_pop(c, f, element, tuple, option);
                },
                ListMethod::ReplaceAt => {
                    let _index = nth_int(c, function, 1, "index")?;
                    let _value = nth_param(c, function, 2, "value")?;
                    emit_replace_at(c, f, element);
                },
                ListMethod::Slice => {
                    let _start = nth_int(c, function, 1, "start")?;
                    let _count = nth_int(c, function, 2, "count")?;
                    emit_slice(c, f, element);
                },
            }
            Ok(())
        },
        _ => Err(
            ill_shaped(
                c,
                function,
                concat3("expected a `List<T>` slot, got `", shape_name(receiver), "`").as_str(),
            ),
        ),
    }
}

} // verus!
