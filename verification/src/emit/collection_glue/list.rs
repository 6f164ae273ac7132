//! Glue of `List<T>`: `{ buf, len, cap }` over a flat element buffer.

use vstd::prelude::*;
use crate::ctx::EmitContext;
use crate::intrinsics::element::{walk_buffer, walk_buffer_code, Walk};
use crate::intrinsics::list::{build_list_struct, list_struct_code};
use crate::ir::IRType;
use crate::llvm::{a1, a3, call, imul, num, Body, Code, Inst, LType, Val};
use crate::runtime::Rt;
use crate::types::{value_basic_type, value_type};

verus! {

/// A copy of a list: a buffer for its length, its bytes, and the walk
/// that makes every element independent. Capacity is length.
pub open spec fn copy_list_code(c: &EmitContext, s: Code, element: IRType, walk: Walk) -> Code {
    let size = num(c.abi(value_type(element)));
    let t = walk_buffer_code(
        c,
        s.i(Inst::Extract(LType::List, Val::Param(0), 0))
            .i(Inst::Extract(LType::List, Val::Param(0), 1))
            .i(imul(s.v(1), size))
            .i(call(Rt::Malloc, a1(s.v(2))))
            .i(call(Rt::Memcpy, a3(s.v(3), s.v(0), s.v(2)))),
        walk,
        element,
        s.v(3),
        s.v(1),
        size,
    );
    list_struct_code(t, s.v(3), s.v(1), s.v(1)).i(Inst::Ret(LType::List, t.v(2)))
}

/// Emits a copy of a list.
pub fn copy_list(c: &EmitContext, f: &mut Body, element: IRType, walk: Walk)
    ensures
        final(f)@ == copy_list_code(c, old(f)@, element, walk),
{
    let buf = f.ins(Inst::Extract(LType::List, Val::Param(0), 0));
    let len = f.ins(Inst::Extract(LType::List, Val::Param(0), 1));
    let size = num(c.abi_size(value_basic_type(element)));
    let bytes = f.ins(imul(len, size));
    let new_buf = f.ins(call(Rt::Malloc, a1(bytes)));
    f.ins(call(Rt::Memcpy, a3(new_buf, buf, bytes)));
    walk_buffer(c, f, walk, element, new_buf, len, size);
    let result = build_list_struct(f, new_buf, len, len);
    f.ins(Inst::Ret(LType::List, result));
}

/// The drop of a list: every element is released, then the buffer.
pub open spec fn drop_list_code(c: &EmitContext, s: Code, element: IRType) -> Code {
    walk_buffer_code(
        c,
        s.i(Inst::Extract(LType::List, Val::Param(0), 0)).i(
            Inst::Extract(LType::List, Val::Param(0), 1),
        ),
        Walk::Release,
        element,
        s.v(0),
        s.v(1),
        num(c.abi(value_type(element))),
    ).i(call(Rt::Free, a1(s.v(0)))).i(Inst::RetVoid)
}

/// Emits the drop of a list.
pub fn drop_list(c: &EmitContext, f: &mut Body, element: IRType)
    ensures
        final(f)@ == drop_list_code(c, old(f)@, element),
{
    let buf = f.ins(Inst::Extract(LType::List, Val::Param(0), 0));
    let len = f.ins(Inst::Extract(LType::List, Val::Param(0), 1));
    let size = num(c.abi_size(value_basic_type(element)));
    walk_buffer(c, f, Walk::Release, element, buf, len, size);
    f.ins(call(Rt::Free, a1(buf)));
    f.ins(Inst::RetVoid);
}

} // verus!
