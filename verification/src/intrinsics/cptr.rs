//! `CPtr<T>` methods: raw, manually managed C pointers.

use vstd::prelude::*;
use crate::ctx::EmitContext;
use crate::emit::heap_layout::{block_alloc_size, init_heap_block, init_heap_block_code, overhead};
use crate::emit::ops::{emit_fault_guard, fault_guard_code};
use crate::error::{says, LlvmError};
use crate::intrinsics::list::size_of;
use crate::intrinsics::params::{has_param, missing, nth_int, nth_param, nth_pointer, param_fault};
use crate::intrinsics::string::{byte_length_code, load_byte_count};
use crate::ir::{CPtrMethod, IRFunction, IRType};
use crate::llvm::{
    a1, a3, call, iadd, imul, is_null, itest, num, Body, Code, Inst, LType, Pred, Val,
};
use crate::runtime::Rt;
use crate::text::concat3;
use crate::types::{ir_basic_type, no_unit, value_basic_type, value_type, Kind};

verus! {

/// A panic when a count is negative.
pub open spec fn nonnegative_code(s: Code, value: Val, message: Seq<char>) -> Code {
    fault_guard_code(s.i(itest(Pred::Slt, value, num(0))), s.v(0), message)
}

/// Panics when a count is negative.
pub fn guard_nonnegative(f: &mut Body, value: Val, message: &str)
    ensures
        final(f)@ == nonnegative_code(old(f)@, value, message@),
{
    let negative = f.ins(itest(Pred::Slt, value, num(0)));
    emit_fault_guard(f, negative, message);
}

/// A null pointer for no bytes, and the way to the allocation otherwise.
/// The blocks are empty and allocate.
pub open spec fn null_if_empty_code(s: Code, bytes: Val) -> Code {
    s.i(itest(Pred::Eq, bytes, num(0)))
        .word("empty"@).word("allocate"@)
        .i(Inst::CondBr(s.v(0), s.b(0), s.b(1)))
        .at(s.b(0))
        .i(Inst::Ret(LType::Ptr, Val::Null))
        .at(s.b(1))
}

/// Returns null where there are no bytes, and goes on otherwise.
pub fn null_if_empty(f: &mut Body, bytes: Val)
    ensures
        final(f)@ == null_if_empty_code(old(f)@, bytes),
{
    let is_empty = f.ins(itest(Pred::Eq, bytes, num(0)));
    let empty_block = f.block("empty");
    let allocate_block = f.block("allocate");
    f.ins(Inst::CondBr(is_empty, empty_block, allocate_block));
    f.at(empty_block);
    f.ins(Inst::Ret(LType::Ptr, Val::Null));
    f.at(allocate_block);
}

/// `CPtr.alloc`: room for `count` elements; nothing is null.
pub open spec fn alloc_code(s: Code, inner: IRType) -> Code {
    let g = nonnegative_code(s, Val::Param(0), "CPtr.alloc count cannot be negative"@);
    let a = null_if_empty_code(g.i(imul(Val::Param(0), size_of(inner))), g.v(0));
    a.i(call(Rt::Malloc, a1(g.v(0)))).i(Inst::Ret(LType::Ptr, a.v(0)))
}

/// Emits `CPtr.alloc`.
pub fn emit_alloc(f: &mut Body, inner: IRType)
    ensures
        final(f)@ == alloc_code(old(f)@, inner),
{
    guard_nonnegative(f, Val::Param(0), "CPtr.alloc count cannot be negative");
    let total = f.ins(imul(Val::Param(0), Val::SizeOf(value_basic_type(inner))));
    null_if_empty(f, total);
    let raw = f.ins(call(Rt::Malloc, a1(total)));
    f.ins(Inst::Ret(LType::Ptr, raw));
}

/// `CPtr.copy`: an owned copy of a binary's bytes, without header or NUL;
/// no bytes is null.
pub open spec fn copy_code(s: Code) -> Code {
    let a = null_if_empty_code(byte_length_code(s), s.v(2));
    a.i(call(Rt::Malloc, a1(s.v(2))))
        .i(call(Rt::Memcpy, a3(a.v(0), Val::Param(0), s.v(2))))
        .i(Inst::Ret(LType::Ptr, a.v(0)))
}

/// Emits `CPtr.copy`.
pub fn emit_copy(f: &mut Body)
    ensures
        final(f)@ == copy_code(old(f)@),
{
    let count = load_byte_count(f);
    null_if_empty(f, count);
    let raw = f.ins(call(Rt::Malloc, a1(count)));
    f.ins(call(Rt::Memcpy, a3(raw, Val::Param(0), count)));
    f.ins(Inst::Ret(LType::Ptr, raw));
}

/// `CPtr.to_binary`: a fresh block that holds `len` bytes behind the
/// pointer. With no bytes the copy reads from the block itself, so that a
/// null pointer is never read.
pub open spec fn to_binary_code(s: Code) -> Code {
    let g = nonnegative_code(s, Val::Param(1), "CPtr.to_binary length cannot be negative"@);
    init_heap_block_code(
        g.i(iadd(Val::Param(1), num(overhead(false))))
            .i(call(Rt::Malloc, a1(g.v(0))))
            .i(imul(Val::Param(1), num(8))),
        g.v(1),
        g.v(2),
    )
        .i(itest(Pred::Ne, Val::Param(1), num(0)))
        .i(Inst::Select(LType::Ptr, g.v(7), Val::Param(0), g.v(6)))
        .i(call(Rt::Memcpy, a3(g.v(6), g.v(8), Val::Param(1))))
        .i(Inst::Ret(LType::Ptr, g.v(6)))
}

/// Emits `CPtr.to_binary`.
pub fn emit_to_binary(f: &mut Body)
    ensures
        final(f)@ == to_binary_code(old(f)@),
{
    let len = Val::Param(1);
    guard_nonnegative(f, len, "CPtr.to_binary length cannot be negative");
    let total = block_alloc_size(f, len, false);
    let base = f.ins(call(Rt::Malloc, a1(total)));
    let bits = f.ins(imul(len, num(8)));
    let payload = init_heap_block(f, base, bits);
    let has_bytes = f.ins(itest(Pred::Ne, len, num(0)));
    let source = f.ins(Inst::Select(LType::Ptr, has_bytes, Val::Param(0), payload));
    f.ins(call(Rt::Memcpy, a3(payload, source, len)));
    f.ins(Inst::Ret(LType::Ptr, payload));
}

/// The pointee of a method: on what `alloc` and `null` return, and on the
/// receiver of every other method.
pub open spec fn pointee(c: &EmitContext, function: &IRFunction, method: CPtrMethod) -> Option<IRType> {
    let slot = if method == CPtrMethod::Alloc || method == CPtrMethod::Null {
        function.return_type
    } else if function.params@.len() > 0 {
        function.params@[0].ty
    } else {
        IRType::Unit
    };
    match slot {
        IRType::CPtr(t) => Some(c.node(t)),
        _ => None,
    }
}

/// What is said of a method whose pointee is not a type with values.
pub open spec fn pointee_fault(c: &EmitContext, function: &IRFunction, method: CPtrMethod) -> Seq<char> {
    if pointee(c, function, method) is Some {
        no_unit()
    } else {
        "expected a `CPtr<T>` slot (symbol `"@ + c.mangled(function.symbol) + "`)"@
    }
}

/// Resolves the pointee of a method.
pub fn pointee_type(c: &EmitContext, function: &IRFunction, method: CPtrMethod) -> (r: Result<
    IRType,
    LlvmError,
>)
    ensures
        match r {
            Ok(t) => pointee(c, function, method) == Some(t) && t != IRType::Unit,
            Err(e) => says(e, pointee_fault(c, function, method)) && !sized_pointee(
                c,
                function,
                method,
            ),
        },
{
    let slot = if method == CPtrMethod::Alloc || method == CPtrMethod::Null {
        function.return_type
    } else if function.params.len() > 0 {
        function.params[0].ty
    } else {
        IRType::Unit
    };
    match slot {
        IRType::CPtr(t) => {
            let inner = c.component(t);
            let _ty = ir_basic_type(inner)?;
            Ok(inner)
        },
        _ => Err(
            LlvmError::Codegen(
                concat3("expected a `CPtr<T>` slot (symbol `", c.name_of(function.symbol), "`)"),
            ),
        ),
    }
}

/// The method's pointee is a type with values.
pub open spec fn sized_pointee(c: &EmitContext, function: &IRFunction, method: CPtrMethod) -> bool {
    pointee(c, function, method) matches Some(t) && t != IRType::Unit
}

/// What is said of a function that cannot be the method.
pub open spec fn cptr_fault(c: &EmitContext, function: &IRFunction, method: CPtrMethod) -> Seq<char> {
    match method {
        CPtrMethod::Null => ""@,
        CPtrMethod::Alloc => if !sized_pointee(c, function, method) {
            pointee_fault(c, function, method)
        } else {
            param_fault(c, function, 0, "count"@, Kind::Int)
        },
        CPtrMethod::Borrow | CPtrMethod::Copy => param_fault(
            c,
            function,
            0,
            "bytes"@,
            Kind::Pointer,
        ),
        CPtrMethod::Free | CPtrMethod::NullQ => param_fault(c, function, 0, "self"@, Kind::Pointer),
        CPtrMethod::Offset => if !sized_pointee(c, function, method) {
            pointee_fault(c, function, method)
        } else if !has_param(function, 0, Kind::Pointer) {
            param_fault(c, function, 0, "self"@, Kind::Pointer)
        } else {
            param_fault(c, function, 1, "n"@, Kind::Int)
        },
        CPtrMethod::Read => if !sized_pointee(c, function, method) {
            pointee_fault(c, function, method)
        } else {
            param_fault(c, function, 0, "self"@, Kind::Pointer)
        },
        CPtrMethod::ToBinary => if !has_param(function, 0, Kind::Pointer) {
            param_fault(c, function, 0, "self"@, Kind::Pointer)
        } else {
            param_fault(c, function, 1, "len"@, Kind::Int)
        },
        CPtrMethod::Write => if !has_param(function, 0, Kind::Pointer) {
            param_fault(c, function, 0, "self"@, Kind::Pointer)
        } else {
            missing(c, function, 1, "value"@)
        },
    }
}

/// The function can be the method.
#[verifier::opaque]
pub open spec fn cptr_ok(c: &EmitContext, function: &IRFunction, method: CPtrMethod) -> bool {
    match method {
        CPtrMethod::Null => true,
        CPtrMethod::Alloc => sized_pointee(c, function, method) && has_param(
            function,
            0,
            Kind::Int,
        ),
        CPtrMethod::Borrow | CPtrMethod::Copy | CPtrMethod::Free | CPtrMethod::NullQ => has_param(
            function,
            0,
            Kind::Pointer,
        ),
        CPtrMethod::Offset => sized_pointee(c, function, method) && has_param(
            function,
            0,
            Kind::Pointer,
        ) && has_param(function, 1, Kind::Int),
        CPtrMethod::Read => sized_pointee(c, function, method) && has_param(
            function,
            0,
            Kind::Pointer,
        ),
        CPtrMethod::ToBinary => has_param(function, 0, Kind::Pointer) && has_param(
            function,
            1,
            Kind::Int,
        ),
        CPtrMethod::Write => has_param(function, 0, Kind::Pointer) && function.params@.len() > 1,
    }
}

/// The body of a `CPtr` method.
#[verifier::opaque]
pub open spec fn cptr_code(
    c: &EmitContext,
    s: Code,
    function: &IRFunction,
    method: CPtrMethod,
) -> Code {
    let inner = pointee(c, function, method)->0;
    match method {
        CPtrMethod::Alloc => alloc_code(s, inner),
        CPtrMethod::Borrow => s.i(Inst::Ret(LType::Ptr, Val::Param(0))),
        CPtrMethod::Copy => copy_code(s),
        CPtrMethod::Free => s.i(call(Rt::Free, a1(Val::Param(0)))).i(Inst::RetVoid),
        CPtrMethod::Null => s.i(Inst::Ret(LType::Ptr, Val::Null)),
        CPtrMethod::NullQ => s.i(is_null(Val::Param(0))).i(Inst::Ret(LType::I1, s.v(0))),
        CPtrMethod::Offset => s.i(Inst::Gep(value_type(inner), Val::Param(0), Val::Param(1))).i(
            Inst::Ret(LType::Ptr, s.v(0)),
        ),
        CPtrMethod::Read => s.i(Inst::Load(value_type(inner), Val::Param(0))).i(
            Inst::Ret(value_type(inner), s.v(0)),
        ),
        CPtrMethod::ToBinary => to_binary_code(s),
        CPtrMethod::Write => s.i(
            Inst::Store(value_type(function.params@[1].ty), Val::Param(1), Val::Param(0)),
        ).i(Inst::RetVoid),
    }
}

/// Emits a `CPtr` method.
pub fn emit_cptr(c: &EmitContext, function: &IRFunction, f: &mut Body, method: CPtrMethod) -> (r: Result<
    (),
    LlvmError,
>)
    ensures
        match r {
            Ok(()) => cptr_ok(c, function, method) && final(f)@ == cptr_code(
                c,
                old(f)@,
                function,
                method,
            ),
            Err(e) => !cptr_ok(c, function, method) && says(e, cptr_fault(c, function, method))
                && final(f)@ == old(f)@,
        },
{
    proof {
        reveal(cptr_ok);
        reveal(cptr_code);
    }
    match method {
        CPtrMethod::Alloc => {
            let inner = pointee_type(c, function, method)?;
            let _count = nth_int(c, function, 0, "count")?;
            emit_alloc(f, inner);
        },
        CPtrMethod::Borrow => {
            let bytes = nth_pointer(c, function, 0, "bytes")?;
            f.ins(Inst::Ret(LType::Ptr, bytes));
        },
        CPtrMethod::Copy => {
            let _bytes = nth_pointer(c, function, 0, "bytes")?;
            emit_copy(f);
        },
        CPtrMethod::Free => {
            let ptr = nth_pointer(c, function, 0, "self")?;
            f.ins(call(Rt::Free, a1(ptr)));
            f.ins(Inst::RetVoid);
        },
        CPtrMethod::Null => {
            f.ins(Inst::Ret(LType::Ptr, Val::Null));
        },
        CPtrMethod::NullQ => {
            let ptr = nth_pointer(c, function, 0, "self")?;
            let null = f.ins(is_null(ptr));
            f.ins(Inst::Ret(LType::I1, null));
        },
        CPtrMethod::Offset => {
            let inner = pointee_type(c, function, method)?;
            let ptr = nth_pointer(c, function, 0, "self")?;
            let n = nth_int(c, function, 1, "n")?;
            let moved = f.ins(Inst::Gep(value_basic_type(inner), ptr, n));
            f.ins(Inst::Ret(LType::Ptr, moved));
        },
        CPtrMethod::Read => {
            let inner = pointee_type(c, function, method)?;
            let ptr = nth_pointer(c, function, 0, "self")?;
            let value = f.ins(Inst::Load(value_basic_type(inner), ptr));
            f.ins(Inst::Ret(value_basic_type(inner), value));
        },
        CPtrMethod::ToBinary => {
            let _ptr = nth_pointer(c, function, 0, "self")?;
            let _len = nth_int(c, function, 1, "len")?;
            emit_to_binary(f);
        },
        CPtrMethod::Write => {
            let ptr = nth_pointer(c, function, 0, "self")?;
            let value = nth_param(c, function, 1, "value")?;
            f.ins(Inst::Store(value_basic_type(function.params[1].ty), value, ptr));
            f.ins(Inst::RetVoid);
        },
    }
    Ok(())
}

} // verus!
