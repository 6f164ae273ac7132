//! Heap-leaf payloads handed back by conversions from a borrowed `self`.
//!
//! A result whose block has the layout of the source shares it: one more
//! owner, the same pointer. A result whose block differs, because a
//! `String` keeps a trailing NUL, is a fresh copy.

use vstd::prelude::*;
use crate::ctx::EmitContext;
use crate::emit::heap_layout::{
    block_alloc_size, emit_rc_inc, init_heap_block, init_heap_block_code, load_bit_length,
    load_bit_length_code, overhead, rc_inc_code,
};
use crate::error::{says, LlvmError};
use crate::intrinsics::params::{has_param, nth_pointer, param_fault};
use crate::ir::IRFunction;
use crate::llvm::{a1, a3, call, gep_in, iadd, ilshr, num, Body, Code, Inst, LType, Val};
use crate::runtime::Rt;
use crate::types::Kind;

verus! {

/// Shares a payload: one more owner of its block, the same pointer.
pub fn share_heap_payload(f: &mut Body, payload: Val) -> (r: Val)
    ensures
        final(f)@ == rc_inc_code(old(f)@, payload),
        r == payload,
{
    emit_rc_inc(f, payload);
    payload
}

/// The byte count of a bit count, rounded up where a last byte may be
/// partial.
pub open spec fn byte_count_code(s: Code, bits: Val, ceil: bool) -> (Code, Val) {
    if ceil {
        (s.i(iadd(bits, num(7))).i(ilshr(s.v(0), 3)), s.v(1))
    } else {
        (s.i(ilshr(bits, 3)), s.v(0))
    }
}

/// The byte count of a bit count.
pub fn byte_count_from_bits(f: &mut Body, bits: Val, ceil: bool) -> (r: Val)
    ensures
        (final(f)@, r) == byte_count_code(old(f)@, bits, ceil),
{
    if ceil {
        let rounded = f.ins(iadd(bits, num(7)));
        f.ins(ilshr(rounded, 3))
    } else {
        f.ins(ilshr(bits, 3))
    }
}

/// A NUL byte stored right behind `count` payload bytes.
pub open spec fn nul_code(s: Code, payload: Val, count: Val) -> Code {
    s.i(gep_in(payload, count)).i(Inst::Store(LType::I8, num(0), s.v(0)))
}

/// Stores a NUL byte right behind `count` payload bytes.
pub fn store_nul(f: &mut Body, payload: Val, count: Val)
    ensures
        final(f)@ == nul_code(old(f)@, payload, count),
{
    let end = f.ins(gep_in(payload, count));
    f.ins(Inst::Store(LType::I8, num(0), end));
}

/// A fresh block with one owner, the source's length and its bytes.
pub open spec fn copy_payload_code(s: Code, src: Val, with_nul: bool, ceil: bool) -> (Code, Val) {
    let l = load_bit_length_code(s, src);
    let (n, count) = byte_count_code(l, s.v(1), ceil);
    let b = init_heap_block_code(
        n.i(iadd(count, num(overhead(with_nul)))).i(call(Rt::Malloc, a1(n.v(0)))),
        n.v(1),
        s.v(1),
    );
    let copied = b.i(call(Rt::Memcpy, a3(n.v(5), src, count)));
    (
        if with_nul {
            nul_code(copied, n.v(5), count)
        } else {
            copied
        },
        n.v(5),
    )
}

/// Copies a payload into a fresh block. The source stays untouched.
pub fn copy_heap_payload(f: &mut Body, src: Val, with_nul: bool, ceil: bool) -> (r: Val)
    ensures
        (final(f)@, r) == copy_payload_code(old(f)@, src, with_nul, ceil),
{
    let bits = load_bit_length(f, src);
    let count = byte_count_from_bits(f, bits, ceil);
    let size = block_alloc_size(f, count, with_nul);
    let base = f.ins(call(Rt::Malloc, a1(size)));
    let payload = init_heap_block(f, base, bits);
    f.ins(call(Rt::Memcpy, a3(payload, src, count)));
    if with_nul {
        store_nul(f, payload, count);
    }
    payload
}

/// The `Clone` of a heap leaf: a fresh copy, returned.
pub open spec fn payload_clone_code(s: Code, with_nul: bool, ceil: bool) -> Code {
    let (t, payload) = copy_payload_code(s, Val::Param(0), with_nul, ceil);
    t.i(Inst::Ret(LType::Ptr, payload))
}

/// Emits the `Clone` of a heap leaf.
pub fn emit_payload_clone(
    c: &EmitContext,
    function: &IRFunction,
    f: &mut Body,
    with_nul: bool,
    ceil: bool,
) -> (r: Result<(), LlvmError>)
    ensures
        match r {
            Ok(()) => has_param(function, 0, Kind::Pointer) && final(f)@ == payload_clone_code(
                old(f)@,
                with_nul,
                ceil,
            ),
            Err(e) => !has_param(function, 0, Kind::Pointer) && says(
                e,
                param_fault(c, function, 0, "self"@, Kind::Pointer),
            ) && final(f)@ == old(f)@,
        },
{
    let payload = pointer_param(c, function)?;
    let fresh = copy_heap_payload(f, payload, with_nul, ceil);
    f.ins(Inst::Ret(LType::Ptr, fresh));
    Ok(())
}

/// The receiver's payload pointer.
pub fn pointer_param(c: &EmitContext, function: &IRFunction) -> (r: Result<Val, LlvmError>)
    ensures
        match r {
            Ok(v) => has_param(function, 0, Kind::Pointer) && v == Val::Param(0),
            Err(e) => !has_param(function, 0, Kind::Pointer) && says(
                e,
                param_fault(c, function, 0, "self"@, Kind::Pointer),
            ),
        },
{
    nth_pointer(c, function, 0, "self")
}

} // verus!
