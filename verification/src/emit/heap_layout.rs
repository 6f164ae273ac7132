//! Heap-object header layout: the single source of truth for the
//! `[i64 rc][i64 bit_length][payload]` heap ABI.
//!
//! Every rc-managed leaf value (`String` / `Binary` / `Bits`) lives in
//! a block shaped `[i64 rc][i64 bit_length][payload bytes][NUL?]`. The
//! pointer that flows through emitted code addresses the first payload
//! byte; the `bit_length` word sits [`LENGTH_OFFSET`] before it and the
//! `rc` word sits [`HEADER_BYTES`] before it, at the block base.

use vstd::prelude::*;
use crate::ir::IRType;
use crate::llvm::{a1, call, gep, gep_in, iadd, is_null, num, Body, Code, Inst, LType, Val};
use crate::runtime::Rt;
use crate::semantics::{recording_keeps_values, wrapped, wraps_once};

verus! {

/// Size in bytes of the header that precedes every heap payload.
pub const HEADER_BYTES: u64 = 16;

/// Distance in bytes from a payload pointer back to its `bit_length`
/// word.
pub const LENGTH_OFFSET: u64 = 8;

/// `-HEADER_BYTES` as the bits of an `i64`.
pub const NEG_HEADER: u64 = 0xffff_ffff_ffff_fff0;

/// `-LENGTH_OFFSET` as the bits of an `i64`.
pub const NEG_LENGTH: u64 = 0xffff_ffff_ffff_fff8;

/// The reference count stamped into statically allocated payloads: the
/// least `i64`. The runtime takes any negative count as immortal.
pub const RC_IMMORTAL: u64 = 0x8000_0000_0000_0000;

/// The leaf heap types: those whose clone and drop is a direct rc
/// increment and decrement on the block base.
pub open spec fn heap_leaf(ty: IRType) -> bool {
    ty == IRType::Binary || ty == IRType::Bits || ty == IRType::String
}

/// Whether a type is a leaf heap type.
pub fn is_heap_leaf(ty: IRType) -> (r: bool)
    ensures
        r == heap_leaf(ty),
{
    match ty {
        IRType::Binary | IRType::Bits | IRType::String => true,
        _ => false,
    }
}

/// From a payload pointer to its block base: `payload - HEADER_BYTES`,
/// or null for a null payload.
pub open spec fn block_base_code(s: Code, payload: Val) -> Code {
    s.i(gep(payload, num(NEG_HEADER)))
        .i(is_null(payload))
        .i(Inst::Select(LType::Ptr, s.v(1), Val::Null, s.v(0)))
}

/// From a payload pointer to its block base.
pub fn block_base(f: &mut Body, payload: Val) -> (r: Val)
    ensures
        final(f)@ == block_base_code(old(f)@, payload),
        r == old(f)@.v(2),
{
    let raw = f.ins(gep(payload, num(NEG_HEADER)));
    let null = f.ins(is_null(payload));
    f.ins(Inst::Select(LType::Ptr, null, Val::Null, raw))
}

/// The `bit_length` word of a heap payload.
pub open spec fn load_bit_length_code(s: Code, payload: Val) -> Code {
    s.i(gep(payload, num(NEG_LENGTH))).i(Inst::Load(LType::I64, s.v(0)))
}

/// Loads the `bit_length` word of a heap payload.
pub fn load_bit_length(f: &mut Body, payload: Val) -> (r: Val)
    ensures
        final(f)@ == load_bit_length_code(old(f)@, payload),
        r == old(f)@.v(1),
{
    let p = f.ins(gep(payload, num(NEG_LENGTH)));
    f.ins(Inst::Load(LType::I64, p))
}

/// A fresh block: `rc = 1` at the base, `bit_length` after it, and the
/// payload pointer.
pub open spec fn init_heap_block_code(s: Code, base: Val, bit_length: Val) -> Code {
    s.i(Inst::Store(LType::I64, num(1), base))
        .i(gep_in(base, num(LENGTH_OFFSET)))
        .i(Inst::Store(LType::I64, bit_length, s.v(1)))
        .i(gep_in(base, num(HEADER_BYTES)))
}

/// Stamps the header of a fresh block and gives its payload pointer.
pub fn init_heap_block(f: &mut Body, base: Val, bit_length: Val) -> (r: Val)
    ensures
        final(f)@ == init_heap_block_code(old(f)@, base, bit_length),
        r == old(f)@.v(3),
{
    f.ins(Inst::Store(LType::I64, num(1), base));
    let p = f.ins(gep_in(base, num(LENGTH_OFFSET)));
    f.ins(Inst::Store(LType::I64, bit_length, p));
    payload_from_base(f, base)
}

/// From a block base to its payload pointer: `base + HEADER_BYTES`.
pub fn payload_from_base(f: &mut Body, base: Val) -> (r: Val)
    ensures
        final(f)@ == old(f)@.i(gep_in(base, num(HEADER_BYTES))),
        r == old(f)@.v(0),
{
    f.ins(gep_in(base, num(HEADER_BYTES)))
}

/// The bytes a block takes beside its payload.
pub open spec fn overhead(with_nul: bool) -> u64 {
    if with_nul {
        17
    } else {
        HEADER_BYTES
    }
}

/// Total block size for a payload of `body_bytes`: the header, and one
/// more byte for the trailing NUL that a `String` keeps.
pub fn block_alloc_size(f: &mut Body, body_bytes: Val, with_nul: bool) -> (r: Val)
    ensures
        final(f)@ == old(f)@.i(iadd(body_bytes, num(overhead(with_nul)))),
        r == old(f)@.v(0),
{
    let extra: u64 = if with_nul {
        HEADER_BYTES + 1
    } else {
        HEADER_BYTES
    };
    f.ins(iadd(body_bytes, num(extra)))
}

/// One more owner of a heap leaf: an rc increment on its block base.
pub open spec fn rc_inc_code(s: Code, payload: Val) -> Code {
    block_base_code(s, payload).i(call(Rt::RcInc, a1(s.v(2))))
}

/// Adds an owner to a heap leaf.
pub fn emit_rc_inc(f: &mut Body, payload: Val)
    ensures
        final(f)@ == rc_inc_code(old(f)@, payload),
{
    let base = block_base(f, payload);
    f.ins(call(Rt::RcInc, a1(base)));
}

/// One owner of a heap leaf fewer: an rc decrement on its block base.
pub open spec fn rc_dec_code(s: Code, payload: Val) -> Code {
    block_base_code(s, payload).i(call(Rt::RcDec, a1(s.v(2))))
}

/// Takes an owner from a heap leaf.
pub fn emit_rc_dec(f: &mut Body, payload: Val)
    ensures
        final(f)@ == rc_dec_code(old(f)@, payload),
{
    let base = block_base(f, payload);
    f.ins(call(Rt::RcDec, a1(base)));
}

/// The base of a payload that is not null lies a header before it, and the
/// payload of that base is the payload again. A null payload has a null
/// base.
pub proof fn base_and_payload_agree(s: Code, env: spec_fn(Val) -> u64, payload: Val)
    requires
        s.room(4),
        s.defines(payload),
    ensures
        ({
            let t = block_base_code(s, payload);
            let p = s.value(env, payload);
            &&& p == 0 ==> t.value(env, s.v(2)) == 0
            &&& p != 0 ==> {
                &&& t.value(env, s.v(2)) == wrapped(LType::I64, p - HEADER_BYTES)
                &&& t.i(gep_in(s.v(2), num(HEADER_BYTES))).value(env, s.v(3)) == p
            }
        }),
{
    let p = s.value(env, payload);
    let raw = gep(payload, num(NEG_HEADER));
    recording_keeps_values(s, env, raw);
    let c1 = s.i(raw);
    recording_keeps_values(c1, env, is_null(payload));
    let c2 = c1.i(is_null(payload));
    let pick = Inst::Select(LType::Ptr, s.v(1), Val::Null, s.v(0));
    recording_keeps_values(c2, env, pick);
    let c3 = c2.i(pick);
    recording_keeps_values(c3, env, gep_in(s.v(2), num(HEADER_BYTES)));
    wraps_once(p - HEADER_BYTES);
    if p < HEADER_BYTES {
        wraps_once(p as int);
    }
}

/// A block has room for its payload and its header, and for the NUL byte
/// behind a string, unless that is more than a word can say.
pub proof fn block_has_room(s: Code, env: spec_fn(Val) -> u64, body_bytes: Val, with_nul: bool)
    requires
        s.room(1),
        s.defines(body_bytes),
        s.value(env, body_bytes) + overhead(with_nul) <= u64::MAX,
    ensures
        s.i(iadd(body_bytes, num(overhead(with_nul)))).value(env, s.v(0)) == s.value(env, body_bytes)
            + HEADER_BYTES + (if with_nul {
            1int
        } else {
            0int
        }),
{
    recording_keeps_values(s, env, iadd(body_bytes, num(overhead(with_nul))));
}

} // verus!
