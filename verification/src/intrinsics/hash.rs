//! `Hash.hash`: `Bool` and the integers zero-extend to `i64` and go
//! through the SplitMix64 finalizer; a `String` folds its bytes through
//! the FNV-1a recurrence.

use vstd::prelude::*;
use crate::ctx::EmitContext;
use crate::emit::heap_layout::{load_bit_length, load_bit_length_code, LENGTH_OFFSET, NEG_LENGTH};
use crate::error::{says, LlvmError};
use crate::intrinsics::params::{has_param, nth_int, nth_pointer, param_fault};
use crate::ir::{HashImpl, IRFunction};
use crate::llvm::{
    gep, iadd, itest, ilshr, imul, ixor, num, start, BinOp, Body, CastOp, Code, Entry, Inst, LType,
    Pred, Val,
};
use crate::memory::{byte, holds_bytes, number, Memory};
use crate::semantics::{
    booted, branches, combines, converts, finishes, incoming, jumps, loads, moves,
    recording_keeps_values, seek, seek_finds, takes, tests, wrapped, wraps_once, Machine,
    Outside,
};
use crate::types::{value_basic_type, value_type, width, width_of, Kind};

verus! {

/// What an FNV-1a hash starts from.
pub const FNV_OFFSET_BASIS: u64 = 0xcbf2_9ce4_8422_2325;

/// What each FNV-1a step multiplies by.
pub const FNV_PRIME: u64 = 0x100_0000_01b3;

/// The first multiplier of the SplitMix64 finalizer.
pub const MIX_ONE: u64 = 0xbf58_476d_1ce4_e5b9;

/// The second multiplier of the SplitMix64 finalizer.
pub const MIX_TWO: u64 = 0x94d0_49bb_1331_11eb;

/// The SplitMix64 finalizer.
pub open spec fn splitmix_code(s: Code, x: Val) -> Code {
    s.i(ilshr(x, 30))
        .i(ixor(x, s.v(0)))
        .i(imul(s.v(1), num(MIX_ONE)))
        .i(ilshr(s.v(2), 27))
        .i(ixor(s.v(2), s.v(3)))
        .i(imul(s.v(4), num(MIX_TWO)))
        .i(ilshr(s.v(5), 31))
        .i(ixor(s.v(5), s.v(6)))
}

/// Emits the SplitMix64 finalizer.
pub fn splitmix64(f: &mut Body, x: Val) -> (r: Val)
    ensures
        final(f)@ == splitmix_code(old(f)@, x),
        r == old(f)@.v(7),
{
    let shr30 = f.ins(ilshr(x, 30));
    let xor1 = f.ins(ixor(x, shr30));
    let mul1 = f.ins(imul(xor1, num(MIX_ONE)));
    let shr27 = f.ins(ilshr(mul1, 27));
    let xor2 = f.ins(ixor(mul1, shr27));
    let mul2 = f.ins(imul(xor2, num(MIX_TWO)));
    let shr31 = f.ins(ilshr(mul2, 31));
    f.ins(ixor(mul2, shr31))
}

/// The SplitMix64 finalizer of a word.
pub open spec fn mixed(x: u64) -> u64 {
    let a = x ^ (x >> 30);
    let b = wrapped(LType::I64, a * MIX_ONE);
    let d = b ^ (b >> 27);
    let e = wrapped(LType::I64, d * MIX_TWO);
    e ^ (e >> 31)
}

/// The emitted finalizer computes the SplitMix64 finalizer of its operand.
pub proof fn finalizer_value(s: Code, env: spec_fn(Val) -> u64, x: Val)
    requires
        s.room(8),
        s.defines(x),
    ensures
        splitmix_code(s, x).value(env, s.v(7)) == mixed(s.value(env, x)),
{
    let c1 = s.i(ilshr(x, 30));
    recording_keeps_values(s, env, ilshr(x, 30));
    let c2 = c1.i(ixor(x, s.v(0)));
    recording_keeps_values(c1, env, ixor(x, s.v(0)));
    let c3 = c2.i(imul(s.v(1), num(MIX_ONE)));
    recording_keeps_values(c2, env, imul(s.v(1), num(MIX_ONE)));
    let c4 = c3.i(ilshr(s.v(2), 27));
    recording_keeps_values(c3, env, ilshr(s.v(2), 27));
    let c5 = c4.i(ixor(s.v(2), s.v(3)));
    recording_keeps_values(c4, env, ixor(s.v(2), s.v(3)));
    let c6 = c5.i(imul(s.v(4), num(MIX_TWO)));
    recording_keeps_values(c5, env, imul(s.v(4), num(MIX_TWO)));
    let c7 = c6.i(ilshr(s.v(5), 31));
    recording_keeps_values(c6, env, ilshr(s.v(5), 31));
    recording_keeps_values(c7, env, ixor(s.v(5), s.v(6)));
}

/// An integer widened to 64 bits without its sign.
pub open spec fn widen_code(s: Code, ty: LType, value: Val) -> (Code, Val) {
    if width_of(ty) < 64 {
        (s.i(Inst::Cast(CastOp::ZExt, ty, value, LType::I64)), s.v(0))
    } else {
        (s, value)
    }
}

/// Widens an integer to 64 bits without its sign.
pub fn zero_extend(f: &mut Body, ty: LType, value: Val) -> (r: Val)
    ensures
        (final(f)@, r) == widen_code(old(f)@, ty, value),
{
    if width(ty) < 64 {
        f.ins(Inst::Cast(CastOp::ZExt, ty, value, LType::I64))
    } else {
        value
    }
}

/// The hash of an integer.
pub open spec fn int_hash_code(s: Code, ty: LType) -> Code {
    let (w, x) = widen_code(s, ty, Val::Param(0));
    splitmix_code(w, x).i(Inst::Ret(LType::I64, w.v(7)))
}

/// Emits the hash of an integer.
pub fn emit_int_hash(f: &mut Body, ty: LType)
    ensures
        final(f)@ == int_hash_code(old(f)@, ty),
{
    let x = zero_extend(f, ty, Val::Param(0));
    let mixed = splitmix64(f, x);
    f.ins(Inst::Ret(LType::I64, mixed));
}

/// The hash of an integer is the SplitMix64 finalizer of its bits.
pub proof fn int_hash_value(s: Code, env: spec_fn(Val) -> u64, ty: LType)
    requires
        s.room(10),
    ensures
        ({
            let code = int_hash_code(s, ty);
            &&& code.log.last().inst matches Inst::Ret(LType::I64, v)
            &&& code.log.last().inst->Ret_1 == v ==> code.value(env, v) == mixed(env(Val::Param(0)))
        }),
{
    let (w, x) = widen_code(s, ty, Val::Param(0));
    if width_of(ty) < 64 {
        recording_keeps_values(s, env, Inst::Cast(CastOp::ZExt, ty, Val::Param(0), LType::I64));
    }
    finalizer_value(w, env, x);
    recording_keeps_values(splitmix_code(w, x), env, Inst::Ret(LType::I64, w.v(7)));
}

/// The hash of a string. The blocks are header, body and done: the hash
/// and the index go round the loop as phis.
pub open spec fn string_hash_code(s: Code) -> Code {
    load_bit_length_code(s, Val::Param(0))
        .i(ilshr(s.v(1), 3))
        .word("fnv_header"@).word("fnv_body"@).word("fnv_done"@)
        .i(Inst::Br(s.b(0)))
        .at(s.b(0))
        .i(Inst::Phi(LType::I64))
        .i(Inst::Phi(LType::I64))
        .edge(s.v(4), num(FNV_OFFSET_BASIS), s.cur)
        .edge(s.v(5), num(0), s.cur)
        .i(itest(Pred::Uge, s.v(5), s.v(2)))
        .i(Inst::CondBr(s.v(6), s.b(2), s.b(1)))
        .at(s.b(1))
        .i(gep(Val::Param(0), s.v(5)))
        .i(Inst::Load(LType::I8, s.v(8)))
        .i(Inst::Cast(CastOp::ZExt, LType::I8, s.v(9), LType::I64))
        .i(ixor(s.v(4), s.v(10)))
        .i(imul(s.v(11), num(FNV_PRIME)))
        .i(iadd(s.v(5), num(1)))
        .i(Inst::Br(s.b(0)))
        .edge(s.v(4), s.v(12), s.b(1))
        .edge(s.v(5), s.v(13), s.b(1))
        .at(s.b(2))
        .i(Inst::Ret(LType::I64, s.v(4)))
}

/// Emits the hash of a string.
pub fn emit_string_hash(f: &mut Body)
    ensures
        final(f)@ == string_hash_code(old(f)@),
{
    let entry = f.cur;
    let str_ptr = Val::Param(0);
    let bit_length = load_bit_length(f, str_ptr);
    let byte_count = f.ins(ilshr(bit_length, 3));
    let header = f.block("fnv_header");
    let body = f.block("fnv_body");
    let done = f.block("fnv_done");
    f.ins(Inst::Br(header));

    f.at(header);
    let hash = f.ins(Inst::Phi(LType::I64));
    let idx = f.ins(Inst::Phi(LType::I64));
    f.edge(hash, num(FNV_OFFSET_BASIS), entry);
    f.edge(idx, num(0), entry);
    let at_end = f.ins(itest(Pred::Uge, idx, byte_count));
    f.ins(Inst::CondBr(at_end, done, body));

    f.at(body);
    let byte_ptr = f.ins(gep(str_ptr, idx));
    let byte = f.ins(Inst::Load(LType::I8, byte_ptr));
    let wide = f.ins(Inst::Cast(CastOp::ZExt, LType::I8, byte, LType::I64));
    let xored = f.ins(ixor(hash, wide));
    let hashed = f.ins(imul(xored, num(FNV_PRIME)));
    let next = f.ins(iadd(idx, num(1)));
    f.ins(Inst::Br(header));
    f.edge(hash, hashed, body);
    f.edge(idx, next, body);

    f.at(done);
    f.ins(Inst::Ret(LType::I64, hash));
}

/// The FNV-1a hash of some bytes.
pub open spec fn fnv1a(bytes: Seq<u8>) -> u64
    decreases bytes.len(),
{
    if bytes.len() == 0 {
        FNV_OFFSET_BASIS
    } else {
        wrapped(LType::I64, (fnv1a(bytes.drop_last()) ^ bytes.last() as u64) * FNV_PRIME)
    }
}

/// The string hash, instruction by instruction.
spec fn string_hash_listing(code: Code) -> bool {
    let at = |n: int| Val::At(n as usize);
    let is = |n: int, block: usize, inst: Inst| code.log[n] == Entry { block: block, inst: inst };
    &&& code.log.len() == 16
    &&& is(0, 0, gep(Val::Param(0), num(NEG_LENGTH)))
    &&& is(1, 0, Inst::Load(LType::I64, at(0)))
    &&& is(2, 0, ilshr(at(1), 3))
    &&& is(3, 0, Inst::Br(1))
    &&& is(4, 1, Inst::Phi(LType::I64))
    &&& is(5, 1, Inst::Phi(LType::I64))
    &&& is(6, 1, itest(Pred::Uge, at(5), at(2)))
    &&& is(7, 1, Inst::CondBr(at(6), 3, 2))
    &&& is(8, 2, gep(Val::Param(0), at(5)))
    &&& is(9, 2, Inst::Load(LType::I8, at(8)))
    &&& is(10, 2, Inst::Cast(CastOp::ZExt, LType::I8, at(9), LType::I64))
    &&& is(11, 2, ixor(at(4), at(10)))
    &&& is(12, 2, imul(at(11), num(FNV_PRIME)))
    &&& is(13, 2, iadd(at(5), num(1)))
    &&& is(14, 2, Inst::Br(1))
    &&& is(15, 3, Inst::Ret(LType::I64, at(4)))
    &&& incoming(code.edges, at(4), 0) == Some(num(FNV_OFFSET_BASIS))
    &&& incoming(code.edges, at(5), 0) == Some(num(0))
    &&& incoming(code.edges, at(4), 2) == Some(at(12))
    &&& incoming(code.edges, at(5), 2) == Some(at(13))
    &&& seek(code.log, 0, 0) == 0
    &&& seek(code.log, 1, 0) == 4
    &&& seek(code.log, 2, 0) == 8
    &&& seek(code.log, 3, 0) == 15
}

proof fn string_hash_reads(code: Code)
    requires
        code == string_hash_code(start()),
    ensures
        string_hash_listing(code),
{
    reveal_with_fuel(incoming, 5);
    let e = code.edges;
    assert(e.len() == 4);
    assert(e.drop_first()[0] == e[1]);
    assert(e.drop_first().drop_first()[0] == e[2]);
    assert(e.drop_first().drop_first().drop_first()[0] == e[3]);
    seek_finds(code.log, 0, 0, 0);
    seek_finds(code.log, 1, 0, 4);
    seek_finds(code.log, 2, 0, 8);
    seek_finds(code.log, 3, 0, 15);
}

/// The hash loop at its test, `i` bytes folded.
spec fn hash_so_far(m: Machine, memory: Memory, bytes: Seq<u8>, i: int) -> bool {
    &&& m.at == 6
    &&& m.returned is None
    &&& m.memory == memory
    &&& m.results[2] == bytes.len()
    &&& m.results[4] == fnv1a(bytes.take(i)) as int
    &&& m.results[5] == i
}

proof fn hash_loop(
    m: Machine,
    code: Code,
    o: Outside,
    memory: Memory,
    bytes: Seq<u8>,
    i: int,
)
    requires
        string_hash_listing(code),
        holds_bytes(memory, (o.values)(Val::Param(0)) as u64, bytes),
        0 <= i <= bytes.len(),
        hash_so_far(m, memory, bytes, i),
    ensures
        m.gives_back(code, o, fnv1a(bytes) as int),
    decreases bytes.len() - i,
{
    let p = (o.values)(Val::Param(0)) as u64;
    tests(m, code, o, Pred::Uge, LType::I64, Val::At(5), Val::At(2));
    let m7 = m.step(code, o);
    branches(m7, code, o, Val::At(6), 3, 2);
    let m8 = m7.step(code, o);
    if i == bytes.len() {
        assert(bytes.take(i) =~= bytes);
        finishes(m8, code, o, LType::I64, Val::At(4));
    } else {
        moves(m8, code, o, Val::Param(0), Val::At(5));
        let m9 = m8.step(code, o);
        loads(m9, code, o, LType::I8, Val::At(8));
        let m10 = m9.step(code, o);
        assert(m10.results[9] == bytes[i]) by {
            reveal_with_fuel(number, 2);
            assert(byte(memory, p + i) == bytes[i]);
        }
        converts(m10, code, o, CastOp::ZExt, LType::I8, Val::At(9), LType::I64);
        let m11 = m10.step(code, o);
        combines(m11, code, o, BinOp::Xor, LType::I64, Val::At(4), Val::At(10));
        let m12 = m11.step(code, o);
        combines(m12, code, o, BinOp::Mul, LType::I64, Val::At(11), num(FNV_PRIME));
        let m13 = m12.step(code, o);
        assert(bytes.take(i + 1).drop_last() =~= bytes.take(i));
        assert(m13.results[12] == fnv1a(bytes.take(i + 1)));
        combines(m13, code, o, BinOp::Add, LType::I64, Val::At(5), num(1));
        let m14 = m13.step(code, o);
        jumps(m14, code, o, 1);
        let n4 = m14.step(code, o);
        takes(n4, code, o, LType::I64, Val::At(12));
        let n5 = n4.step(code, o);
        takes(n5, code, o, LType::I64, Val::At(13));
        let n6 = n5.step(code, o);
        hash_loop(n6, code, o, memory, bytes, i + 1);
    }
}

/// The hash function of strings gives back the FNV-1a hash of the bytes of
/// its receiver.
pub proof fn string_hash_is_fnv1a(o: Outside, memory: Memory, bytes: Seq<u8>)
    requires
        holds_bytes(memory, (o.values)(Val::Param(0)) as u64, bytes),
    ensures
        ({
            let code = string_hash_code(start());
            booted(code, memory).gives_back(code, o, fnv1a(bytes) as int)
        }),
{
    let code = string_hash_code(start());
    string_hash_reads(code);
    let p = (o.values)(Val::Param(0)) as u64;
    let m0 = booted(code, memory);
    moves(m0, code, o, Val::Param(0), num(NEG_LENGTH));
    let m1 = m0.step(code, o);
    wraps_once(p - LENGTH_OFFSET);
    assert(m1.results[0] == wrapped(LType::I64, p - LENGTH_OFFSET));
    loads(m1, code, o, LType::I64, Val::At(0));
    let m2 = m1.step(code, o);
    combines(m2, code, o, BinOp::LShr, LType::I64, Val::At(1), num(3));
    let m3 = m2.step(code, o);
    let bits = m2.results[1] as u64;
    assert(bits >> 3 == bits / 8) by (bit_vector);
    assert(m3.results[2] == bytes.len());
    jumps(m3, code, o, 1);
    let m4 = m3.step(code, o);
    takes(m4, code, o, LType::I64, num(FNV_OFFSET_BASIS));
    let m5 = m4.step(code, o);
    takes(m5, code, o, LType::I64, num(0));
    let m6 = m5.step(code, o);
    assert(bytes.take(0) =~= Seq::<u8>::empty());
    hash_loop(m6, code, o, memory, bytes, 0);
}

/// The kind of receiver a hash takes.
pub open spec fn hash_kind(h: HashImpl) -> Kind {
    if h == HashImpl::String {
        Kind::Pointer
    } else {
        Kind::Int
    }
}

/// The body of a `hash`.
#[verifier::opaque]
pub open spec fn hash_code(s: Code, function: &IRFunction, h: HashImpl) -> Code {
    if h == HashImpl::String {
        string_hash_code(s)
    } else {
        int_hash_code(s, value_type(function.params@[0].ty))
    }
}

/// Emits a `hash`.
pub fn emit_hash(c: &EmitContext, function: &IRFunction, f: &mut Body, h: HashImpl) -> (r: Result<
    (),
    LlvmError,
>)
    ensures
        match r {
            Ok(()) => has_param(function, 0, hash_kind(h)) && final(f)@ == hash_code(
                old(f)@,
                function,
                h,
            ),
            Err(e) => !has_param(function, 0, hash_kind(h)) && says(
                e,
                param_fault(c, function, 0, "self"@, hash_kind(h)),
            ) && final(f)@ == old(f)@,
        },
{
    proof {
        reveal(hash_code);
    }
    match h {
        HashImpl::Bool | HashImpl::Int => {
            let _value = nth_int(c, function, 0, "self")?;
            emit_int_hash(f, value_basic_type(function.params[0].ty));
        },
        HashImpl::String => {
            let _payload = nth_pointer(c, function, 0, "self")?;
            emit_string_hash(f);
        },
    }
    Ok(())
}

} // verus!
