//! Binary pattern matching, `<<segments>>`.
//!
//! The subject's length is compared first: exactly where no greedy tail
//! follows, and from below where one does. A subject of another length
//! does not match, and nothing of it is read. Then every segment in
//! source order adds its own test to the running success bit. Literals
//! are compared, bindings are extracted and stored, and a greedy tail is
//! copied into a fresh block of `8 + ceil(remaining_bits / 8)` bytes that
//! carries the exact number of bits.

use vstd::arithmetic::power2::{
    lemma2_to64, lemma2_to64_rest, lemma_pow2_adds, lemma_pow2_pos,
    lemma_pow2_strictly_increases, pow2,
};
use vstd::bits::lemma_u64_shl_is_mul;
use vstd::prelude::*;
use crate::emit::frame::{undefined_local, Frame, Scope};
use crate::emit::heap_layout::{load_bit_length, load_bit_length_code};
use crate::error::{says, LlvmError};
use crate::ir::{BinaryEndian, BinarySign, IRType, LoweredBinaryMatchLayout, LoweredBinaryPattern};
use crate::llvm::{
    a1, a3, call, gep_in, iadd, iand, ilshr, isub, itest, num, BinOp, Body, CastOp, Code, Inst,
    LType, Pred, Val,
};
use crate::memory::{
    big_number, big_number_fits, byte, byte_limit_is_power, number, number_and_last_byte, Memory,
};
use crate::runtime::Rt;
use crate::semantics::{later_code_keeps_values, recording_keeps_values, signed_value, wrapped};
use crate::text::{concat3, concat5, decimal, u64_text};

verus! {

/// Size in bytes of the header of a greedy tail's block.
pub const TAIL_HEADER_BYTES: u64 = 8;

/// How far byte `i` of `n` is shifted to its place.
pub open spec fn byte_shift(endian: BinaryEndian, n: u64, i: u64) -> u64 {
    match endian {
        BinaryEndian::Little => (i * 8) as u64,
        BinaryEndian::Big => ((n - 1 - i) * 8) as u64,
    }
}

/// The first `k` of `n` bytes behind `payload + byte_offset`, assembled
/// into an `i64`.
pub open spec fn extract_int_code(
    s: Code,
    payload: Val,
    byte_offset: u64,
    n: u64,
    endian: BinaryEndian,
    k: nat,
) -> (Code, Val)
    decreases k,
{
    if k == 0 {
        (s, num(0))
    } else {
        let (t, acc) = extract_int_code(s, payload, byte_offset, n, endian, (k - 1) as nat);
        let u = t.i(gep_in(payload, num((byte_offset + k - 1) as u64)))
            .i(Inst::Load(LType::I8, t.v(0)))
            .i(Inst::Cast(CastOp::ZExt, LType::I8, t.v(1), LType::I64));
        let shift = byte_shift(endian, n, (k - 1) as u64);
        if shift > 0 {
            (
                u.i(Inst::Bin(BinOp::Shl, LType::I64, t.v(2), num(shift))).i(
                    Inst::Bin(BinOp::Or, LType::I64, acc, t.v(3)),
                ),
                t.v(4),
            )
        } else {
            (u.i(Inst::Bin(BinOp::Or, LType::I64, acc, t.v(2))), t.v(3))
        }
    }
}

/// From place `from` on, a load of a byte gives the byte at its address.
pub open spec fn reads_bytes(
    code: Code,
    env: spec_fn(Val) -> u64,
    memory: Memory,
    from: nat,
) -> bool {
    forall|i: int|
        from <= i < code.log.len() ==> match (#[trigger] code.log[i]).inst {
            Inst::Load(LType::I8, p) => env(Val::At(i as usize)) == byte(
                memory,
                code.value(env, p) as int,
            ),
            _ => true,
        }
}

/// What the first `k` of `n` bytes at an address add up to.
pub open spec fn placed(memory: Memory, p: int, endian: BinaryEndian, n: u64, k: nat) -> int {
    match endian {
        BinaryEndian::Little => number(memory, p, k),
        BinaryEndian::Big => big_number(memory, p, k) * pow2((8 * (n - k)) as nat),
    }
}

proof fn byte_joins_low(acc: u64, b: u64, shift: u64)
    by (bit_vector)
    requires
        shift <= 56,
        acc < (1u64 << shift),
        b < 256,
    ensures
        acc | (b << shift) == acc + (b << shift),
{
}

proof fn byte_joins_high(t: u64, b: u64, shift: u64, rest: u64, high: u64)
    by (bit_vector)
    requires
        shift <= 48,
        rest == 56 - shift,
        high == shift + 8,
        t < (1u64 << rest),
        b < 256,
    ensures
        (t << high) | (b << shift) == (t << high) + (b << shift),
{
}

/// One more byte comes to its place.
pub proof fn byte_is_placed(
    memory: Memory,
    p: int,
    endian: BinaryEndian,
    n: u64,
    k: nat,
    acc: u64,
)
    requires
        1 <= k <= n <= 8,
        acc == placed(memory, p, endian, n, (k - 1) as nat),
    ensures
        (acc | ((byte(memory, p + k - 1) as u64) << byte_shift(endian, n, (k - 1) as u64)))
            == placed(memory, p, endian, n, k),
        byte_shift(endian, n, (k - 1) as u64) == 0 ==> (acc | (byte(memory, p + k - 1) as u64))
            == placed(memory, p, endian, n, k),
        byte_shift(endian, n, (k - 1) as u64) <= 56,
        (byte(memory, p + k - 1) as u64) * pow2(
            byte_shift(endian, n, (k - 1) as u64) as nat,
        ) <= u64::MAX,
{
    let b = byte(memory, p + k - 1) as u64;
    let shift = byte_shift(endian, n, (k - 1) as u64);
    lemma2_to64();
    lemma2_to64_rest();
    assert(b * pow2(shift as nat) <= u64::MAX) by {
        if shift < 56 {
            lemma_pow2_strictly_increases(shift as nat, 56);
        }
        assert(b * pow2(shift as nat) <= 255 * 0x100_0000_0000_0000) by (nonlinear_arith)
            requires
                0 <= b <= 255,
                0 <= pow2(shift as nat) <= 0x100_0000_0000_0000,
        ;
    }
    lemma_u64_shl_is_mul(b, shift);
    assert(b << 0 == b) by (bit_vector);
    match endian {
        BinaryEndian::Little => {
            number_and_last_byte(memory, p, (k - 1) as nat);
            number_and_last_byte(memory, p, k);
            byte_limit_is_power((k - 1) as nat);
            if shift < 56 {
                lemma_pow2_strictly_increases(shift as nat, 56);
            }
            lemma_u64_shl_is_mul(1, shift);
            byte_joins_low(acc, b, shift);
        },
        BinaryEndian::Big => {
            if k == 1 {
                assert(acc == 0);
                assert(0 | (b << shift) == b << shift) by (bit_vector);
                assert(big_number(memory, p, 1) == 0x100 * big_number(memory, p, 0) + b);
                assert(big_number(memory, p, 0) == 0);
                assert(n - 1 == n - k);
            } else {
                let t = big_number(memory, p, (k - 1) as nat);
                big_number_fits(memory, p, (k - 1) as nat);
                byte_limit_is_power((k - 1) as nat);
                let rest = (56 - shift) as u64;
                assert(8 * (k - 1) <= rest);
                if 8 * (k - 1) < rest {
                    lemma_pow2_strictly_increases((8 * (k - 1)) as nat, rest as nat);
                }
                if rest < 56 {
                    lemma_pow2_strictly_increases(rest as nat, 56);
                }
                lemma_u64_shl_is_mul(1, rest);
                lemma_pow2_adds(8, shift as nat);
                let high = (shift + 8) as u64;
                assert(8 * (n - (k - 1)) == high);
                assert(t * pow2(high as nat) == acc);
                lemma_u64_shl_is_mul(t as u64, high);
                byte_joins_high(t as u64, b, shift, rest, high);
                assert(t * (0x100 * pow2(shift as nat)) + b * pow2(shift as nat) == (0x100 * t + b)
                    * pow2(shift as nat)) by (nonlinear_arith);
            }
        },
    }
}

/// The code of one byte and the running value.
spec fn byte_code(t: Code, payload: Val, at: u64, acc: Val, shift: u64) -> (Code, Val) {
    let u = t.i(gep_in(payload, num(at)))
        .i(Inst::Load(LType::I8, t.v(0)))
        .i(Inst::Cast(CastOp::ZExt, LType::I8, t.v(1), LType::I64));
    if shift > 0 {
        (
            u.i(Inst::Bin(BinOp::Shl, LType::I64, t.v(2), num(shift))).i(
                Inst::Bin(BinOp::Or, LType::I64, acc, t.v(3)),
            ),
            t.v(4),
        )
    } else {
        (u.i(Inst::Bin(BinOp::Or, LType::I64, acc, t.v(2))), t.v(3))
    }
}

/// One byte is read, shifted and added.
proof fn byte_value(
    t: Code,
    env: spec_fn(Val) -> u64,
    payload: Val,
    at: u64,
    acc: Val,
    shift: u64,
    b: u64,
)
    requires
        byte_code(t, payload, at, acc, shift).0.log.len() <= usize::MAX,
        t.defines(payload),
        t.defines(acc),
        shift < 64,
        env(t.v(1)) == b,
        b * pow2(shift as nat) <= u64::MAX,
    ensures
        ({
            let (u, r) = byte_code(t, payload, at, acc, shift);
            let c1 = t.i(gep_in(payload, num(at)));
            &&& t.log.is_prefix_of(u.log)
            &&& c1.log.is_prefix_of(u.log)
            &&& u.log.len() > t.log.len() + 1
            &&& u.log[t.log.len() as int + 1].inst == Inst::Load(LType::I8, t.v(0))
            &&& u.defines(r)
            &&& c1.value(env, t.v(0)) == wrapped(LType::I64, t.value(env, payload) + at)
            &&& u.value(env, r) == t.value(env, acc) | (if shift > 0 {
                b << shift
            } else {
                b
            })
        }),
{
    let gep = gep_in(payload, num(at));
    let load = Inst::Load(LType::I8, t.v(0));
    let cast = Inst::Cast(CastOp::ZExt, LType::I8, t.v(1), LType::I64);
    let c1 = t.i(gep);
    let c2 = c1.i(load);
    let c3 = c2.i(cast);
    let u = byte_code(t, payload, at, acc, shift).0;
    assert(t.log =~= u.log.subrange(0, t.log.len() as int));
    assert(c1.log =~= u.log.subrange(0, c1.log.len() as int));
    recording_keeps_values(t, env, gep);
    assert(c1.value(env, acc) == t.value(env, acc));
    recording_keeps_values(c1, env, load);
    assert(c2.value(env, acc) == t.value(env, acc));
    assert(c2.value(env, t.v(1)) == b);
    recording_keeps_values(c2, env, cast);
    assert(c3.value(env, acc) == t.value(env, acc));
    assert(c3.value(env, t.v(2)) == b);
    if shift > 0 {
        let shl = Inst::Bin(BinOp::Shl, LType::I64, t.v(2), num(shift));
        recording_keeps_values(c3, env, shl);
        let c4 = c3.i(shl);
        assert(c4.value(env, acc) == t.value(env, acc));
        assert(c4.value(env, t.v(3)) == b << shift);
        recording_keeps_values(c4, env, Inst::Bin(BinOp::Or, LType::I64, acc, t.v(3)));
    } else {
        recording_keeps_values(c3, env, Inst::Bin(BinOp::Or, LType::I64, acc, t.v(2)));
    }
}

/// A prefix of a prefix.
proof fn prefix_of_prefix(a: Code, b: Code, whole: Code)
    requires
        a.log.is_prefix_of(b.log),
        b.log.is_prefix_of(whole.log),
    ensures
        a.log.is_prefix_of(whole.log),
{
    assert forall|i: int| 0 <= i < a.log.len() implies #[trigger] a.log[i] == whole.log[i] by {
        assert(a.log[i] == b.log.subrange(0, a.log.len() as int)[i]);
        assert(b.log[i] == whole.log.subrange(0, b.log.len() as int)[i]);
    }
    assert(a.log =~= whole.log.subrange(0, a.log.len() as int));
}

#[verifier::rlimit(50)]
proof fn bytes_are_placed(
    s: Code,
    whole: Code,
    env: spec_fn(Val) -> u64,
    memory: Memory,
    payload: Val,
    byte_offset: u64,
    n: u64,
    endian: BinaryEndian,
    k: nat,
)
    requires
        k <= n <= 8,
        byte_offset + n <= u64::MAX,
        s.defines(payload),
        whole.log.len() <= usize::MAX,
        extract_int_code(s, payload, byte_offset, n, endian, k).0.log.is_prefix_of(whole.log),
        reads_bytes(whole, env, memory, s.log.len()),
    ensures
        ({
            let (t, acc) = extract_int_code(s, payload, byte_offset, n, endian, k);
            &&& s.log.is_prefix_of(t.log)
            &&& t.defines(acc)
            &&& t.value(env, acc) == placed(
                memory,
                s.value(env, payload) + byte_offset,
                endian,
                n,
                k,
            )
        }),
    decreases k,
{
    let p = s.value(env, payload) + byte_offset;
    let (u, r) = extract_int_code(s, payload, byte_offset, n, endian, k);
    if k == 0 {
        assert(s.log =~= s.log.subrange(0, s.log.len() as int));
        assert(placed(memory, p, endian, n, 0) == 0);
    } else {
        let (t, acc) = extract_int_code(s, payload, byte_offset, n, endian, (k - 1) as nat);
        let at = (byte_offset + k - 1) as u64;
        let shift = byte_shift(endian, n, (k - 1) as u64);
        let b = byte(memory, p + k - 1) as u64;
        let c1 = t.i(gep_in(payload, num(at)));
        assert((u, r) == byte_code(t, payload, at, acc, shift));
        assert(t.log =~= u.log.subrange(0, t.log.len() as int));
        assert(c1.log =~= u.log.subrange(0, c1.log.len() as int));
        prefix_of_prefix(t, u, whole);
        prefix_of_prefix(c1, u, whole);
        bytes_are_placed(s, whole, env, memory, payload, byte_offset, n, endian, (k - 1) as nat);
        prefix_of_prefix(s, t, u);
        later_code_keeps_values(s, t, env, payload);
        byte_is_placed(memory, p, endian, n, k, t.value(env, acc));
        recording_keeps_values(t, env, gep_in(payload, num(at)));
        later_code_keeps_values(c1, whole, env, t.v(0));
        let load = t.log.len() as int + 1;
        assert(whole.log[load].inst == Inst::Load(LType::I8, t.v(0))) by {
            assert(u.log[load] == whole.log.subrange(0, u.log.len() as int)[load]);
        }
        assert(whole.value(env, t.v(0)) == wrapped(LType::I64, p + k - 1));
        assert(env(t.v(1)) == byte(memory, whole.value(env, t.v(0)) as int));
        assert(env(t.v(1)) == b);
        byte_value(t, env, payload, at, acc, shift, b);
    }
}

/// An extracted integer is the number that its bytes make up: with the
/// high byte first where the segment is big-endian, with the low one first
/// where it is little-endian.
pub proof fn extracted_value(
    s: Code,
    env: spec_fn(Val) -> u64,
    memory: Memory,
    payload: Val,
    byte_offset: u64,
    n: u64,
    endian: BinaryEndian,
)
    requires
        n <= 8,
        byte_offset + n <= u64::MAX,
        s.defines(payload),
        ({
            let code = extract_int_code(s, payload, byte_offset, n, endian, n as nat).0;
            code.log.len() <= usize::MAX && reads_bytes(code, env, memory, s.log.len())
        }),
    ensures
        ({
            let (code, r) = extract_int_code(s, payload, byte_offset, n, endian, n as nat);
            let p = s.value(env, payload) + byte_offset;
            code.value(env, r) == match endian {
                BinaryEndian::Big => big_number(memory, p, n as nat),
                BinaryEndian::Little => number(memory, p, n as nat),
            }
        }),
{
    let code = extract_int_code(s, payload, byte_offset, n, endian, n as nat).0;
    assert(code.log =~= code.log.subrange(0, code.log.len() as int));
    bytes_are_placed(s, code, env, memory, payload, byte_offset, n, endian, n as nat);
    lemma2_to64();
    assert(pow2((8 * (n - n as nat)) as nat) == 1);
}

/// Reads `n` bytes behind `payload + byte_offset` as an integer. `Big`
/// has the high byte first, `Little` the low one.
pub fn extract_int(f: &mut Body, payload: Val, byte_offset: u64, n: u64, endian: BinaryEndian) -> (r:
    Val)
    requires
        byte_offset <= 0x2000_0000_0000_0000,
        n <= 0x1fff_ffff_ffff_ffff,
    ensures
        (final(f)@, r) == extract_int_code(old(f)@, payload, byte_offset, n, endian, n as nat),
{
    let mut result = num(0);
    let mut i: u64 = 0;
    while i < n
        invariant
            i <= n,
            byte_offset <= 0x2000_0000_0000_0000,
            n <= 0x1fff_ffff_ffff_ffff,
            (f@, result) == extract_int_code(
                old(f)@,
                payload,
                byte_offset,
                n,
                endian,
                i as nat,
            ),
        decreases n - i,
    {
        let ptr = f.ins(gep_in(payload, num(byte_offset + i)));
        let byte = f.ins(Inst::Load(LType::I8, ptr));
        let wide = f.ins(Inst::Cast(CastOp::ZExt, LType::I8, byte, LType::I64));
        let shift: u64 = match endian {
            BinaryEndian::Little => i * 8,
            BinaryEndian::Big => (n - 1 - i) * 8,
        };
        let shifted = if shift > 0 {
            f.ins(Inst::Bin(BinOp::Shl, LType::I64, wide, num(shift)))
        } else {
            wide
        };
        result = f.ins(Inst::Bin(BinOp::Or, LType::I64, result, shifted));
        i = i + 1;
    }
    result
}

/// The low `width` bits, all of them from 64 on.
pub open spec fn low_mask(width: u64) -> u64 {
    if width >= 64 {
        u64::MAX
    } else {
        ((1u64 << width) - 1) as u64
    }
}

/// The low `width` bits, all of them from 64 on.
pub fn mask_for_width(width: u64) -> (r: u64)
    ensures
        r == low_mask(width),
{
    if width >= 64 {
        u64::MAX
    } else {
        assert(1u64 << width >= 1) by (bit_vector)
            requires
                width < 64,
        ;
        (1u64 << width) - 1
    }
}

/// A segment that begins and ends on whole bytes.
pub open spec fn byte_aligned(bit_offset: u64, width: u64) -> bool {
    bit_offset % 8 == 0 && width % 8 == 0
}

/// What is said of a segment that does not lie on whole bytes.
pub open spec fn not_on_bytes(what: Seq<char>, bit_offset: u64, width: u64) -> Seq<char> {
    let at = " (bit_offset="@ + decimal(bit_offset as nat) + ", width="@;
    "sub-byte binary "@ + what + at + decimal(width as nat) + ") is not supported"@
}

/// What is said of a segment that cannot be emitted.
pub open spec fn segment_fault(sc: Scope, segment: LoweredBinaryPattern) -> Seq<char> {
    match segment {
        LoweredBinaryPattern::LiteralInt { bit_offset, width, .. } => not_on_bytes(
            "literal pattern segment"@,
            bit_offset,
            width,
        ),
        LoweredBinaryPattern::BindInt { bit_offset, local, ty, width, .. } => if !byte_aligned(
            bit_offset,
            width,
        ) {
            not_on_bytes("binding pattern segment"@, bit_offset, width)
        } else if binding_type(ty) is None {
            "binary pattern binding is not of an integer type"@
        } else {
            undefined_local(local)
        },
        LoweredBinaryPattern::GreedyTail { bit_offset, local } => if bit_offset % 8 != 0 {
            not_on_bytes("greedy-tail segment"@, bit_offset, 0)
        } else {
            undefined_local(local->0)
        },
        _ => ""@,
    }
}

fn sub_byte(what: &str, bit_offset: u64, width: u64) -> (r: LlvmError)
    ensures
        says(r, not_on_bytes(what@, bit_offset, width)),
{
    let at = concat3(" (bit_offset=", u64_text(bit_offset).as_str(), ", width=");
    LlvmError::Codegen(
        concat5(
            "sub-byte binary ",
            what,
            at.as_str(),
            u64_text(width).as_str(),
            ") is not supported",
        ),
    )
}

/// A test for an integer literal.
pub open spec fn literal_int_code(
    s: Code,
    payload: Val,
    bit_offset: u64,
    endian: BinaryEndian,
    value: u64,
    width: u64,
) -> (Code, Val) {
    let (t, extracted) = extract_int_code(
        s,
        payload,
        bit_offset / 8,
        width / 8,
        endian,
        (width / 8) as nat,
    );
    (
        t.i(iand(extracted, num(low_mask(width))))
            .i(iand(num(value), num(low_mask(width))))
            .i(itest(Pred::Eq, t.v(0), t.v(1))),
        t.v(2),
    )
}

/// Emits the test for an integer literal.
pub fn emit_literal_int(
    f: &mut Body,
    payload: Val,
    bit_offset: u64,
    endian: BinaryEndian,
    value: u64,
    width: u64,
) -> (r: Result<Val, LlvmError>)
    ensures
        match r {
            Ok(v) => byte_aligned(bit_offset, width) && (final(f)@, v) == literal_int_code(
                old(f)@,
                payload,
                bit_offset,
                endian,
                value,
                width,
            ),
            Err(e) => !byte_aligned(bit_offset, width) && says(
                e,
                not_on_bytes("literal pattern segment"@, bit_offset, width),
            ) && final(f)@ == old(f)@,
        },
{
    if bit_offset % 8 != 0 || width % 8 != 0 {
        return Err(sub_byte("literal pattern segment", bit_offset, width));
    }
    let extracted = extract_int(f, payload, bit_offset / 8, width / 8, endian);
    let mask: u64 = mask_for_width(width);
    let masked_ext = f.ins(iand(extracted, num(mask)));
    let masked_lit = f.ins(iand(num(value), num(mask)));
    Ok(f.ins(itest(Pred::Eq, masked_ext, masked_lit)))
}

/// A test for a run of literal bytes. No bytes always match.
pub open spec fn literal_bytes_code(
    s: Code,
    payload: Val,
    bit_offset: u64,
    bytes: Seq<u8>,
) -> (Code, Val) {
    if bytes.len() == 0 {
        (s, num(1))
    } else {
        (
            s.i(gep_in(payload, num(bit_offset / 8)))
                .literal(bytes)
                .i(call(Rt::MemCompare, a3(s.v(0), s.tv(0), num(bytes.len() as u64))))
                .i(Inst::ITest(Pred::Eq, LType::I32, s.v(1), num(0))),
            s.v(2),
        )
    }
}

/// Emits the test for a run of literal bytes.
pub fn emit_literal_bytes(f: &mut Body, payload: Val, bit_offset: u64, bytes: &Vec<u8>) -> (r: Val)
    ensures
        (final(f)@, r) == literal_bytes_code(old(f)@, payload, bit_offset, bytes@),
{
    if bytes.len() == 0 {
        return num(1);
    }
    let at = f.ins(gep_in(payload, num(bit_offset / 8)));
    let literal = f.literal(bytes.as_slice());
    let order = f.ins(call(Rt::MemCompare, a3(at, literal, num(bytes.len() as u64))));
    f.ins(Inst::ITest(Pred::Eq, LType::I32, order, num(0)))
}

/// The low `width` bits of an extracted integer, extended by their sign
/// where the segment is signed.
pub open spec fn extend_code(s: Code, extracted: Val, sign: BinarySign, width: u64) -> (Code, Val) {
    if sign == BinarySign::Signed && 0 < width < 64 {
        (
            s.i(Inst::Bin(BinOp::Shl, LType::I64, extracted, num((64 - width) as u64))).i(
                Inst::Bin(BinOp::AShr, LType::I64, s.v(0), num((64 - width) as u64)),
            ),
            s.v(1),
        )
    } else {
        (s, extracted)
    }
}

/// The number that the low `width` bits of a word stand for.
pub open spec fn segment_value(x: u64, sign: BinarySign, width: u64) -> int {
    if sign == BinarySign::Signed && 2 * x >= pow2(width as nat) {
        x - pow2(width as nat)
    } else {
        x as int
    }
}

/// Shifting a number up to the sign and back extends it by its sign.
pub proof fn extended_bits(x: u64, width: u64)
    requires
        0 < width < 64,
        x < pow2(width as nat),
    ensures
        ({
            let h = (64 - width) as u64;
            &&& wrapped(LType::I64, (x << h) as int) == x << h
            &&& wrapped(
                LType::I64,
                signed_value(LType::I64, x << h) / (1u64 << h) as int,
            ) == wrapped(LType::I64, segment_value(x, BinarySign::Signed, width))
        }),
{
    let h = (64 - width) as u64;
    let (low, high) = (pow2(width as nat) as int, pow2(h as nat) as int);
    lemma_pow2_adds(width as nat, h as nat);
    lemma2_to64();
    lemma_pow2_pos(width as nat);
    lemma_pow2_pos(h as nat);
    lemma_pow2_strictly_increases(h as nat, 64);
    assert(0 <= x * high < 0x1_0000_0000_0000_0000) by (nonlinear_arith)
        requires
            0 <= x < low,
            0 < high,
            low * high == 0x1_0000_0000_0000_0000,
    ;
    lemma_u64_shl_is_mul(x, h);
    lemma_u64_shl_is_mul(1, h);
    let y = segment_value(x, BinarySign::Signed, width);
    assert(2 * (x * high) >= 0x1_0000_0000_0000_0000 <==> 2 * x >= low) by (nonlinear_arith)
        requires
            0 < high,
            low * high == 0x1_0000_0000_0000_0000,
    ;
    assert(y * high == if 2 * x >= low {
        x * high - 0x1_0000_0000_0000_0000
    } else {
        x * high
    }) by (nonlinear_arith)
        requires
            y == (if 2 * x >= low {
                x - low
            } else {
                x as int
            }),
            low * high == 0x1_0000_0000_0000_0000,
    ;
    assert((y * high) / high == y) by (nonlinear_arith)
        requires
            high > 0,
    ;
}

/// A signed segment is extended by its sign, an unsigned one is not.
pub proof fn extended_value(
    s: Code,
    env: spec_fn(Val) -> u64,
    extracted: Val,
    sign: BinarySign,
    width: u64,
)
    requires
        s.room(2),
        s.defines(extracted),
        0 < width < 64,
        s.value(env, extracted) < pow2(width as nat),
    ensures
        ({
            let (code, r) = extend_code(s, extracted, sign, width);
            let x = s.value(env, extracted);
            wrapped(LType::I64, segment_value(x, sign, width)) == code.value(env, r)
        }),
{
    let x = s.value(env, extracted);
    if sign == BinarySign::Signed {
        let h = (64 - width) as u64;
        extended_bits(x, width);
        let shl = Inst::Bin(BinOp::Shl, LType::I64, extracted, num(h));
        recording_keeps_values(s, env, shl);
        let c1 = s.i(shl);
        assert(c1.value(env, s.v(0)) == x << h);
        let ashr = Inst::Bin(BinOp::AShr, LType::I64, s.v(0), num(h));
        recording_keeps_values(c1, env, ashr);
    }
}

/// Extends an extracted integer by its sign where the segment is signed.
pub fn extend_for_sign(f: &mut Body, extracted: Val, sign: BinarySign, width: u64) -> (r: Val)
    ensures
        (final(f)@, r) == extend_code(old(f)@, extracted, sign, width),
{
    if sign == BinarySign::Signed && 0 < width && width < 64 {
        let left = f.ins(Inst::Bin(BinOp::Shl, LType::I64, extracted, num(64 - width)));
        f.ins(Inst::Bin(BinOp::AShr, LType::I64, left, num(64 - width)))
    } else {
        extracted
    }
}

/// The integer types a segment can be bound as.
pub open spec fn binding_type(ty: IRType) -> Option<LType> {
    match ty {
        IRType::Int8 | IRType::UInt8 => Some(LType::I8),
        IRType::Int16 | IRType::UInt16 => Some(LType::I16),
        IRType::Int32 | IRType::UInt32 => Some(LType::I32),
        IRType::Int64 | IRType::UInt64 => Some(LType::I64),
        _ => None,
    }
}

/// The integer type a segment is bound as.
pub fn narrow_target(ty: IRType) -> (r: Option<LType>)
    ensures
        r == binding_type(ty),
{
    match ty {
        IRType::Int8 | IRType::UInt8 => Some(LType::I8),
        IRType::Int16 | IRType::UInt16 => Some(LType::I16),
        IRType::Int32 | IRType::UInt32 => Some(LType::I32),
        IRType::Int64 | IRType::UInt64 => Some(LType::I64),
        _ => None,
    }
}

/// An `i64` as the type of a binding.
pub open spec fn narrow_code(s: Code, value: Val, target: LType) -> (Code, Val) {
    if target == LType::I64 {
        (s, value)
    } else {
        (s.i(Inst::Cast(CastOp::Trunc, LType::I64, value, target)), s.v(0))
    }
}

/// Narrows an `i64` to the type of a binding.
pub fn narrow_to(f: &mut Body, value: Val, target: LType) -> (r: Val)
    ensures
        (final(f)@, r) == narrow_code(old(f)@, value, target),
{
    if target == LType::I64 {
        value
    } else {
        f.ins(Inst::Cast(CastOp::Trunc, LType::I64, value, target))
    }
}

/// A binding: the integer extracted, extended, narrowed and stored in its
/// local.
pub open spec fn bind_int_code(
    s: Code,
    payload: Val,
    bit_offset: u64,
    endian: BinaryEndian,
    sign: BinarySign,
    target: LType,
    width: u64,
    slot: Val,
) -> Code {
    let (t, extracted) = extract_int_code(
        s,
        payload,
        bit_offset / 8,
        width / 8,
        endian,
        (width / 8) as nat,
    );
    let (u, extended) = extend_code(t, extracted, sign, width);
    let (w, narrowed) = narrow_code(u, extended, target);
    w.i(Inst::Store(target, narrowed, slot))
}

/// Emits a binding.
pub fn emit_bind_int(
    f: &mut Body,
    payload: Val,
    bit_offset: u64,
    endian: BinaryEndian,
    sign: BinarySign,
    target: LType,
    width: u64,
    slot: Val,
)
    requires
        byte_aligned(bit_offset, width),
    ensures
        final(f)@ == bind_int_code(
            old(f)@,
            payload,
            bit_offset,
            endian,
            sign,
            target,
            width,
            slot,
        ),
{
    let extracted = extract_int(f, payload, bit_offset / 8, width / 8, endian);
    let extended = extend_for_sign(f, extracted, sign, width);
    let narrowed = narrow_to(f, extended, target);
    f.ins(Inst::Store(target, narrowed, slot));
}

/// A greedy tail: the bits behind the prefix, rounded up to whole bytes,
/// in a block of their own, whose payload pointer is stored in a local. The
/// block begins with the length word: unlike the block of a heap leaf it
/// has no room for a reference count, so none may be taken of it.
pub open spec fn greedy_tail_code(
    s: Code,
    payload: Val,
    bit_length: Val,
    bit_offset: u64,
    slot: Val,
) -> Code {
    s.i(isub(bit_length, num(bit_offset)))
        .i(iadd(s.v(0), num(7)))
        .i(ilshr(s.v(1), 3))
        .i(iadd(num(TAIL_HEADER_BYTES), s.v(2)))
        .i(call(Rt::Malloc, a1(s.v(3))))
        .i(Inst::Store(LType::I64, s.v(0), s.v(4)))
        .i(gep_in(s.v(4), num(TAIL_HEADER_BYTES)))
        .i(gep_in(payload, num(bit_offset / 8)))
        .i(call(Rt::Memcpy, a3(s.v(6), s.v(7), s.v(2))))
        .i(Inst::Store(LType::Ptr, s.v(6), slot))
}

/// Emits a greedy tail.
pub fn emit_greedy_tail(f: &mut Body, payload: Val, bit_length: Val, bit_offset: u64, slot: Val)
    ensures
        final(f)@ == greedy_tail_code(old(f)@, payload, bit_length, bit_offset, slot),
{
    let remaining_bits = f.ins(isub(bit_length, num(bit_offset)));
    let rounded = f.ins(iadd(remaining_bits, num(7)));
    let remaining_bytes = f.ins(ilshr(rounded, 3));
    let size = f.ins(iadd(num(TAIL_HEADER_BYTES), remaining_bytes));
    let base = f.ins(call(Rt::Malloc, a1(size)));
    f.ins(Inst::Store(LType::I64, remaining_bits, base));
    let tail = f.ins(gep_in(base, num(TAIL_HEADER_BYTES)));
    let source = f.ins(gep_in(payload, num(bit_offset / 8)));
    f.ins(call(Rt::Memcpy, a3(tail, source, remaining_bytes)));
    f.ins(Inst::Store(LType::Ptr, tail, slot));
}

/// One segment and its success bit: none where it is not byte-aligned,
/// where its binding has no slot, or where it cannot be bound as its
/// type.
pub open spec fn segment_code(
    s: Code,
    sc: Scope,
    payload: Val,
    bit_length: Val,
    segment: LoweredBinaryPattern,
) -> Option<(Code, Val)> {
    match segment {
        LoweredBinaryPattern::LiteralInt { bit_offset, endian, value, width } => if byte_aligned(
            bit_offset,
            width,
        ) {
            Some(literal_int_code(s, payload, bit_offset, endian, value, width))
        } else {
            None
        },
        LoweredBinaryPattern::LiteralBytes { bit_offset, bytes } => Some(
            literal_bytes_code(s, payload, bit_offset, bytes@),
        ),
        LoweredBinaryPattern::BindInt { bit_offset, endian, local, sign, ty, width } => match (
            binding_type(ty),
            sc.local(local),
        ) {
            (Some(target), Some(slot)) => if byte_aligned(bit_offset, width) {
                Some(
                    (
                        bind_int_code(s, payload, bit_offset, endian, sign, target, width, slot),
                        num(1),
                    ),
                )
            } else {
                None
            },
            _ => None,
        },
        LoweredBinaryPattern::Discard => Some((s, num(1))),
        LoweredBinaryPattern::GreedyTail { bit_offset, local } => if bit_offset % 8 != 0 {
            None
        } else {
            match local {
                None => Some((s, num(1))),
                Some(id) => match sc.local(id) {
                    Some(slot) => Some(
                        (greedy_tail_code(s, payload, bit_length, bit_offset, slot), num(1)),
                    ),
                    None => None,
                },
            }
        },
    }
}

/// Emits one segment.
pub fn emit_segment(
    f: &mut Body,
    fr: &Frame,
    payload: Val,
    bit_length: Val,
    segment: &LoweredBinaryPattern,
) -> (r: Result<Val, LlvmError>)
    ensures
        match r {
            Ok(v) => segment_code(old(f)@, fr@, payload, bit_length, *segment) == Some(
                (final(f)@, v),
            ),
            Err(e) => segment_code(old(f)@, fr@, payload, bit_length, *segment) is None && says(
                e,
                segment_fault(fr@, *segment),
            ),
        },
{
    match segment {
        LoweredBinaryPattern::LiteralInt { bit_offset, endian, value, width } => emit_literal_int(
            f,
            payload,
            *bit_offset,
            *endian,
            *value,
            *width,
        ),
        LoweredBinaryPattern::LiteralBytes { bit_offset, bytes } => Ok(
            emit_literal_bytes(f, payload, *bit_offset, bytes),
        ),
        LoweredBinaryPattern::BindInt { bit_offset, endian, local, sign, ty, width } => {
            if *bit_offset % 8 != 0 || *width % 8 != 0 {
                return Err(sub_byte("binding pattern segment", *bit_offset, *width));
            }
            let target = match narrow_target(*ty) {
                Some(target) => target,
                None => {
                    return Err(
                        LlvmError::Codegen(
                            "binary pattern binding is not of an integer type".to_owned(),
                        ),
                    );
                },
            };
            let slot = fr.local_slot(*local)?;
            emit_bind_int(f, payload, *bit_offset, *endian, *sign, target, *width, slot);
            Ok(num(1))
        },
        LoweredBinaryPattern::Discard => Ok(num(1)),
        LoweredBinaryPattern::GreedyTail { bit_offset, local } => {
            if *bit_offset % 8 != 0 {
                return Err(sub_byte("greedy-tail segment", *bit_offset, 0));
            }
            match local {
                None => Ok(num(1)),
                Some(id) => {
                    let slot = fr.local_slot(*id)?;
                    emit_greedy_tail(f, payload, bit_length, *bit_offset, slot);
                    Ok(num(1))
                },
            }
        },
    }
}

/// The first `k` segments, each one's test added to the success bit.
pub open spec fn segments_code(
    s: Code,
    sc: Scope,
    payload: Val,
    bit_length: Val,
    seed: Val,
    segments: Seq<LoweredBinaryPattern>,
    k: nat,
) -> Option<(Code, Val)>
    decreases k,
{
    if k == 0 {
        Some((s, seed))
    } else {
        match segments_code(s, sc, payload, bit_length, seed, segments, (k - 1) as nat) {
            Some((t, acc)) => match segment_code(t, sc, payload, bit_length, segments[k - 1]) {
                Some((u, ok)) => Some((u.i(Inst::Bin(BinOp::And, LType::I1, acc, ok)), u.v(0))),
                None => None,
            },
            None => None,
        }
    }
}

proof fn failed_segments_stay(
    s: Code,
    sc: Scope,
    payload: Val,
    bit_length: Val,
    seed: Val,
    segments: Seq<LoweredBinaryPattern>,
    n: nat,
    m: nat,
)
    requires
        n <= m,
        segments_code(s, sc, payload, bit_length, seed, segments, n) is None,
    ensures
        segments_code(s, sc, payload, bit_length, seed, segments, m) is None,
    decreases m - n,
{
    if n < m {
        failed_segments_stay(s, sc, payload, bit_length, seed, segments, n, (m - 1) as nat);
    }
}

/// The length test that seeds the success bit: how many whole bytes the
/// subject has.
pub open spec fn length_check_code(s: Code, payload: Val, layout: LoweredBinaryMatchLayout) -> Code {
    load_bit_length_code(s, payload)
        .i(ilshr(s.v(1), 3))
        .i(
            itest(
                if layout.has_greedy_tail {
                    Pred::Uge
                } else {
                    Pred::Eq
                },
                s.v(2),
                num(layout.fixed_bits / 8),
            ),
        )
}

/// The length test and the way past the segments where it fails. The
/// blocks are extract and done.
pub open spec fn guarded_code(s: Code, payload: Val, layout: LoweredBinaryMatchLayout) -> Code {
    length_check_code(s, payload, layout)
        .word("bin_pat_extract"@).word("bin_pat_done"@)
        .i(Inst::CondBr(s.v(3), s.b(0), s.b(1)))
        .at(s.b(0))
}

/// A binary match and its success bit. Nothing is read of a subject that
/// fails the length test.
pub open spec fn binary_match_code(
    s: Code,
    sc: Scope,
    layout: LoweredBinaryMatchLayout,
    segments: Seq<LoweredBinaryPattern>,
    payload: Val,
) -> Option<(Code, Val)> {
    match segments_code(
        guarded_code(s, payload, layout),
        sc,
        payload,
        s.v(1),
        s.v(3),
        segments,
        segments.len(),
    ) {
        Some((t, acc)) => Some(
            (
                t.i(Inst::Br(s.b(1)))
                    .at(s.b(1))
                    .i(Inst::Phi(LType::I1))
                    .edge(t.v(1), num(0), s.cur)
                    .edge(t.v(1), acc, t.cur),
                t.v(1),
            ),
        ),
        None => None,
    }
}

/// The first segment that cannot be emitted.
pub open spec fn first_failing(
    h: Code,
    sc: Scope,
    payload: Val,
    bit_length: Val,
    seed: Val,
    segments: Seq<LoweredBinaryPattern>,
    k: nat,
) -> bool {
    &&& k < segments.len()
    &&& segments_code(h, sc, payload, bit_length, seed, segments, k) matches Some((t, _))
        && segment_code(t, sc, payload, bit_length, segments[k as int]) is None
}

/// What is said of a match that cannot be emitted: what is said of its first
/// segment that cannot.
pub open spec fn match_fault(
    s: Code,
    sc: Scope,
    layout: LoweredBinaryMatchLayout,
    segments: Seq<LoweredBinaryPattern>,
    payload: Val,
    e: LlvmError,
) -> bool {
    exists|k: nat| #[trigger]
        first_failing(guarded_code(s, payload, layout), sc, payload, s.v(1), s.v(3), segments, k) && says(
            e,
            segment_fault(sc, segments[k as int]),
        )
}

/// Emits a binary match.
pub fn emit_binary_match(
    f: &mut Body,
    fr: &Frame,
    layout: LoweredBinaryMatchLayout,
    segments: &Vec<LoweredBinaryPattern>,
    payload: Val,
) -> (r: Result<Val, LlvmError>)
    ensures
        match r {
            Ok(v) => binary_match_code(old(f)@, fr@, layout, segments@, payload) == Some(
                (final(f)@, v),
            ),
            Err(e) => binary_match_code(old(f)@, fr@, layout, segments@, payload) is None && match_fault(
                old(f)@,
                fr@,
                layout,
                segments@,
                payload,
                e,
            ),
        },
{
    let host: usize = f.cur;
    let bit_length = load_bit_length(f, payload);
    let byte_length = f.ins(ilshr(bit_length, 3));
    let pred = if layout.has_greedy_tail {
        Pred::Uge
    } else {
        Pred::Eq
    };
    let long_enough = f.ins(itest(pred, byte_length, num(layout.fixed_bits / 8)));
    let extract: usize = f.block("bin_pat_extract");
    let done: usize = f.block("bin_pat_done");
    f.ins(Inst::CondBr(long_enough, extract, done));
    f.at(extract);
    let mut success = long_enough;
    let ghost h = f@;
    let mut i: usize = 0;
    while i < segments.len()
        invariant
            i <= segments.len(),
            h == guarded_code(old(f)@, payload, layout),
            bit_length == old(f)@.v(1),
            long_enough == old(f)@.v(3),
            done == old(f)@.b(1),
            segments_code(h, fr@, payload, bit_length, long_enough, segments@, i as nat) == Some(
                (f@, success),
            ),
        decreases segments.len() - i,
    {
        match emit_segment(f, fr, payload, bit_length, &segments[i]) {
            Ok(ok) => {
                success = f.ins(Inst::Bin(BinOp::And, LType::I1, success, ok));
            },
            Err(e) => {
                proof {
                    failed_segments_stay(
                        h,
                        fr@,
                        payload,
                        bit_length,
                        long_enough,
                        segments@,
                        (i + 1) as nat,
                        segments@.len(),
                    );
                    assert(first_failing(
                        h,
                        fr@,
                        payload,
                        bit_length,
                        long_enough,
                        segments@,
                        i as nat,
                    ));
                }
                return Err(e);
            },
        }
        i = i + 1;
    }
    let last: usize = f.cur;
    f.ins(Inst::Br(done));
    f.at(done);
    let matched = f.ins(Inst::Phi(LType::I1));
    f.edge(matched, num(0), host);
    f.edge(matched, success, last);
    Ok(matched)
}

} // verus!
