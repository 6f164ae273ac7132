//! What intrinsics on strings, binaries and pointers give back.
//!
//! A payload keeps its length in bits in the word before it.

use vstd::prelude::*;
use crate::ctx::EmitContext;

use crate::emit::enums::enum_value_code;
use crate::emit::heap_layout::{load_bit_length_code, rc_inc_code, NEG_HEADER, NEG_LENGTH};

use crate::emit::variants::{gave_variant, lies_in};
use crate::intrinsics::binary::{binary_code, bits_code, byte_lookup_code, to_binary_code, to_string_code};
use crate::intrinsics::cptr::cptr_code;
use crate::intrinsics::heap_payload::{byte_count_code, copy_payload_code};
use crate::intrinsics::outcomes::{
    carries_error, error_is_returned, gave_error, ret_ok_stands, ret_unit_error_stands, single_is_returned,
    single_stands, unit_is_returned, unit_stands,
};
use crate::intrinsics::result::{ret_ok_code, ret_unit_error_code, unit_error};
use crate::intrinsics::string::{byte_length_code, slice_code, string_code};
use crate::ir::{
    BinaryMethod, BitsMethod, CPtrMethod, IRFunction, IRSymbol, IRType, IRVariantTag, StringMethod,
};
use crate::llvm::{
    a1, a2, a3, call, gep, gep_in, iand, itest, num, start, BinOp, Callee, CastOp, Code, Inst,
    LType, Pred, Val,
};
use crate::memory::{
    address_in_range, byte, byte_limit_is_power, number, number_and_last_byte, stored, Memory,
};
use crate::runtime::Rt;
use crate::semantics::{
    arguments, arrives, bit, block_begins, booted, branches, byte_count, calls, combines, converts,
    extracts, element_at, finishes, loads, moves, moves_elements, picks, read, seek_finds,
    slots_stand, stands, stops, stores, tests, wrapped, wraps_once, Machine, Outside,
};
use crate::types::value_type;

verus! {

/// The length word of the receiver: how many bits it has.
pub open spec fn bits_of(o: Outside, memory: Memory) -> int {
    number(memory, wrapped(LType::I64, (o.values)(Val::Param(0)) - 8) as int, 8)
}

/// The first parameter is an address.
pub open spec fn takes_address(o: Outside) -> bool {
    0 <= (o.values)(Val::Param(0)) <= u64::MAX
}

pub proof fn length_is_loaded(code: Code, o: Outside, m: Machine) -> (l: Machine)
    requires
        m.at == 0,
        m.returned is None,
        code.log.len() > 2,
        code.log[0].inst == gep(Val::Param(0), num(NEG_LENGTH)),
        code.log[1].inst == Inst::Load(LType::I64, Val::At(0)),
        code.log[0].block == code.log[1].block,
        code.log[1].block == code.log[2].block,
        takes_address(o),
    ensures
        m.leads_to(code, o, l),
        l.at == 2,
        l.returned is None,
        l.memory == m.memory,
        l.results[1] == bits_of(o, m.memory),
        0 <= bits_of(o, m.memory) <= u64::MAX,
{
    let p = (o.values)(Val::Param(0));
    moves(m, code, o, Val::Param(0), num(NEG_LENGTH));
    let m1 = m.step(code, o);
    assert(NEG_LENGTH == 0x1_0000_0000_0000_0000 - 8);
    wraps_once(p - 8);
    assert(p + NEG_LENGTH == p - 8 + 0x1_0000_0000_0000_0000);
    loads(m1, code, o, LType::I64, Val::At(0));
    byte_limit_is_power(8);
    vstd::arithmetic::power2::lemma2_to64();
    number_and_last_byte(m.memory, wrapped(LType::I64, p - 8) as int, 8);
    m1.step(code, o)
}

pub proof fn shift_divides(x: u64)
    ensures
        x >> 3u64 == x / 8,
{
    assert(x >> 3u64 == x / 8) by (bit_vector);
}

/// `byte_length` of a string and `byte_size` of a binary give back an
/// eighth of the length in bits.
pub proof fn byte_length_counts(o: Outside, memory: Memory)
    requires
        takes_address(o),
    ensures
        ({
            let code = byte_length_code(start()).i(Inst::Ret(LType::I64, start().v(2)));
            booted(code, memory).gives_back(code, o, bits_of(o, memory) / 8)
        }),
{
    let code = byte_length_code(start()).i(Inst::Ret(LType::I64, start().v(2)));
    seek_finds(code.log, 0, 0, 0);
    let m2 = length_is_loaded(code, o, booted(code, memory));
    combines(m2, code, o, BinOp::LShr, LType::I64, Val::At(1), num(3));
    shift_divides(bits_of(o, memory) as u64);
    finishes(m2.step(code, o), code, o, LType::I64, Val::At(2));
}

/// The methods that count bytes are that body.
pub proof fn byte_counts_are_told(c: &EmitContext, function: &IRFunction)
    ensures
        string_code(c, start(), function, StringMethod::ByteLength) == byte_length_code(start()).i(
            Inst::Ret(LType::I64, start().v(2)),
        ),
        binary_code(c, start(), function, BinaryMethod::ByteSize) == byte_length_code(start()).i(
            Inst::Ret(LType::I64, start().v(2)),
        ),
{
    reveal(string_code);
    reveal(binary_code);
}

/// `bit_size` gives back the length in bits.
pub proof fn bit_size_counts(c: &EmitContext, o: Outside, memory: Memory, function: &IRFunction)
    requires
        takes_address(o),
    ensures
        ({
            let code = bits_code(c, start(), function, BitsMethod::BitSize);
            booted(code, memory).gives_back(code, o, bits_of(o, memory))
        }),
{
    reveal(bits_code);
    let code = bits_code(c, start(), function, BitsMethod::BitSize);
    seek_finds(code.log, 0, 0, 0);
    let m2 = length_is_loaded(code, o, booted(code, memory));
    finishes(m2, code, o, LType::I64, Val::At(1));
}

/// `String.length` gives back what the runtime counts.
pub proof fn length_asks_the_runtime(c: &EmitContext, o: Outside, memory: Memory, function: &IRFunction)
    ensures
        ({
            let code = string_code(c, start(), function, StringMethod::Length);
            booted(code, memory).gives_back(
                code,
                o,
                (o.calls)(Callee::Runtime(Rt::StringLength), seq![(o.values)(Val::Param(0))], memory).0,
            )
        }),
{
    reveal(string_code);
    let code = string_code(c, start(), function, StringMethod::Length);
    seek_finds(code.log, 0, 0, 0);
    let m0 = booted(code, memory);
    assert(arguments(o, m0.results, a1(Val::Param(0))) =~= seq![(o.values)(Val::Param(0))]) by {
        reveal_with_fuel(arguments, 3);
    }
    calls(m0, code, o, Callee::Runtime(Rt::StringLength), a1(Val::Param(0)));
    finishes(m0.step(code, o), code, o, LType::I64, Val::At(0));
}

/// A slice gives back what the runtime cuts from the receiver between the
/// first field of the range and its second.
pub proof fn slice_cuts_the_range(o: Outside, memory: Memory, range: LType, helper: Rt)
    ensures
        ({
            let code = slice_code(start(), range, helper);
            booted(code, memory).gives_back(
                code,
                o,
                (o.calls)(
                    Callee::Runtime(helper),
                    seq![(o.values)(Val::Param(0)), (o.parts)(1, 0), (o.parts)(1, 1)],
                    memory,
                ).0,
            )
        }),
{
    let code = slice_code(start(), range, helper);
    seek_finds(code.log, 0, 0, 0);
    let m0 = booted(code, memory);
    extracts(m0, code, o, range, 1, 0);
    let m1 = m0.step(code, o);
    extracts(m1, code, o, range, 1, 1);
    let m2 = m1.step(code, o);
    let args = a3(Val::Param(0), Val::At(0), Val::At(1));
    assert(arguments(o, m2.results, args) =~= seq![
        (o.values)(Val::Param(0)),
        (o.parts)(1, 0),
        (o.parts)(1, 1),
    ]) by {
        reveal_with_fuel(arguments, 5);
    }
    calls(m2, code, o, Callee::Runtime(helper), args);
    finishes(m2.step(code, o), code, o, LType::Ptr, Val::At(2));
}

/// Which helper a slice goes to.
pub proof fn slices_go_to_their_helpers(c: &EmitContext, function: &IRFunction)
    ensures
        string_code(c, start(), function, StringMethod::Slice) == slice_code(
            start(),
            value_type(function.params@[1].ty),
            Rt::StringSlice,
        ),
        binary_code(c, start(), function, BinaryMethod::Slice) == slice_code(
            start(),
            value_type(function.params@[1].ty),
            Rt::BinarySlice,
        ),
{
    reveal(string_code);
    reveal(binary_code);
}

/// How many bytes a byte look-up goes by: of bits, a last byte may be
/// partial.
pub open spec fn bytes_within(bits: int, ceil: bool) -> int {
    if ceil {
        (bits + 7) / 8
    } else {
        bits / 8
    }
}

/// A byte look-up gives back `Some` of the byte at the index where that is
/// not negative and below the number of bytes, and `None` elsewhere.
#[verifier::spinoff_prover]
#[verifier::rlimit(60)]
pub proof fn byte_lookup_finds_the_byte(c: &EmitContext, o: Outside, memory: Memory, option: IRSymbol, ceil: bool)
    requires
        takes_address(o),
        0 <= (o.values)(Val::Param(1)) <= u64::MAX,
        bits_of(o, memory) + 7 <= u64::MAX,
        (o.values)(Val::Param(0)) + bytes_within(bits_of(o, memory), ceil) <= u64::MAX,
        c.payload(option, 0) == seq![IRType::Int64],
        c.payload(option, 1).len() == 0,
        lies_in(c, o, option, 0),
        lies_in(c, o, option, 1),
        slots_stand(o, byte_lookup_code(c, start(), option, ceil)),
    ensures
        ({
            let code = byte_lookup_code(c, start(), option, ceil);
            let index = crate::emit::arithmetic::integer(IRType::Int64, (o.values)(Val::Param(1)));
            booted(code, memory).comes_to(
                code,
                o,
                if 0 <= index < bytes_within(bits_of(o, memory), ceil) {
                    gave_variant(
                        c,
                        o,
                        option,
                        0,
                        seq![byte(memory, (o.values)(Val::Param(0)) + index) as int],
                    )
                } else {
                    gave_variant(c, o, option, 1, seq![])
                },
            )
        }),
{
    let s = start();
    let code = byte_lookup_code(c, s, option, ceil);
    let (b, count) = byte_count_code(load_bit_length_code(s, Val::Param(0)), s.v(1), ceil);
    let n = b.log.len() as int;
    let f = b.i(itest(Pred::Sge, Val::Param(1), num(0)))
        .i(itest(Pred::Slt, Val::Param(1), count))
        .i(Inst::Bin(BinOp::And, LType::I1, b.v(0), b.v(1)))
        .word("some"@).word("none"@)
        .i(Inst::CondBr(b.v(2), b.b(0), b.b(1)))
        .at(b.b(0));
    let a = f.i(gep_in(Val::Param(0), Val::Param(1)))
        .i(Inst::Load(LType::I8, b.v(4)))
        .i(Inst::Cast(CastOp::ZExt, LType::I8, b.v(5), LType::I64));
    let (w, some) = enum_value_code(c, a, option, IRVariantTag(0), seq![b.v(6)]);
    let x = w.i(Inst::Ret(LType::Enum(option), some));
    let d = x.at(b.b(1));
    let (z, none) = enum_value_code(c, d, option, IRVariantTag(1), seq![]);
    assert(code == z.i(Inst::Ret(LType::Enum(option), none)));
    single_stands(c, a, option, 0, b.v(6));
    unit_stands(c, d, option, 1);
    assert(stands(code, d));
    assert(stands(code, x));
    assert(stands(code, a));
    assert(stands(code, f));
    assert(stands(code, b));
    let p = (o.values)(Val::Param(0));
    let i = (o.values)(Val::Param(1));
    let bits = bits_of(o, memory);
    assert(code.log[0] == f.log[0] && code.log[1] == f.log[1] && code.log[2] == f.log[2]);
    seek_finds(code.log, 0, 0, 0);
    let m2 = length_is_loaded(code, o, booted(code, memory));
    let mb = if ceil {
        assert(n == 4 && code.log[3] == f.log[3] && code.log[4] == f.log[4]);
        combines(m2, code, o, BinOp::Add, LType::I64, Val::At(1), num(7));
        let m3 = m2.step(code, o);
        vstd::arithmetic::div_mod::lemma_small_mod((bits + 7) as nat, 0x1_0000_0000_0000_0000);
        combines(m3, code, o, BinOp::LShr, LType::I64, Val::At(2), num(3));
        shift_divides((bits + 7) as u64);
        m3.step(code, o)
    } else {
        assert(n == 3 && code.log[3] == f.log[3]);
        combines(m2, code, o, BinOp::LShr, LType::I64, Val::At(1), num(3));
        shift_divides(bits as u64);
        m2.step(code, o)
    };
    let many = bytes_within(bits, ceil);
    assert(read(o, mb.results, count) == many);
    assert(code.log[n] == f.log[n] && code.log[n + 1] == f.log[n + 1] && code.log[n + 2] == f.log[n + 2]
        && code.log[n + 3] == f.log[n + 3]);
    tests(mb, code, o, Pred::Sge, LType::I64, Val::Param(1), num(0));
    let m4 = mb.step(code, o);
    tests(m4, code, o, Pred::Slt, LType::I64, Val::Param(1), count);
    let m5 = m4.step(code, o);
    assert(0u64 & 0 == 0 && 0u64 & 1 == 0 && 1u64 & 0 == 0 && 1u64 & 1 == 1) by (bit_vector);
    combines(m5, code, o, BinOp::And, LType::I1, b.v(0), b.v(1));
    let m6 = m5.step(code, o);
    branches(m6, code, o, b.v(2), b.b(0), b.b(1));
    let m7 = m6.step(code, o);
    let index = crate::emit::arithmetic::integer(IRType::Int64, i);
    let within = 0 <= index < many;
    assert(many <= u64::MAX / 8);
    assert(read(o, m6.results, b.v(2)) == bit(within));
    assert(code.log[n + 4] == x.log[n + 4] && code.log[n + 5] == x.log[n + 5] && code.log[n + 6] == x.log[n
        + 6] && code.log[n + 7] == x.log[n + 7]);
    assert(x.log[n + 7] == w.log[n + 7] && w.log[n + 7].block == a.cur);
    if within {
        assert forall|k: int| 0 <= k < f.log.len() implies (#[trigger] f.log[k]).block != f.cur by {}
        block_begins(code, f);
        moves(m7, code, o, Val::Param(0), Val::Param(1));
        let m8 = m7.step(code, o);
        address_in_range(p + i);
        loads(m8, code, o, LType::I8, b.v(4));
        let m9 = m8.step(code, o);
        assert(number(memory, p + i, 1) == byte(memory, p + i)) by {
            assert(number(memory, p + i + 1, 0) == 0);
        }
        converts(m9, code, o, CastOp::ZExt, LType::I8, b.v(5), LType::I64);
        let m10 = m9.step(code, o);
        byte_limit_is_power(8);
        vstd::arithmetic::power2::lemma2_to64();
        assert(read(o, m10.results, b.v(6)) == byte(memory, p + index));
        single_is_returned(c, code, o, a, m10, option, 0, b.v(6));
    } else {
        assert forall|k: int| 0 <= k < d.log.len() implies (#[trigger] d.log[k]).block != d.cur by {
            if k >= a.log.len() && k < w.log.len() {
                assert(w.log[k].block == a.cur);
            }
        }
        block_begins(code, d);
        unit_is_returned(c, code, o, d, m7, option, 1);
    }
}

/// Which methods look a byte up.
pub proof fn byte_lookups_are_told(c: &EmitContext, function: &IRFunction)
    ensures
        binary_code(c, start(), function, BinaryMethod::At) == byte_lookup_code(
            c,
            start(),
            function.return_type->Enum_0,
            false,
        ),
        bits_code(c, start(), function, BitsMethod::ByteAt) == byte_lookup_code(
            c,
            start(),
            function.return_type->Enum_0,
            true,
        ),
{
    reveal(binary_code);
    reveal(bits_code);
}

/// A pointer method gives back what its name says: the receiver itself,
/// null, whether it is null, the address so many elements further, and
/// the value behind it.
pub proof fn pointer_methods(c: &EmitContext, o: Outside, memory: Memory, function: &IRFunction, method: CPtrMethod, inner: IRType)
    requires
        takes_address(o),
        crate::intrinsics::cptr::pointee(c, function, method) == Some(inner),
        match method {
            CPtrMethod::Borrow | CPtrMethod::Null | CPtrMethod::NullQ | CPtrMethod::Offset | CPtrMethod::Read => true,
            _ => false,
        },
    ensures
        ({
            let code = cptr_code(c, start(), function, method);
            let p = (o.values)(Val::Param(0));
            booted(code, memory).gives_back(
                code,
                o,
                match method {
                    CPtrMethod::Borrow => p,
                    CPtrMethod::Null => 0,
                    CPtrMethod::NullQ => bit(p == 0) as int,
                    CPtrMethod::Offset => element_at(o, value_type(inner), p, (o.values)(Val::Param(1))),
                    _ => number(memory, p, byte_count(o, value_type(inner))),
                },
            )
        }),
{
    reveal(cptr_code);
    let code = cptr_code(c, start(), function, method);
    seek_finds(code.log, 0, 0, 0);
    let m0 = booted(code, memory);
    match method {
        CPtrMethod::Borrow => finishes(m0, code, o, LType::Ptr, Val::Param(0)),
        CPtrMethod::Null => finishes(m0, code, o, LType::Ptr, Val::Null),
        CPtrMethod::NullQ => {
            tests(m0, code, o, Pred::Eq, LType::Ptr, Val::Param(0), Val::Null);
            finishes(m0.step(code, o), code, o, LType::I1, Val::At(0));
        },
        CPtrMethod::Offset => {
            moves_elements(m0, code, o, value_type(inner), Val::Param(0), Val::Param(1));
            finishes(m0.step(code, o), code, o, LType::Ptr, Val::At(0));
        },
        _ => {
            loads(m0, code, o, value_type(inner), Val::Param(0));
            finishes(m0.step(code, o), code, o, value_type(inner), Val::At(0));
        },
    }
}

/// `CPtr.write` leaves the value behind the pointer.
pub proof fn pointer_write_stores(c: &EmitContext, o: Outside, memory: Memory, function: &IRFunction)
    ensures
        ({
            let code = cptr_code(c, start(), function, CPtrMethod::Write);
            let after = stored(
                memory,
                (o.values)(Val::Param(0)),
                (o.values)(Val::Param(1)),
                byte_count(o, value_type(function.params@[1].ty)),
            );
            booted(code, memory).comes_to(
                code,
                o,
                |l: Machine| l.returned is Some && l.memory == after,
            )
        }),
{
    reveal(cptr_code);
    let code = cptr_code(c, start(), function, CPtrMethod::Write);
    seek_finds(code.log, 0, 0, 0);
    let m0 = booted(code, memory);
    stores(m0, code, o, value_type(function.params@[1].ty), Val::Param(1), Val::Param(0));
    let m1 = m0.step(code, o);
    stops(m1, code, o);
    let after = stored(
        memory,
        (o.values)(Val::Param(0)),
        (o.values)(Val::Param(1)),
        byte_count(o, value_type(function.params@[1].ty)),
    );
    arrives(m1.step(code, o), code, o, |l: Machine| l.returned is Some && l.memory == after);
}

/// One more owner: the runtime is told of the block, and the receiver is
/// given back as it is.
proof fn owner_is_added(code: Code, o: Outside, s: Code, m: Machine) -> (l: Machine)
    requires
        ({
            let t = rc_inc_code(s, Val::Param(0));
            &&& t.log.len() < code.log.len() <= usize::MAX
            &&& forall|i: int| s.log.len() <= i < t.log.len() ==> #[trigger] code.log[i] == t.log[i]
            &&& code.log[t.log.len() as int].block == s.cur
        }),
        m.at == s.log.len(),
        m.returned is None,
        takes_address(o),
    ensures
        m.leads_to(code, o, l),
        l.at == s.log.len() + 4,
        l.returned is None,
        ({
            let p = (o.values)(Val::Param(0));
            let base = if p == 0 {
                0
            } else {
                wrapped(LType::I64, p - 16) as int
            };
            l.memory == (o.calls)(Callee::Runtime(Rt::RcInc), seq![base], m.memory).1
        }),
{
    let n = s.log.len() as int;
    let t = rc_inc_code(s, Val::Param(0));
    let p = (o.values)(Val::Param(0));
    assert(code.log[n] == t.log[n] && code.log[n + 1] == t.log[n + 1] && code.log[n + 2] == t.log[n + 2]
        && code.log[n + 3] == t.log[n + 3]);
    moves(m, code, o, Val::Param(0), num(NEG_HEADER));
    let m1 = m.step(code, o);
    assert(NEG_HEADER == 0x1_0000_0000_0000_0000 - 16);
    wraps_once(p - 16);
    assert(p + NEG_HEADER == p - 16 + 0x1_0000_0000_0000_0000);
    tests(m1, code, o, Pred::Eq, LType::Ptr, Val::Param(0), Val::Null);
    let m2 = m1.step(code, o);
    picks(m2, code, o, LType::Ptr, s.v(1), Val::Null, s.v(0));
    let m3 = m2.step(code, o);
    let base = if p == 0 {
        0
    } else {
        wrapped(LType::I64, p - 16) as int
    };
    assert(arguments(o, m3.results, a1(s.v(2))) =~= seq![base]) by {
        reveal_with_fuel(arguments, 3);
    }
    calls(m3, code, o, Callee::Runtime(Rt::RcInc), a1(s.v(2)));
    m3.step(code, o)
}

/// `String.to_binary` and `Binary.to_bits` give back the receiver, with
/// one more owner.
pub proof fn sharing_gives_back_the_receiver(o: Outside, memory: Memory)
    requires
        takes_address(o),
    ensures
        ({
            let code = rc_inc_code(start(), Val::Param(0)).i(Inst::Ret(LType::Ptr, Val::Param(0)));
            booted(code, memory).gives_back(code, o, (o.values)(Val::Param(0)))
        }),
{
    let s = start();
    let code = rc_inc_code(s, Val::Param(0)).i(Inst::Ret(LType::Ptr, Val::Param(0)));
    seek_finds(code.log, 0, 0, 0);
    let l = owner_is_added(code, o, s, booted(code, memory));
    finishes(l, code, o, LType::Ptr, Val::Param(0));
}

/// Which methods share.
pub proof fn sharing_methods(c: &EmitContext, function: &IRFunction)
    ensures
        string_code(c, start(), function, StringMethod::ToBinary) == rc_inc_code(start(), Val::Param(0)).i(
            Inst::Ret(LType::Ptr, Val::Param(0)),
        ),
        binary_code(c, start(), function, BinaryMethod::ToBits) == rc_inc_code(start(), Val::Param(0)).i(
            Inst::Ret(LType::Ptr, Val::Param(0)),
        ),
{
    reveal(string_code);
    reveal(binary_code);
}

/// `Bits.to_binary` gives back `Ok` of the receiver where its length is a
/// whole number of bytes, and `Err` of a text elsewhere.
#[verifier::spinoff_prover]
#[verifier::rlimit(40)]
pub proof fn bits_become_whole_bytes(c: &EmitContext, o: Outside, memory: Memory, result: IRSymbol)
    requires
        takes_address(o),
        c.payload(result, 0) == seq![IRType::Binary],
        c.payload(result, 1) == seq![IRType::String],
        lies_in(c, o, result, 0),
        lies_in(c, o, result, 1),
        slots_stand(o, to_binary_code(c, start(), result)),
        0 <= (o.values)(Val::Text(0)) <= u64::MAX,
    ensures
        ({
            let code = to_binary_code(c, start(), result);
            booted(code, memory).comes_to(
                code,
                o,
                if bits_of(o, memory) % 8 == 0 {
                    gave_variant(c, o, result, 0, seq![(o.values)(Val::Param(0))])
                } else {
                    gave_variant(c, o, result, 1, seq![(o.values)(Val::Text(0))])
                },
            )
        }),
{
    let s = start();
    let code = to_binary_code(c, s, result);
    let t = load_bit_length_code(s, Val::Param(0))
        .i(iand(s.v(1), num(7)))
        .i(itest(Pred::Eq, s.v(2), num(0)))
        .word("ok"@).word("err"@)
        .i(Inst::CondBr(s.v(3), s.b(0), s.b(1)))
        .at(s.b(0));
    let r = rc_inc_code(t, Val::Param(0));
    let x = ret_ok_code(c, r, result, Val::Param(0));
    let ok = x.at(s.b(1)).text(crate::intrinsics::binary::unaligned_text());
    let (z, err) = enum_value_code(c, ok, result, IRVariantTag(1), seq![Val::Text(0)]);
    single_stands(c, r, result, 0, Val::Param(0));
    ret_ok_stands(c, r, result, Val::Param(0));
    assert(x.texts.len() == 0);
    assert(code == z.i(Inst::Ret(LType::Enum(result), err)));
    single_stands(c, ok, result, 1, Val::Text(0));
    assert(stands(code, ok));
    assert(stands(code, x));
    assert(stands(code, r));
    assert(stands(code, t));
    assert(code.log[0] == t.log[0] && code.log[1] == t.log[1] && code.log[2] == t.log[2] && code.log[3]
        == t.log[3] && code.log[4] == t.log[4]);
    seek_finds(code.log, 0, 0, 0);
    let m2 = length_is_loaded(code, o, booted(code, memory));
    let bits = bits_of(o, memory);
    combines(m2, code, o, BinOp::And, LType::I64, Val::At(1), num(7));
    let m3 = m2.step(code, o);
    let w = bits as u64;
    assert(w & 7 == w % 8) by (bit_vector);
    tests(m3, code, o, Pred::Eq, LType::I64, Val::At(2), num(0));
    let m4 = m3.step(code, o);
    branches(m4, code, o, Val::At(3), 1, 2);
    let m5 = m4.step(code, o);
    byte_limit_is_power(8);
    vstd::arithmetic::power2::lemma2_to64();
    if bits % 8 == 0 {
        assert(code.log[5] == r.log[5]);
        block_begins(code, t);
        assert(code.log[9] == x.log[9] && x.log[9].block == r.cur);
        assert forall|i: int| t.log.len() <= i < r.log.len() implies #[trigger] code.log[i] == r.log[i] by {}
        let m9 = owner_is_added(code, o, t, m5);
        single_is_returned(c, code, o, r, m9, result, 0, Val::Param(0));
    } else {
        assert forall|k: int| 0 <= k < ok.log.len() implies (#[trigger] ok.log[k]).block != ok.cur by {
            if k >= r.log.len() {
                assert(x.log[k].block == r.cur);
            }
        }
        block_begins(code, ok);
        single_is_returned(c, code, o, ok, m5, result, 1, Val::Text(0));
    }
}

/// `Binary.to_string` gives back `Err(InvalidUTF8)` where the runtime
/// answers zero for the bytes, and goes on to copy them elsewhere.
pub proof fn invalid_bytes_are_refused(
    c: &EmitContext,
    o: Outside,
    memory: Memory,
    result: IRSymbol,
    error: (IRSymbol, IRVariantTag),
)
    requires
        takes_address(o),
        c.payload(result, 0) == seq![IRType::String],
        unit_error(c, result, "InvalidUTF8"@) == Some(error),
        carries_error(c, o, result, error),
        slots_stand(o, to_string_code(c, start(), result)),
    ensures
        ({
            let code = to_string_code(c, start(), result);
            let answer = (o.calls)(
                Callee::Runtime(Rt::Utf8Validate),
                seq![(o.values)(Val::Param(0)), bits_of(o, memory) / 8],
                memory,
            ).0;
            booted(code, memory).comes_to(
                code,
                o,
                if answer as u64 == 0 {
                    gave_error(c, o, result, error)
                } else {
                    |l: Machine| l.at == 6 && l.returned is None && code.log[6].block == 1
                },
            )
        }),
{
    let s = start();
    let code = to_string_code(c, s, result);
    let f = byte_length_code(s)
        .i(call(Rt::Utf8Validate, a2(Val::Param(0), s.v(2))))
        .i(itest(Pred::Ne, s.v(3), num(0)))
        .word("valid"@).word("invalid"@)
        .i(Inst::CondBr(s.v(4), s.b(0), s.b(1)))
        .at(s.b(0));
    let (t, payload) = copy_payload_code(f, Val::Param(0), true, false);
    let x = ret_ok_code(c, t, result, payload);
    let e = x.at(s.b(1));
    assert(t.log.len() == 18 && t.cur == 1);
    ret_ok_stands(c, t, result, payload);
    ret_unit_error_stands(c, e, result, error);
    assert(code == ret_unit_error_code(c, e, result, error));
    assert(stands(code, e));
    assert(stands(code, t)) by {
        assert(stands(code, x));
    }
    assert(stands(code, f));
    assert(code.log[0] == f.log[0] && code.log[1] == f.log[1] && code.log[2] == f.log[2] && code.log[3]
        == f.log[3] && code.log[4] == f.log[4] && code.log[5] == f.log[5]);
    seek_finds(code.log, 0, 0, 0);
    let m2 = length_is_loaded(code, o, booted(code, memory));
    combines(m2, code, o, BinOp::LShr, LType::I64, Val::At(1), num(3));
    shift_divides(bits_of(o, memory) as u64);
    let m3 = m2.step(code, o);
    let args = seq![(o.values)(Val::Param(0)), bits_of(o, memory) / 8];
    assert(arguments(o, m3.results, a2(Val::Param(0), Val::At(2))) =~= args) by {
        reveal_with_fuel(arguments, 4);
    }
    calls(m3, code, o, Callee::Runtime(Rt::Utf8Validate), a2(Val::Param(0), Val::At(2)));
    let m4 = m3.step(code, o);
    tests(m4, code, o, Pred::Ne, LType::I64, Val::At(3), num(0));
    let m5 = m4.step(code, o);
    branches(m5, code, o, Val::At(4), 1, 2);
    let m6 = m5.step(code, o);
    let answer = (o.calls)(Callee::Runtime(Rt::Utf8Validate), args, memory).0;
    if answer as u64 == 0 {
        assert forall|k: int| 0 <= k < e.log.len() implies (#[trigger] e.log[k]).block != e.cur by {
            if k >= t.log.len() {
                assert(x.log[k].block == t.cur);
            }
        }
        block_begins(code, e);
        error_is_returned(c, code, o, e, m6, result, error);
    } else {
        assert(code.log[6] == t.log[6] && t.log[6].block == 1);
        block_begins(code, f);
        arrives(m6, code, o, |l: Machine| l.at == 6 && l.returned is None && code.log[6].block == 1);
    }
}

} // verus!
