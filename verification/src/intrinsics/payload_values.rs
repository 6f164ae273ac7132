//! What copying a string or a binary gives.

use vstd::prelude::*;
use crate::emit::heap_layout::{overhead, NEG_LENGTH};
use crate::intrinsics::heap_payload::{copy_payload_code, payload_clone_code};
use crate::intrinsics::leaf_values::{shift_divides, takes_address};
use crate::llvm::{a1, a3, num, start, BinOp, Callee, Code, Inst, LType, Val};
use crate::memory::{
    address_in_range, apart, byte, byte_limit, byte_limit_is_power, heap_calls, holds_bytes,
    malloc_call, memcpy_call, number, number_of_bytes, payload_taken, sound, spares, starved,
    store_is_read_back, store_spares_numbers, store_spares_others, unless_starved, Memory,
};
use crate::runtime::Rt;
use crate::semantics::{
    arguments, arrives, booted, calls, combines, ends, goes_on, loads, moves, seek_finds, stores,
    wraps_once, Machine, Outside,
};

verus! {

/// The receiver holds some bytes.
pub open spec fn receives_bytes(o: Outside, memory: Memory, bytes: Seq<u8>) -> bool {
    &&& takes_address(o)
    &&& heap_calls(o)
    &&& sound(memory)
    &&& holds_bytes(memory, (o.values)(Val::Param(0)) as u64, bytes)
    &&& payload_taken(memory, (o.values)(Val::Param(0)), bytes.len() as int)
}

/// A payload that holds some bytes, in a run that spared what there was.
pub open spec fn copied_to(code: Code, end: nat, at: usize, bytes: Seq<u8>, with_nul: bool, before: Memory) -> spec_fn(
    Machine,
) -> bool {
    unless_starved(
        code,
        |l: Machine|
            {
                let q = l.results[at];
                &&& l.at == end
                &&& l.returned is None
                &&& 0 < q <= u64::MAX
                &&& holds_bytes(l.memory, q as u64, bytes)
                &&& with_nul ==> byte(l.memory, q + bytes.len()) == 0
                &&& spares(before, l.memory)
            },
    )
}

/// Copying a payload gives a fresh one with the same bytes, and with a NUL
/// behind them where one is asked for.
#[verifier::spinoff_prover]
#[verifier::rlimit(60)]
pub proof fn copy_holds_the_bytes(code: Code, o: Outside, s: Code, m: Machine, with_nul: bool, bytes: Seq<u8>)
    requires
        ({
            let t = copy_payload_code(s, Val::Param(0), with_nul, false).0;
            &&& t.log.len() < code.log.len() <= usize::MAX
            &&& forall|i: int| s.log.len() <= i < t.log.len() ==> #[trigger] code.log[i] == t.log[i]
            &&& code.log[t.log.len() as int].block == s.cur
        }),
        m.at == s.log.len(),
        m.returned is None,
        receives_bytes(o, m.memory, bytes),
    ensures
        ({
            let (t, v) = copy_payload_code(s, Val::Param(0), with_nul, false);
            &&& v == Val::At((s.log.len() + 8) as usize)
            &&& m.comes_to(
                code,
                o,
                copied_to(code, t.log.len(), (s.log.len() + 8) as usize, bytes, with_nul, m.memory),
            )
        }),
{
    let (t, v) = copy_payload_code(s, Val::Param(0), with_nul, false);
    let n = s.log.len() as int;
    let p = (o.values)(Val::Param(0));
    let len = bytes.len() as int;
    let goal = copied_to(code, t.log.len(), (n + 8) as usize, bytes, with_nul, m.memory);
    let at = |k: int| Val::At((n + k) as usize);
    assert(code.log[n] == t.log[n] && code.log[n + 1] == t.log[n + 1] && code.log[n + 2] == t.log[n + 2]
        && code.log[n + 3] == t.log[n + 3] && code.log[n + 4] == t.log[n + 4] && code.log[n + 5] == t.log[n
        + 5] && code.log[n + 6] == t.log[n + 6] && code.log[n + 7] == t.log[n + 7] && code.log[n + 8]
        == t.log[n + 8] && code.log[n + 9] == t.log[n + 9]);
    moves(m, code, o, Val::Param(0), num(NEG_LENGTH));
    let m1 = m.step(code, o);
    assert(NEG_LENGTH == 0x1_0000_0000_0000_0000 - 8);
    wraps_once(p - 8);
    assert(p + NEG_LENGTH == p - 8 + 0x1_0000_0000_0000_0000);
    loads(m1, code, o, LType::I64, at(0));
    let m2 = m1.step(code, o);
    assert(m2.results[(n + 1) as usize] == 8 * len);
    combines(m2, code, o, BinOp::LShr, LType::I64, at(1), num(3));
    shift_divides((8 * len) as u64);
    let m3 = m2.step(code, o);
    assert(m3.results[(n + 2) as usize] == len);
    combines(m3, code, o, BinOp::Add, LType::I64, at(2), num(overhead(with_nul)));
    let m4 = m3.step(code, o);
    let total = len + overhead(with_nul);
    vstd::arithmetic::div_mod::lemma_small_mod(total as nat, 0x1_0000_0000_0000_0000);
    assert(arguments(o, m4.results, a1(at(3))) =~= seq![total]) by {
        reveal_with_fuel(arguments, 3);
    }
    calls(m4, code, o, Callee::Runtime(Rt::Malloc), a1(at(3)));
    malloc_call(o, m4.memory, total);
    let m5 = m4.step(code, o);
    let base = m5.results[(n + 4) as usize];
    if base == 0 {
        assert(starved(code, m5));
        arrives(m5, code, o, goal);
    } else {
        apart(m.memory, base, total, p - 8, 8 + len);
        byte_limit_is_power(8);
        vstd::arithmetic::power2::lemma2_to64();
        stores(m5, code, o, LType::I64, num(1), at(4));
        let m6 = m5.step(code, o);
        moves(m6, code, o, at(4), num(8));
        let m7 = m6.step(code, o);
        address_in_range(base + 8);
        stores(m7, code, o, LType::I64, at(1), at(6));
        let m8 = m7.step(code, o);
        moves(m8, code, o, at(4), num(16));
        let m9 = m8.step(code, o);
        address_in_range(base + 16);
        let q = base + 16;
        let args = a3(at(8), Val::Param(0), at(2));
        assert(arguments(o, m9.results, args) =~= seq![q, p, len]) by {
            reveal_with_fuel(arguments, 5);
        }
        calls(m9, code, o, Callee::Runtime(Rt::Memcpy), args);
        memcpy_call(o, m9.memory, q, p, len);
        let m10 = m9.step(code, o);
        store_is_read_back(m6.memory, base + 8, 8 * len, 8);
        assert forall|i: int| 0 <= i < 8 implies #[trigger] byte(m10.memory, base + 8 + i) == byte(
            m9.memory,
            base + 8 + i,
        ) by {}
        number_of_bytes(m10.memory, base + 8, m9.memory, base + 8, 8);
        assert forall|x: int| 0 <= x <= u64::MAX && !(base <= x < base + 16) implies #[trigger] byte(
            m9.memory,
            x,
        ) == byte(m5.memory, x) by {
            store_spares_others(m5.memory, base, 1, 8, x);
            store_spares_others(m6.memory, base + 8, 8 * len, 8, x);
        }
        store_spares_others(m5.memory, base, 1, 8, base + 8);
        store_spares_others(m6.memory, base + 8, 8 * len, 8, base);
        assert(m9.memory.taken == m5.memory.taken);
        assert forall|i: int| 0 <= i < len implies #[trigger] byte(m10.memory, q + i) == bytes[i] by {
            assert(m.memory.taken.contains(p + i));
            assert(byte(m.memory, p + i) == bytes[i]);
            assert(byte(m9.memory, p + i) == byte(m5.memory, p + i));
            assert(byte(m10.memory, q + i) == byte(m9.memory, p + i));
        }
        assert forall|x: int| #[trigger] m.memory.taken.contains(x) implies m10.memory.taken.contains(x)
            && byte(m10.memory, x) == byte(m.memory, x) && !(base <= x < base + total) by {
            assert(m5.memory.taken.contains(x));
            assert(byte(m9.memory, x) == byte(m5.memory, x));
        }
        address_in_range(q - 8);
        if with_nul {
            assert(code.log[n + 10] == t.log[n + 10] && code.log[n + 11] == t.log[n + 11]);
            moves(m10, code, o, at(8), at(2));
            let m11 = m10.step(code, o);
            address_in_range(q + len);
            stores(m11, code, o, LType::I8, num(0), at(10));
            let l = m11.step(code, o);
            assert(byte_limit(1) == 0x100) by {
                assert(byte_limit(0) == 1);
            }
            store_is_read_back(m10.memory, q + len, 0, 1);
            assert(number(l.memory, q + len, 1) == byte(l.memory, q + len)) by {
                assert(number(l.memory, q + len + 1, 0) == 0);
            }
            store_spares_numbers(m10.memory, q + len, 0, 1, q - 8, 8);
            assert forall|i: int| 0 <= i < len implies #[trigger] byte(l.memory, q + i) == bytes[i] by {
                store_spares_others(m10.memory, q + len, 0, 1, q + i);
                assert(byte(m10.memory, q + i) == bytes[i]);
            }
            assert forall|x: int| #[trigger] m.memory.taken.contains(x) implies l.memory.taken.contains(x)
                && byte(l.memory, x) == byte(m.memory, x) by {
                store_spares_others(m10.memory, q + len, 0, 1, x);
            }
            arrives(l, code, o, goal);
        } else {
            arrives(m10, code, o, goal);
        }
    }
}

/// A clone of a string or a binary gives back a fresh payload with the
/// same bytes, unless there is no memory left.
pub proof fn clone_holds_the_bytes(o: Outside, memory: Memory, with_nul: bool, bytes: Seq<u8>)
    requires
        receives_bytes(o, memory, bytes),
    ensures
        ({
            let code = payload_clone_code(start(), with_nul, false);
            booted(code, memory).comes_to(
                code,
                o,
                unless_starved(
                    code,
                    |l: Machine|
                        l.returned matches Some(q) && 0 < q <= u64::MAX && holds_bytes(l.memory, q as u64, bytes)
                            && spares(memory, l.memory),
                ),
            )
        }),
{
    let s = start();
    let code = payload_clone_code(s, with_nul, false);
    let (t, v) = copy_payload_code(s, Val::Param(0), with_nul, false);
    assert(code == t.i(Inst::Ret(LType::Ptr, v)));
    assert(t.cur == 0 && t.log.len() <= 12);
    assert forall|i: int| 0 <= i < t.log.len() implies #[trigger] code.log[i] == t.log[i] by {}
    assert(code.log[0].block == 0);
    seek_finds(code.log, 0, 0, 0);
    let m0 = booted(code, memory);
    copy_holds_the_bytes(code, o, s, m0, with_nul, bytes);
    let half = copied_to(code, t.log.len(), 8, bytes, with_nul, memory);
    let goal = unless_starved(
        code,
        |l: Machine|
            l.returned matches Some(q) && 0 < q <= u64::MAX && holds_bytes(l.memory, q as u64, bytes) && spares(
                memory,
                l.memory,
            ),
    );
    assert forall|l: Machine| half(l) implies #[trigger] l.comes_to(code, o, goal) by {
        if starved(code, l) {
            arrives(l, code, o, goal);
        } else {
            ends(l, code, o, LType::Ptr, v);
            arrives(l.step(code, o), code, o, goal);
        }
    }
    goes_on(m0, code, o, half, goal);
}

} // verus!
