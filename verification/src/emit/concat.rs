//! Concatenation. `String` and `Binary` are byte-aligned and joined in
//! place; `Bits` go to the runtime, which shifts.

use vstd::arithmetic::power2::lemma2_to64;
use vstd::prelude::*;
use crate::emit::heap_layout::{
    block_alloc_size, init_heap_block, init_heap_block_code, load_bit_length,
    load_bit_length_code, overhead, HEADER_BYTES, LENGTH_OFFSET, NEG_LENGTH,
};
use crate::intrinsics::heap_payload::{nul_code, store_nul};
use crate::ir::ConcatKind;
use crate::llvm::{
    a1, a2, a3, call, gep, gep_in, iadd, ilshr, num, BinOp, Body, Callee, Code, Entry, Inst, LType, Val,
};
use crate::memory::{
    address_in_range, apart, byte, byte_limit_is_power, heap_calls, holds_bytes, in_memory, malloc_call,
    memcpy_call, none_taken, number, number_of_bytes, payload_taken, sound, spares, starved,
    store_is_read_back, store_spares_others, stored, unless_starved, Memory,
};
use crate::runtime::Rt;
use crate::semantics::{
    arguments, arrives, calls, combines, loads, moves, read, stores, wraps_once, Machine, Outside,
};

verus! {

/// The bit length of a payload and its byte length.
pub open spec fn bits_and_bytes_code(s: Code, payload: Val) -> Code {
    load_bit_length_code(s, payload).i(ilshr(s.v(1), 3))
}

/// Reads the bit length of a payload and its byte length.
pub fn bits_and_bytes(f: &mut Body, payload: Val) -> (r: (Val, Val))
    ensures
        final(f)@ == bits_and_bytes_code(old(f)@, payload),
        r == (old(f)@.v(1), old(f)@.v(2)),
{
    let bits = load_bit_length(f, payload);
    let bytes = f.ins(ilshr(bits, 3));
    (bits, bytes)
}

/// A fresh block that holds the bytes of `lhs` and then those of `rhs`,
/// and a trailing NUL where one is kept.
pub open spec fn byte_aligned_concat_code(s: Code, lhs: Val, rhs: Val, with_nul: bool) -> Code {
    let t = bits_and_bytes_code(bits_and_bytes_code(s, lhs), rhs)
        .i(iadd(s.v(1), s.v(4)))
        .i(iadd(s.v(2), s.v(5)))
        .i(iadd(s.v(7), num(overhead(with_nul))))
        .i(call(Rt::Malloc, a1(s.v(8))));
    let u = init_heap_block_code(t, s.v(9), s.v(6))
        .i(call(Rt::Memcpy, a3(s.v(13), lhs, s.v(2))))
        .i(gep_in(s.v(13), s.v(2)))
        .i(call(Rt::Memcpy, a3(s.v(15), rhs, s.v(5))));
    if with_nul {
        nul_code(u, s.v(13), s.v(7))
    } else {
        u
    }
}

/// The machine has joined two payloads: the result holds both, one behind
/// the other and a NUL behind them where one is kept, and nothing that was
/// taken has changed; or an allocation has failed.
pub open spec fn joined(
    s: Code,
    code: Code,
    end: nat,
    bytes: Seq<u8>,
    with_nul: bool,
    before: Memory,
) -> spec_fn(Machine) -> bool {
    unless_starved(
        code,
        |l: Machine|
            {
                let r = l.results[(s.log.len() + 13) as usize];
                &&& l.at == end
                &&& holds_bytes(l.memory, r as u64, bytes)
                &&& with_nul ==> byte(l.memory, r + bytes.len()) == 0
                &&& spares(before, l.memory)
            },
    )
}

/// A place of a body where a fragment stands, in one block and with more of
/// that block behind it.
pub open spec fn runs_through(s: Code, fragment: Code, code: Code) -> bool {
    &&& fragment.log.len() < code.log.len() <= usize::MAX
    &&& fragment.log.is_prefix_of(code.log)
    &&& code.log[fragment.log.len() as int].block == s.cur
}

/// The length of a payload is read from its header.
proof fn length_runs(
    code: Code,
    o: Outside,
    m: Machine,
    block: usize,
    payload: Val,
    bytes: Seq<u8>,
) -> (l: Machine)
    requires
        m.returned is None,
        m.at + 3 < code.log.len() <= usize::MAX,
        code.log[m.at as int] == (Entry { block: block, inst: gep(payload, num(NEG_LENGTH)) }),
        code.log[m.at as int + 1] == (Entry {
            block: block,
            inst: Inst::Load(LType::I64, Val::At(m.at as usize)),
        }),
        code.log[m.at as int + 2] == (Entry {
            block: block,
            inst: ilshr(Val::At((m.at + 1) as usize), 3),
        }),
        code.log[m.at as int + 3].block == block,
        0 <= read(o, m.results, payload) <= u64::MAX,
        holds_bytes(m.memory, read(o, m.results, payload) as u64, bytes),
    ensures
        m.leads_to(code, o, l),
        l == (Machine { at: m.at + 3, results: l.results, ..m }),
        l.results[(m.at + 1) as usize] == 8 * bytes.len(),
        l.results[(m.at + 2) as usize] == bytes.len(),
        forall|i: usize| i < m.at ==> #[trigger] l.results[i] == m.results[i],
{
    let p = read(o, m.results, payload);
    moves(m, code, o, payload, num(NEG_LENGTH));
    let m1 = m.step(code, o);
    wraps_once(p - LENGTH_OFFSET);
    loads(m1, code, o, LType::I64, Val::At(m.at as usize));
    let m2 = m1.step(code, o);
    combines(m2, code, o, BinOp::LShr, LType::I64, Val::At((m.at + 1) as usize), num(3));
    let bits = (8 * bytes.len()) as u64;
    assert(bits >> 3 == bits / 8) by (bit_vector);
    m2.step(code, o)
}

/// The concatenation, instruction by instruction, from place `n` on.
spec fn concat_stands(code: Code, n: nat, block: usize, lhs: Val, rhs: Val, with_nul: bool) -> bool {
    let at = |k: int| Val::At((n + k) as usize);
    let is = |k: int, inst: Inst| code.log[n + k] == Entry { block: block, inst: inst };
    &&& n + 17 < code.log.len() <= usize::MAX
    &&& is(0, gep(lhs, num(NEG_LENGTH)))
    &&& is(1, Inst::Load(LType::I64, at(0)))
    &&& is(2, ilshr(at(1), 3))
    &&& is(3, gep(rhs, num(NEG_LENGTH)))
    &&& is(4, Inst::Load(LType::I64, at(3)))
    &&& is(5, ilshr(at(4), 3))
    &&& is(6, iadd(at(1), at(4)))
    &&& is(7, iadd(at(2), at(5)))
    &&& is(8, iadd(at(7), num(overhead(with_nul))))
    &&& is(9, call(Rt::Malloc, a1(at(8))))
    &&& is(10, Inst::Store(LType::I64, num(1), at(9)))
    &&& is(11, gep_in(at(9), num(LENGTH_OFFSET)))
    &&& is(12, Inst::Store(LType::I64, at(6), at(11)))
    &&& is(13, gep_in(at(9), num(HEADER_BYTES)))
    &&& is(14, call(Rt::Memcpy, a3(at(13), lhs, at(2))))
    &&& is(15, gep_in(at(13), at(2)))
    &&& is(16, call(Rt::Memcpy, a3(at(15), rhs, at(5))))
    &&& code.log[n as int + 17].block == block
    &&& with_nul ==> {
        &&& n + 19 < code.log.len()
        &&& is(17, gep_in(at(13), at(7)))
        &&& is(18, Inst::Store(LType::I8, num(0), at(17)))
        &&& code.log[n as int + 19].block == block
    }
}

/// An operand is known before place `n`.
spec fn known_before(v: Val, n: nat) -> bool {
    v matches Val::At(k) ==> k < n
}

/// What the machine knows once the sizes are added up.
spec fn sizes_known(
    o: Outside,
    l: Machine,
    first: Machine,
    n: nat,
    a: Seq<u8>,
    b: Seq<u8>,
) -> bool {
    let total = a.len() + b.len();
    &&& l.returned is None
    &&& l.results[(n + 2) as usize] == a.len()
    &&& l.results[(n + 5) as usize] == b.len()
    &&& l.results[(n + 6) as usize] == 8 * total
    &&& l.results[(n + 7) as usize] == total
    &&& forall|i: usize| i < n ==> #[trigger] l.results[i] == first.results[i]
}

proof fn sizes_run(
    code: Code,
    o: Outside,
    m: Machine,
    block: usize,
    lhs: Val,
    rhs: Val,
    with_nul: bool,
    a: Seq<u8>,
    b: Seq<u8>,
) -> (l: Machine)
    requires
        concat_stands(code, m.at, block, lhs, rhs, with_nul),
        known_before(rhs, m.at),
        m.returned is None,
        0 <= read(o, m.results, lhs) <= u64::MAX,
        0 <= read(o, m.results, rhs) <= u64::MAX,
        holds_bytes(m.memory, read(o, m.results, lhs) as u64, a),
        holds_bytes(m.memory, read(o, m.results, rhs) as u64, b),
        8 * (a.len() + b.len()) <= u64::MAX,
    ensures
        m.leads_to(code, o, l),
        l.at == m.at + 9,
        l.memory == m.memory,
        sizes_known(o, l, m, m.at, a, b),
        l.results[(m.at + 8) as usize] == a.len() + b.len() + overhead(with_nul),
{
    let n = m.at;
    let at = |k: int| Val::At((n + k) as usize);
    let total = a.len() + b.len();
    let m3 = length_runs(code, o, m, block, lhs, a);
    assert(read(o, m3.results, rhs) == read(o, m.results, rhs));
    let m6 = length_runs(code, o, m3, block, rhs, b);
    assert(m6.results[(n + 1) as usize] == 8 * a.len() && m6.results[(n + 2) as usize] == a.len());
    combines(m6, code, o, BinOp::Add, LType::I64, at(1), at(4));
    let m7 = m6.step(code, o);
    combines(m7, code, o, BinOp::Add, LType::I64, at(2), at(5));
    let m8 = m7.step(code, o);
    combines(m8, code, o, BinOp::Add, LType::I64, at(7), num(overhead(with_nul)));
    m8.step(code, o)
}

/// What the machine knows once the header is written.
spec fn header_known(
    l: Machine,
    m: Machine,
    n: nat,
    total: int,
    size: int,
) -> bool {
    let payload = l.results[(n + 13) as usize];
    &&& in_memory(payload - HEADER_BYTES, size)
    &&& none_taken(m.memory, payload - HEADER_BYTES, size)
    &&& number(l.memory, payload - LENGTH_OFFSET, 8) == 8 * total
    &&& spares(m.memory, l.memory)
}

proof fn header_runs(
    code: Code,
    o: Outside,
    m: Machine,
    first: Machine,
    block: usize,
    lhs: Val,
    rhs: Val,
    with_nul: bool,
    a: Seq<u8>,
    b: Seq<u8>,
    goal: spec_fn(Machine) -> bool,
) -> (r: Option<Machine>)
    requires
        concat_stands(code, first.at, block, lhs, rhs, with_nul),
        m.at == first.at + 9,
        sizes_known(o, m, first, first.at, a, b),
        m.results[(first.at + 8) as usize] == a.len() + b.len() + overhead(with_nul),
        8 * (a.len() + b.len()) <= u64::MAX,
        heap_calls(o),
        sound(m.memory),
        forall|l: Machine| starved(code, l) ==> #[trigger] goal(l),
    ensures
        match r {
            Some(l) => {
                &&& m.leads_to(code, o, l)
                &&& l.at == first.at + 14
                &&& sizes_known(o, l, first, first.at, a, b)
                &&& header_known(
                    l,
                    m,
                    first.at,
                    (a.len() + b.len()) as int,
                    a.len() + b.len() + overhead(with_nul),
                )
            },
            None => m.comes_to(code, o, goal),
        },
{
    let n = first.at;
    let at = |k: int| Val::At((n + k) as usize);
    let total = a.len() + b.len();
    let size = total + overhead(with_nul);
    assert(arguments(o, m.results, a1(at(8))) =~= seq![size]) by {
        reveal_with_fuel(arguments, 2);
    }
    calls(m, code, o, Callee::Runtime(Rt::Malloc), a1(at(8)));
    let m10 = m.step(code, o);
    let base = m10.results[(n + 9) as usize];
    malloc_call(o, m.memory, size);
    if base == 0 {
        assert(starved(code, m10));
        arrives(m10, code, o, goal);
        None
    } else {
        stores(m10, code, o, LType::I64, num(1), at(9));
        let m11 = m10.step(code, o);
        moves(m11, code, o, at(9), num(LENGTH_OFFSET));
        let m12 = m11.step(code, o);
        assert(m12.results[(n + 11) as usize] == base + LENGTH_OFFSET);
        stores(m12, code, o, LType::I64, at(6), at(11));
        let m13 = m12.step(code, o);
        moves(m13, code, o, at(9), num(HEADER_BYTES));
        let l = m13.step(code, o);
        byte_limit_is_power(8);
        lemma2_to64();
        store_is_read_back(m12.memory, base + LENGTH_OFFSET, (8 * total) as int, 8);
        assert forall|x: int| #[trigger] m.memory.taken.contains(x) implies l.memory.taken.contains(
            x,
        ) && byte(l.memory, x) == byte(m.memory, x) by {
            store_spares_others(m10.memory, base, 1, 8, x);
            store_spares_others(m12.memory, base + LENGTH_OFFSET, (8 * total) as int, 8, x);
        }
        Some(l)
    }
}

/// What the machine knows once both sides are copied.
spec fn both_copied(l: Machine, before: Memory, payload: int, a: Seq<u8>, b: Seq<u8>) -> bool {
    &&& forall|i: int| 0 <= i < a.len() ==> #[trigger] byte(l.memory, payload + i) == a[i]
    &&& forall|i: int|
        0 <= i < b.len() ==> #[trigger] byte(l.memory, payload + a.len() + i) == b[i]
    &&& forall|x: int|
        0 <= x <= u64::MAX && !(payload <= x < payload + a.len() + b.len()) ==> #[trigger] byte(
            l.memory,
            x,
        ) == byte(before, x)
    &&& l.memory.taken == before.taken
}

proof fn copies_run(
    code: Code,
    o: Outside,
    m: Machine,
    first: Machine,
    block: usize,
    lhs: Val,
    rhs: Val,
    with_nul: bool,
    a: Seq<u8>,
    b: Seq<u8>,
) -> (l: Machine)
    requires
        concat_stands(code, first.at, block, lhs, rhs, with_nul),
        m.at == first.at + 14,
        known_before(lhs, first.at),
        known_before(rhs, first.at),
        sizes_known(o, m, first, first.at, a, b),
        heap_calls(o),
        in_memory(
            m.results[(first.at + 13) as usize] - HEADER_BYTES,
            a.len() + b.len() + overhead(with_nul),
        ),
        none_taken(
            first.memory,
            m.results[(first.at + 13) as usize] - HEADER_BYTES,
            a.len() + b.len() + overhead(with_nul),
        ),
        payload_taken(first.memory, read(o, first.results, lhs), a.len() as int),
        payload_taken(first.memory, read(o, first.results, rhs), b.len() as int),
        forall|i: int|
            0 <= i < a.len() ==> #[trigger] byte(m.memory, read(o, first.results, lhs) + i) == a[i],
        forall|i: int|
            0 <= i < b.len() ==> #[trigger] byte(m.memory, read(o, first.results, rhs) + i) == b[i],
    ensures
        m.leads_to(code, o, l),
        l.at == first.at + 17,
        l.returned is None,
        l.results[(first.at + 7) as usize] == m.results[(first.at + 7) as usize],
        l.results[(first.at + 13) as usize] == m.results[(first.at + 13) as usize],
        both_copied(l, m.memory, m.results[(first.at + 13) as usize], a, b),
{
    let n = first.at;
    let at = |k: int| Val::At((n + k) as usize);
    let (p, q) = (read(o, first.results, lhs), read(o, first.results, rhs));
    let payload = m.results[(n + 13) as usize];
    let size = a.len() + b.len() + overhead(with_nul);
    assert(arguments(o, m.results, a3(at(13), lhs, at(2))) =~= seq![payload, p, a.len() as int]) by {
        reveal_with_fuel(arguments, 4);
        assert(read(o, m.results, lhs) == p);
    }
    calls(m, code, o, Callee::Runtime(Rt::Memcpy), a3(at(13), lhs, at(2)));
    let m15 = m.step(code, o);
    apart(first.memory, payload - HEADER_BYTES, size, p - LENGTH_OFFSET, LENGTH_OFFSET + a.len());
    memcpy_call(o, m.memory, payload, p, a.len() as int);
    assert forall|i: int| 0 <= i < a.len() implies #[trigger] byte(m15.memory, payload + i) == a[i] by {
        assert(byte(m15.memory, payload + i) == byte(m.memory, p + i));
    }
    moves(m15, code, o, at(13), at(2));
    let m16 = m15.step(code, o);
    assert(m16.results[(n + 15) as usize] == payload + a.len());
    assert(arguments(o, m16.results, a3(at(15), rhs, at(5))) =~= seq![
        payload + a.len(),
        q,
        b.len() as int,
    ]) by {
        reveal_with_fuel(arguments, 4);
        assert(read(o, m16.results, rhs) == q);
    }
    calls(m16, code, o, Callee::Runtime(Rt::Memcpy), a3(at(15), rhs, at(5)));
    let l = m16.step(code, o);
    apart(first.memory, payload - HEADER_BYTES, size, q - LENGTH_OFFSET, LENGTH_OFFSET + b.len());
    memcpy_call(o, m16.memory, payload + a.len(), q, b.len() as int);
    assert forall|i: int| 0 <= i < b.len() implies #[trigger] byte(
        l.memory,
        payload + a.len() + i,
    ) == b[i] by {
        assert(byte(l.memory, payload + a.len() + i) == byte(m16.memory, q + i));
        assert(byte(m.memory, q + i) == b[i]);
    }
    assert forall|i: int| 0 <= i < a.len() implies #[trigger] byte(l.memory, payload + i) == a[i] by {
        assert(byte(m15.memory, payload + i) == a[i]);
    }
    l
}

/// Concatenation gives a fresh payload that holds the bytes of the left
/// side and then those of the right side.
pub proof fn concatenation_joins(
    s: Code,
    code: Code,
    o: Outside,
    m: Machine,
    lhs: Val,
    rhs: Val,
    with_nul: bool,
    a: Seq<u8>,
    b: Seq<u8>,
)
    requires
        runs_through(s, byte_aligned_concat_code(s, lhs, rhs, with_nul), code),
        m.at == s.log.len(),
        m.returned is None,
        s.defines(lhs),
        s.defines(rhs),
        payload_taken(m.memory, read(o, m.results, lhs), a.len() as int),
        payload_taken(m.memory, read(o, m.results, rhs), b.len() as int),
        holds_bytes(m.memory, read(o, m.results, lhs) as u64, a),
        holds_bytes(m.memory, read(o, m.results, rhs) as u64, b),
        8 * (a.len() + b.len()) <= u64::MAX,
        heap_calls(o),
        sound(m.memory),
    ensures
        ({
            let end = byte_aligned_concat_code(s, lhs, rhs, with_nul).log.len();
            m.comes_to(code, o, joined(s, code, end, a + b, with_nul, m.memory))
        }),
{
    let n = m.at;
    let (p, q) = (read(o, m.results, lhs), read(o, m.results, rhs));
    let total = a.len() + b.len();
    let end = byte_aligned_concat_code(s, lhs, rhs, with_nul).log.len();
    concat_reads(s, code, lhs, rhs, with_nul);
    let m9 = sizes_run(code, o, m, s.cur, lhs, rhs, with_nul, a, b);
    let goal = joined(s, code, end, a + b, with_nul, m.memory);
    match header_runs(code, o, m9, m, s.cur, lhs, rhs, with_nul, a, b, goal) {
        Some(m14) => {
            let payload = m14.results[(n + 13) as usize];
            assert forall|i: int| 0 <= i < a.len() implies #[trigger] byte(m14.memory, p + i)
                == a[i] by {
                assert(m.memory.taken.contains(p + i));
                assert(byte(m.memory, p + i) == a[i]);
            }
            assert forall|i: int| 0 <= i < b.len() implies #[trigger] byte(m14.memory, q + i)
                == b[i] by {
                assert(m.memory.taken.contains(q + i));
                assert(byte(m.memory, q + i) == b[i]);
            }
            let m17 = copies_run(code, o, m14, m, s.cur, lhs, rhs, with_nul, a, b);
            let l = if with_nul {
                nul_runs(code, o, m17, n, s.cur, payload, total as int)
            } else {
                m17
            };
            joined_holds(l.memory, m17.memory, m14, m17, payload, a, b, with_nul);
            assert forall|x: int| #[trigger] m.memory.taken.contains(
                x,
            ) implies l.memory.taken.contains(x) && byte(l.memory, x) == byte(m.memory, x) by {
                assert(byte(m17.memory, x) == byte(m14.memory, x));
            }
            arrives(l, code, o, goal);
        },
        None => {},
    }
}

/// The instructions of a concatenation are where they belong.
proof fn concat_reads(s: Code, code: Code, lhs: Val, rhs: Val, with_nul: bool)
    requires
        runs_through(s, byte_aligned_concat_code(s, lhs, rhs, with_nul), code),
    ensures
        concat_stands(code, s.log.len(), s.cur, lhs, rhs, with_nul),
        byte_aligned_concat_code(s, lhs, rhs, with_nul).log.len() == s.log.len() + (if with_nul {
            19int
        } else {
            17int
        }),
{
    let fragment = byte_aligned_concat_code(s, lhs, rhs, with_nul);
    let end = fragment.log.len() as int;
    assert forall|i: int| 0 <= i < end implies #[trigger] code.log[i] == fragment.log[i] by {
        assert(fragment.log[i] == code.log.subrange(0, end)[i]);
    }
}

/// The NUL byte behind the payload.
proof fn nul_runs(
    code: Code,
    o: Outside,
    m: Machine,
    n: nat,
    block: usize,
    payload: int,
    total: int,
) -> (l: Machine)
    requires
        m.at == n + 17,
        m.returned is None,
        n + 19 < code.log.len() <= usize::MAX,
        code.log[n as int + 17] == (Entry {
            block: block,
            inst: gep_in(Val::At((n + 13) as usize), Val::At((n + 7) as usize)),
        }),
        code.log[n as int + 18] == (Entry {
            block: block,
            inst: Inst::Store(LType::I8, num(0), Val::At((n + 17) as usize)),
        }),
        code.log[n as int + 19].block == block,
        m.results[(n + 13) as usize] == payload,
        m.results[(n + 7) as usize] == total,
        0 <= payload,
        0 <= total,
        payload + total <= u64::MAX,
    ensures
        m.leads_to(code, o, l),
        l.at == n + 19,
        l.results[(n + 13) as usize] == payload,
        byte(l.memory, payload + total) == 0,
        l.memory.taken == m.memory.taken,
        forall|x: int|
            0 <= x <= u64::MAX && x != payload + total ==> #[trigger] byte(l.memory, x) == byte(
                m.memory,
                x,
            ),
{
    moves(m, code, o, Val::At((n + 13) as usize), Val::At((n + 7) as usize));
    let m18 = m.step(code, o);
    address_in_range(payload + total);
    stores(m18, code, o, LType::I8, num(0), Val::At((n + 17) as usize));
    let l = m18.step(code, o);
    assert forall|x: int| 0 <= x <= u64::MAX && x != payload + total implies #[trigger] byte(
        l.memory,
        x,
    ) == byte(m.memory, x) by {
        store_spares_others(m.memory, payload + total, 0, 1, x);
    }
    assert(l.memory.taken == m.memory.taken) by {
        reveal_with_fuel(stored, 2);
    }
    assert(byte(l.memory, payload + total) == 0) by {
        reveal_with_fuel(stored, 2);
    }
    l
}

/// Both sides and the length word are still there behind the NUL byte.
proof fn joined_holds(
    end: Memory,
    copied: Memory,
    header: Machine,
    l: Machine,
    payload: int,
    a: Seq<u8>,
    b: Seq<u8>,
    with_nul: bool,
)
    requires
        l.memory == copied,
        both_copied(l, header.memory, payload, a, b),
        number(header.memory, payload - LENGTH_OFFSET, 8) == 8 * (a.len() + b.len()),
        8 * (a.len() + b.len()) <= u64::MAX,
        in_memory(payload - HEADER_BYTES, a.len() + b.len() + overhead(with_nul)),
        forall|x: int|
            0 <= x <= u64::MAX && !(with_nul && x == payload + a.len() + b.len())
                ==> #[trigger] byte(end, x) == byte(copied, x),
    ensures
        holds_bytes(end, payload as u64, a + b),
{
    let bytes = a + b;
    assert forall|i: int| 0 <= i < bytes.len() implies #[trigger] byte(end, payload + i)
        == bytes[i] by {
        if i < a.len() {
            assert(byte(copied, payload + i) == a[i]);
        } else {
            assert(byte(copied, payload + a.len() + (i - a.len())) == b[i - a.len()]);
        }
    }
    number_of_bytes(end, payload - LENGTH_OFFSET, header.memory, payload - LENGTH_OFFSET, 8);
    address_in_range(payload - LENGTH_OFFSET);
}

/// Emits the concatenation of two byte-aligned payloads.
pub fn emit_byte_aligned_concat(f: &mut Body, lhs: Val, rhs: Val, with_nul: bool) -> (r: Val)
    ensures
        final(f)@ == byte_aligned_concat_code(old(f)@, lhs, rhs, with_nul),
        r == old(f)@.v(13),
{
    let (l_bits, l_bytes) = bits_and_bytes(f, lhs);
    let (r_bits, r_bytes) = bits_and_bytes(f, rhs);
    let total_bits = f.ins(iadd(l_bits, r_bits));
    let total_bytes = f.ins(iadd(l_bytes, r_bytes));
    let size = block_alloc_size(f, total_bytes, with_nul);
    let base = f.ins(call(Rt::Malloc, a1(size)));
    let payload = init_heap_block(f, base, total_bits);
    f.ins(call(Rt::Memcpy, a3(payload, lhs, l_bytes)));
    let mid = f.ins(gep_in(payload, l_bytes));
    f.ins(call(Rt::Memcpy, a3(mid, rhs, r_bytes)));
    if with_nul {
        store_nul(f, payload, total_bytes);
    }
    payload
}

/// A concatenation and its result.
pub open spec fn concat_code(s: Code, kind: ConcatKind, lhs: Val, rhs: Val) -> (Code, Val) {
    match kind {
        ConcatKind::Bits => (s.i(call(Rt::ConcatBits, a2(lhs, rhs))), s.v(0)),
        ConcatKind::String => (byte_aligned_concat_code(s, lhs, rhs, true), s.v(13)),
        ConcatKind::Binary => (byte_aligned_concat_code(s, lhs, rhs, false), s.v(13)),
    }
}

/// Emits a concatenation.
pub fn emit_concat(f: &mut Body, kind: ConcatKind, lhs: Val, rhs: Val) -> (r: Val)
    ensures
        (final(f)@, r) == concat_code(old(f)@, kind, lhs, rhs),
{
    match kind {
        ConcatKind::Bits => f.ins(call(Rt::ConcatBits, a2(lhs, rhs))),
        ConcatKind::String => emit_byte_aligned_concat(f, lhs, rhs, true),
        ConcatKind::Binary => emit_byte_aligned_concat(f, lhs, rhs, false),
    }
}

} // verus!
