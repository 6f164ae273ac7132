//! Where the emitted probes stop.
//!
//! A probe starts at the bucket that the key's hash names and walks the
//! table bucket by bucket, round its end. What is said here holds of a
//! running body, whatever `hash` and `eq` the key type has.

use vstd::arithmetic::div_mod::{lemma_add_mod_noop, lemma_mod_bound, lemma_small_mod};
use vstd::arithmetic::power2::{lemma_pow2_pos, pow2};
use vstd::bits::{lemma_u64_low_bits_mask_is_mod, low_bits_mask};
use vstd::prelude::*;

use crate::intrinsics::hashtable::read::{has_q_code, read_probe_code};
use crate::intrinsics::hashtable::util::{
    extracted, HashtableLayout, KeyHashOps, TableSnapshot, STATE_EMPTY, STATE_OCCUPIED,
    STATE_TOMBSTONE,
};
use crate::llvm::{
    a1, a2, call_fn, gep, iadd, iand, itest8, imul, isub, num, start, BinOp, Callee, Code, Entry, Inst,
    LType, Pred, Val,
};
use crate::memory::{byte, number, Memory};
use crate::semantics::{
    arguments, arrives, beginning_stands, begins_as, bit, booted, branches, byte_count, calls, combines,
    extracts, finishes, gave, goes_on, incoming, incoming_finds, jumps, loads, moves, read, seek,
    seek_finds, takes, tests, tidy, wrapped, Machine, Outside,
};

verus! {

/// A table in memory.
pub struct Buckets {
    pub memory: Memory,
    pub entries: u64,
    pub states: u64,
    pub capacity: u64,
    pub entry_size: u64,
    pub key_ty: LType,
}

/// A word is a power of two.
pub open spec fn power_of_two(x: u64) -> bool {
    exists|k: nat| k < 64 && x == #[trigger] pow2(k)
}

impl Buckets {
    /// The state byte of a bucket.
    pub open spec fn state(self, b: int) -> u8 {
        byte(self.memory, self.states + b)
    }

    /// The address of a bucket's entry.
    pub open spec fn entry(self, b: int) -> u64 {
        wrapped(LType::I64, self.entries + wrapped(LType::I64, b * self.entry_size))
    }

    /// The key of a bucket.
    pub open spec fn key(self, o: Outside, b: int) -> int {
        number(self.memory, self.entry(b) as int, byte_count(o, self.key_ty))
    }

    /// The bucket that a probe visits after `d` others.
    pub open spec fn visited(self, hash: u64, d: nat) -> int {
        (hash + d) % self.capacity as int
    }
}

/// What a key type's `hash` and `eq` do on one key: they change no memory.
pub struct KeyWords {
    pub key: int,
    pub hash: u64,
    pub equal: spec_fn(int) -> bool,
}

/// `hash` and `eq` behave as told, over unchanged memory.
pub open spec fn key_calls(o: Outside, ops: KeyHashOps, memory: Memory, k: KeyWords) -> bool {
    &&& (o.calls)(Callee::Function(ops.hash_fn), seq![k.key], memory) == (k.hash as int, memory)
    &&& forall|other: int|
        (o.calls)(Callee::Function(ops.eq_fn), seq![k.key, other], memory) == (
            bit(#[trigger] (k.equal)(other)) as int,
            memory,
        )
}

/// Whether a bucket holds the key.
pub open spec fn holds_key(o: Outside, t: Buckets, k: KeyWords, b: int) -> bool {
    t.state(b) == STATE_OCCUPIED && (k.equal)(t.key(o, b))
}

/// Whether a bucket ends a lookup of a key or, for writing, can take it.
pub open spec fn stops(o: Outside, t: Buckets, k: KeyWords, writing: bool, b: int) -> bool {
    t.state(b) == STATE_EMPTY || holds_key(o, t, k, b) || (writing && t.state(b) != STATE_OCCUPIED)
}

/// A probe inside a body: the place of its first instruction and block,
/// the block that it is entered from, and what it works on.
pub struct Probe {
    pub n: nat,
    pub block: nat,
    pub from: usize,
    pub layout: HashtableLayout,
    pub table: TableSnapshot,
    pub key: Val,
    pub ops: KeyHashOps,
}

impl Probe {
    /// The result of the probe's `k`-th instruction.
    pub open spec fn v(self, k: int) -> Val {
        Val::At((self.n + k) as usize)
    }

    /// The `k`-th block of the probe.
    pub open spec fn b(self, k: int) -> usize {
        (self.block + k) as usize
    }

    /// The body holds the probe, instruction by instruction.
    pub open spec fn stands_in(self, code: Code) -> bool {
        let is = |k: int, block: usize, inst: Inst|
            code.log[self.n + k] == Entry { block: block, inst: inst };
        &&& self.n + 19 <= code.log.len() <= usize::MAX
        &&& is(0, self.from, call_fn(self.ops.hash_fn, a1(self.key)))
        &&& is(1, self.from, isub(self.table.capacity, num(1)))
        &&& is(2, self.from, iand(self.v(0), self.v(1)))
        &&& is(3, self.from, Inst::Br(self.b(0)))
        &&& is(4, self.b(0), Inst::Phi(LType::I64))
        &&& is(5, self.b(0), gep(self.table.states_ptr, self.v(4)))
        &&& is(6, self.b(0), Inst::Load(LType::I8, self.v(5)))
        &&& is(7, self.b(0), itest8(Pred::Eq, self.v(6), num(STATE_EMPTY)))
        &&& is(8, self.b(0), Inst::CondBr(self.v(7), self.b(4), self.b(1)))
        &&& is(9, self.b(1), itest8(Pred::Eq, self.v(6), num(STATE_OCCUPIED)))
        &&& is(
            10,
            self.b(1),
            Inst::CondBr(self.v(9), self.b(2), self.b(5)),
        )
        &&& is(11, self.b(2), imul(self.v(4), num(self.layout.entry_size)))
        &&& is(12, self.b(2), gep(self.table.entries_ptr, self.v(11)))
        &&& is(13, self.b(2), Inst::Load(self.ops.key_basic_ty, self.v(12)))
        &&& is(14, self.b(2), call_fn(self.ops.eq_fn, a2(self.key, self.v(13))))
        &&& is(15, self.b(2), Inst::CondBr(self.v(14), self.b(3), self.b(5)))
        &&& is(16, self.b(5), iadd(self.v(4), num(1)))
        &&& is(17, self.b(5), iand(self.v(16), self.v(1)))
        &&& is(18, self.b(5), Inst::Br(self.b(0)))
        &&& incoming(code.edges, self.v(4), self.from) == Some(self.v(2))
        &&& incoming(code.edges, self.v(4), self.b(5)) == Some(self.v(17))
        &&& seek(code.log, self.b(0), 0) == self.n + 4
        &&& seek(code.log, self.b(1), 0) == self.n + 9
        &&& seek(code.log, self.b(2), 0) == self.n + 11
        &&& seek(code.log, self.b(5), 0) == self.n + 16
    }

    /// An operand is known before the probe.
    pub open spec fn known(self, v: Val) -> bool {
        v matches Val::At(k) ==> k < self.n
    }

    /// The operands of the probe are the table and the key.
    pub open spec fn works_on(self, o: Outside, m: Machine, t: Buckets, k: KeyWords) -> bool {
        &&& self.known(self.table.entries_ptr)
        &&& self.known(self.table.states_ptr)
        &&& self.known(self.table.capacity)
        &&& self.known(self.key)
        &&& read(o, m.results, self.table.entries_ptr) == t.entries
        &&& read(o, m.results, self.table.states_ptr) == t.states
        &&& read(o, m.results, self.table.capacity) == t.capacity
        &&& read(o, m.results, self.key) == k.key
        &&& self.layout.entry_size == t.entry_size
        &&& self.ops.key_basic_ty == t.key_ty
        &&& m.memory == t.memory
        &&& m.returned is None
    }

    /// Nothing that was known before the probe is changed.
    pub open spec fn keeps(self, before: Machine, after: Machine) -> bool {
        &&& after.memory == before.memory
        &&& after.returned is None
        &&& forall|i: usize| i < self.n ==> #[trigger] after.results[i] == before.results[i]
    }
}

/// The machine has left the probe at bucket `b`: in the block for a key
/// that is there, with the address of its entry, or in the other one.
pub open spec fn stopped(
    code: Code,
    o: Outside,
    p: Probe,
    m: Machine,
    t: Buckets,
    k: KeyWords,
    b: int,
) -> spec_fn(Machine) -> bool {
    |l: Machine|
        {
            &&& p.keeps(m, l)
            &&& l.results[(p.n + 4) as usize] == b
            &&& l.results[(p.n + 5) as usize] == wrapped(LType::I64, t.states + b)
            &&& if holds_key(o, t, k, b) {
                &&& l.at == seek(code.log, p.b(3), 0)
                &&& l.results[(p.n + 12) as usize] == t.entry(b)
            } else {
                l.at == seek(code.log, p.b(4), 0)
            }
        }
}

/// Masking with one less than a power of two is the remainder.
pub proof fn mask_is_remainder(x: u64, capacity: u64)
    requires
        power_of_two(capacity),
    ensures
        capacity > 0,
        x & ((capacity - 1) as u64) == x % capacity,
{
    let k = choose|k: nat| k < 64 && capacity == #[trigger] pow2(k);
    lemma_pow2_pos(k);
    lemma_u64_low_bits_mask_is_mod(x, k);
    assert(low_bits_mask(k) == capacity - 1);
}

/// The probe is at bucket `visited(d)`, past its phi.
spec fn probing(o: Outside, p: Probe, m: Machine, first: Machine, t: Buckets, k: KeyWords, d: nat) -> bool {
    &&& p.works_on(o, m, t, k)
    &&& p.keeps(first, m)
    &&& m.at == p.n + 5
    &&& m.results[(p.n + 1) as usize] == t.capacity - 1
    &&& m.results[(p.n + 4) as usize] == t.visited(k.hash, d)
}

/// From a bucket that does not stop it, a probe goes on to the next one.
proof fn probe_round(
    code: Code,
    o: Outside,
    p: Probe,
    m: Machine,
    first: Machine,
    t: Buckets,
    k: KeyWords,
    d: nat,
    stop: nat,
)
    requires
        p.stands_in(code),
        power_of_two(t.capacity),
        key_calls(o, p.ops, t.memory, k),
        probing(o, p, m, first, t, k, d),
        d <= stop,
        stops(o, t, k, false, t.visited(k.hash, stop)),
        forall|e: nat| e < stop ==> !stops(o, t, k, false, #[trigger] t.visited(k.hash, e)),
    ensures
        m.comes_to(code, o, stopped(code, o, p, first, t, k, t.visited(k.hash, stop))),
    decreases stop - d, 1nat,
{
    let b = t.visited(k.hash, d);
    mask_is_remainder(0, t.capacity);
    assert(0 <= b < t.capacity) by (nonlinear_arith)
        requires
            b == (k.hash + d) % t.capacity as int,
            t.capacity > 0,
    ;
    let goal = stopped(code, o, p, first, t, k, t.visited(k.hash, stop));
    moves(m, code, o, p.table.states_ptr, p.v(4));
    let m6 = m.step(code, o);
    loads(m6, code, o, LType::I8, p.v(5));
    let m7 = m6.step(code, o);
    assert(m7.results[(p.n + 6) as usize] == t.state(b)) by {
        reveal_with_fuel(number, 2);
    }
    tests(m7, code, o, Pred::Eq, LType::I8, p.v(6), num(STATE_EMPTY));
    let m8 = m7.step(code, o);
    branches(m8, code, o, p.v(7), p.b(4), p.b(1));
    let m9 = m8.step(code, o);
    if t.state(b) == STATE_EMPTY {
        assert(d == stop);
        arrives(m9, code, o, goal);
    } else {
        tests(m9, code, o, Pred::Eq, LType::I8, p.v(6), num(STATE_OCCUPIED));
        let m10 = m9.step(code, o);
        branches(m10, code, o, p.v(9), p.b(2), p.b(5));
        let m11 = m10.step(code, o);
        if t.state(b) != STATE_OCCUPIED {
            probe_advances(code, o, p, m11, first, t, k, d, stop);
        } else {
            combines(m11, code, o, BinOp::Mul, LType::I64, p.v(4), num(p.layout.entry_size));
            let m12 = m11.step(code, o);
            moves(m12, code, o, p.table.entries_ptr, p.v(11));
            let m13 = m12.step(code, o);
            loads(m13, code, o, p.ops.key_basic_ty, p.v(12));
            let m14 = m13.step(code, o);
            assert(m14.results[(p.n + 13) as usize] == t.key(o, b));
            assert(arguments(o, m14.results, a2(p.key, p.v(13))) =~= seq![k.key, t.key(o, b)]) by {
                reveal_with_fuel(arguments, 3);
            }
            calls(m14, code, o, Callee::Function(p.ops.eq_fn), a2(p.key, p.v(13)));
            let m15 = m14.step(code, o);
            assert(m15.results[(p.n + 14) as usize] == bit((k.equal)(t.key(o, b))));
            branches(m15, code, o, p.v(14), p.b(3), p.b(5));
            let m16 = m15.step(code, o);
            if holds_key(o, t, k, b) {
                assert(d == stop);
                arrives(m16, code, o, goal);
            } else {
                probe_advances(code, o, p, m16, first, t, k, d, stop);
            }
        }
    }
}

/// The advance block takes a probe to the next bucket.
proof fn probe_advances(
    code: Code,
    o: Outside,
    p: Probe,
    m: Machine,
    first: Machine,
    t: Buckets,
    k: KeyWords,
    d: nat,
    stop: nat,
)
    requires
        p.stands_in(code),
        power_of_two(t.capacity),
        key_calls(o, p.ops, t.memory, k),
        probing(o, p, Machine { at: p.n + 5, ..m }, first, t, k, d),
        m.at == p.n + 16,
        d < stop,
        stops(o, t, k, false, t.visited(k.hash, stop)),
        forall|e: nat| e < stop ==> !stops(o, t, k, false, #[trigger] t.visited(k.hash, e)),
    ensures
        m.comes_to(code, o, stopped(code, o, p, first, t, k, t.visited(k.hash, stop))),
    decreases stop - d, 0nat,
{
    let b = t.visited(k.hash, d);
    let mask = (t.capacity - 1) as u64;
    combines(m, code, o, BinOp::Add, LType::I64, p.v(4), num(1));
    let m17 = m.step(code, o);
    combines(m17, code, o, BinOp::And, LType::I64, p.v(16), p.v(1));
    let m18 = m17.step(code, o);
    mask_is_remainder((b + 1) as u64, t.capacity);
    assert(0 <= b < t.capacity) by (nonlinear_arith)
        requires
            b == (k.hash + d) % t.capacity as int,
            t.capacity > 0,
    ;
    assert(t.visited(k.hash, d + 1) == (b + 1) % t.capacity as int) by {
        lemma_add_mod_noop(k.hash + d, 1, t.capacity as int);
        lemma_add_mod_noop(b, 1, t.capacity as int);
        lemma_small_mod(b as nat, t.capacity as nat);
    }
    assert(m18.results[(p.n + 17) as usize] == t.visited(k.hash, d + 1));
    jumps(m18, code, o, p.b(0));
    let n4 = m18.step(code, o);
    takes(n4, code, o, LType::I64, p.v(17));
    let n5 = n4.step(code, o);
    probe_round(code, o, p, n5, first, t, k, d + 1, stop);
}

/// A probe stops at the first bucket on its way that stops it: at the
/// entry of the key, or where the key is not.
pub proof fn probe_stops(
    code: Code,
    o: Outside,
    p: Probe,
    m: Machine,
    t: Buckets,
    k: KeyWords,
    stop: nat,
)
    requires
        p.stands_in(code),
        power_of_two(t.capacity),
        key_calls(o, p.ops, t.memory, k),
        p.works_on(o, m, t, k),
        m.at == p.n,
        stops(o, t, k, false, t.visited(k.hash, stop)),
        forall|e: nat| e < stop ==> !stops(o, t, k, false, #[trigger] t.visited(k.hash, e)),
    ensures
        m.comes_to(code, o, stopped(code, o, p, m, t, k, t.visited(k.hash, stop))),
{
    assert(arguments(o, m.results, a1(p.key)) =~= seq![k.key]) by {
        reveal_with_fuel(arguments, 2);
    }
    calls(m, code, o, Callee::Function(p.ops.hash_fn), a1(p.key));
    let m1 = m.step(code, o);
    mask_is_remainder(k.hash, t.capacity);
    combines(m1, code, o, BinOp::Sub, LType::I64, p.table.capacity, num(1));
    let m2 = m1.step(code, o);
    combines(m2, code, o, BinOp::And, LType::I64, p.v(0), p.v(1));
    let m3 = m2.step(code, o);
    assert(m3.results[(p.n + 2) as usize] == t.visited(k.hash, 0));
    jumps(m3, code, o, p.b(0));
    let m4 = m3.step(code, o);
    takes(m4, code, o, LType::I64, p.v(2));
    let m5 = m4.step(code, o);
    probe_round(code, o, p, m5, m, t, k, 0, stop);
}

/// Every bucket is on the way of every probe.
pub proof fn probes_visit_every_bucket(t: Buckets, hash: u64, b: int) -> (d: nat)
    requires
        0 <= b < t.capacity,
    ensures
        d < t.capacity,
        t.visited(hash, d) == b,
{
    let c = t.capacity as int;
    let h = hash as int % c;
    let d = (b - h) % c;
    lemma_mod_bound(b - h, c);
    lemma_mod_bound(hash as int, c);
    lemma_add_mod_noop(hash as int, d, c);
    lemma_add_mod_noop(h, b - h, c);
    lemma_small_mod(h as nat, c as nat);
    lemma_small_mod(d as nat, c as nat);
    lemma_small_mod(b as nat, c as nat);
    d as nat
}

/// The first bucket on a probe's way that stops it.
pub proof fn first_stop(
    o: Outside,
    t: Buckets,
    k: KeyWords,
    writing: bool,
    from: nat,
    some: nat,
) -> (stop: nat)
    requires
        from <= some,
        stops(o, t, k, writing, t.visited(k.hash, some)),
        forall|e: nat| e < from ==> !stops(o, t, k, writing, #[trigger] t.visited(k.hash, e)),
    ensures
        from <= stop <= some,
        stops(o, t, k, writing, t.visited(k.hash, stop)),
        forall|e: nat| e < stop ==> !stops(o, t, k, writing, #[trigger] t.visited(k.hash, e)),
    decreases some - from,
{
    if stops(o, t, k, writing, t.visited(k.hash, from)) {
        from
    } else {
        first_stop(o, t, k, writing, from + 1, some)
    }
}

/// The key can be looked up: it is on the way from its hash, before any
/// bucket that was never filled.
pub open spec fn in_table(o: Outside, t: Buckets, k: KeyWords) -> bool {
    exists|d: nat|
        holds_key(o, t, k, #[trigger] t.visited(k.hash, d)) && forall|e: nat|
            e <= d ==> t.state(#[trigger] t.visited(k.hash, e)) != STATE_EMPTY
}

/// The table that the first parameter of a function is.
pub open spec fn receiver(o: Outside, memory: Memory, layout: HashtableLayout, key_ty: LType) -> Buckets {
    Buckets {
        memory: memory,
        entries: (o.parts)(0, 0) as u64,
        states: (o.parts)(0, 1) as u64,
        capacity: (o.parts)(0, 3) as u64,
        entry_size: layout.entry_size,
        key_ty: key_ty,
    }
}

/// The parts of the first parameter are words.
pub open spec fn receives_table(o: Outside) -> bool {
    forall|i: usize| i < 4 ==> 0 <= #[trigger] (o.parts)(0, i) <= u64::MAX
}

/// The probe of `has?`.
spec fn has_probe(layout: HashtableLayout, ops: KeyHashOps) -> Probe {
    Probe {
        n: 4,
        block: 1,
        from: 0,
        layout: layout,
        table: extracted(start()),
        key: Val::Param(1),
        ops: ops,
    }
}

proof fn has_reads(code: Code, layout: HashtableLayout, ops: KeyHashOps)
    requires
        code == has_q_code(start(), layout, ops),
    ensures
        has_probe(layout, ops).stands_in(code),
        code.log.len() == 25,
        forall|i: usize|
            i < 4 ==> #[trigger] code.log[i as int] == (Entry {
                block: 0,
                inst: Inst::Extract(LType::Table, Val::Param(0), i),
            }),
        code.log[23] == (Entry { block: 4, inst: Inst::Ret(LType::I1, num(1)) }),
        code.log[24] == (Entry { block: 5, inst: Inst::Ret(LType::I1, num(0)) }),
        seek(code.log, 0, 0) == 0,
        seek(code.log, 4, 0) == 23,
        seek(code.log, 5, 0) == 24,
{
    reveal_with_fuel(incoming, 3);
    let e = code.edges;
    assert(e.len() == 2);
    assert(e.drop_first()[0] == e[1]);
    seek_finds(code.log, 0, 0, 0);
    seek_finds(code.log, 1, 0, 8);
    seek_finds(code.log, 2, 0, 13);
    seek_finds(code.log, 3, 0, 15);
    seek_finds(code.log, 6, 0, 20);
    seek_finds(code.log, 4, 0, 23);
    seek_finds(code.log, 5, 0, 24);
}

/// `has?` answers whether the key can be looked up in its receiver, as
/// long as it can or some bucket of the receiver was never filled.
pub proof fn has_tells_whether_in_table(
    o: Outside,
    memory: Memory,
    layout: HashtableLayout,
    ops: KeyHashOps,
    k: KeyWords,
    empty: int,
)
    requires
        receives_table(o),
        ({
            let t = receiver(o, memory, layout, ops.key_basic_ty);
            &&& power_of_two(t.capacity)
            &&& in_table(o, t, k) || (0 <= empty < t.capacity && t.state(empty) == STATE_EMPTY)
        }),
        k.key == (o.values)(Val::Param(1)),
        key_calls(o, ops, memory, k),
    ensures
        ({
            let code = has_q_code(start(), layout, ops);
            let t = receiver(o, memory, layout, ops.key_basic_ty);
            booted(code, memory).gives_back(code, o, bit(in_table(o, t, k)) as int)
        }),
{
    let code = has_q_code(start(), layout, ops);
    let t = receiver(o, memory, layout, ops.key_basic_ty);
    let p = has_probe(layout, ops);
    has_reads(code, layout, ops);
    let some = if in_table(o, t, k) {
        choose|d: nat|
            holds_key(o, t, k, #[trigger] t.visited(k.hash, d)) && forall|e: nat|
                e <= d ==> t.state(#[trigger] t.visited(k.hash, e)) != STATE_EMPTY
    } else {
        probes_visit_every_bucket(t, k.hash, empty)
    };
    let stop = first_stop(o, t, k, false, 0, some);
    let b = t.visited(k.hash, stop);
    let found = holds_key(o, t, k, b);
    assert(found == in_table(o, t, k)) by {
        if found {
            assert forall|e: nat| e <= stop implies t.state(#[trigger] t.visited(k.hash, e))
                != STATE_EMPTY by {
                if e < stop {
                    assert(!stops(o, t, k, false, t.visited(k.hash, e)));
                }
            }
        } else if in_table(o, t, k) {
            let d = choose|d: nat|
                holds_key(o, t, k, #[trigger] t.visited(k.hash, d)) && forall|e: nat|
                    e <= d ==> t.state(#[trigger] t.visited(k.hash, e)) != STATE_EMPTY;
            if d < stop {
                assert(!stops(o, t, k, false, t.visited(k.hash, d)));
            } else {
                assert(t.state(b) != STATE_EMPTY);
            }
        }
    }
    let goal = gave(bit(found) as int);
    let m0 = booted(code, memory);
    assert(code.log[0usize as int].inst is Extract && code.log[1usize as int].inst is Extract);
    assert(code.log[2usize as int].inst is Extract && code.log[3usize as int].inst is Extract);
    extracts(m0, code, o, LType::Table, 0, 0);
    let m1 = m0.step(code, o);
    extracts(m1, code, o, LType::Table, 0, 1);
    let m2 = m1.step(code, o);
    extracts(m2, code, o, LType::Table, 0, 2);
    let m3 = m2.step(code, o);
    extracts(m3, code, o, LType::Table, 0, 3);
    let m4 = m3.step(code, o);
    probe_stops(code, o, p, m4, t, k, stop);
    let half = stopped(code, o, p, m4, t, k, b);
    assert forall|l: Machine| half(l) implies #[trigger] l.comes_to(code, o, goal) by {
        if found {
            finishes(l, code, o, LType::I1, num(1));
        } else {
            finishes(l, code, o, LType::I1, num(0));
        }
    }
    goes_on(m4, code, o, half, goal);
}

/// Two tables of the same shape that agree on every bucket but `b`.
pub open spec fn differ_only_at(o: Outside, t: Buckets, u: Buckets, b: int) -> bool {
    &&& u.capacity == t.capacity
    &&& forall|i: int|
        0 <= i < t.capacity && i != b ==> #[trigger] u.state(i) == t.state(i)
    &&& forall|i: int|
        0 <= i < t.capacity && i != b ==> #[trigger] u.key(o, i) == t.key(o, i)
}

/// A bucket that a probe visits is one of the table's.
pub proof fn visited_is_a_bucket(t: Buckets, hash: u64, d: nat)
    requires
        t.capacity > 0,
    ensures
        0 <= t.visited(hash, d) < t.capacity,
{
    lemma_mod_bound(hash + d, t.capacity as int);
}

/// Once the bucket that a writing probe stops at holds the key, the key
/// can be looked up.
pub proof fn filling_makes_it_found(o: Outside, t: Buckets, u: Buckets, k: KeyWords, stop: nat)
    requires
        t.capacity > 0,
        stops(o, t, k, true, t.visited(k.hash, stop)),
        forall|e: nat| e < stop ==> !stops(o, t, k, true, #[trigger] t.visited(k.hash, e)),
        differ_only_at(o, t, u, t.visited(k.hash, stop)),
        holds_key(o, u, k, t.visited(k.hash, stop)),
    ensures
        in_table(o, u, k),
{
    let b = t.visited(k.hash, stop);
    assert forall|e: nat| e <= stop implies u.state(#[trigger] u.visited(k.hash, e)) != STATE_EMPTY by {
        assert(u.visited(k.hash, e) == t.visited(k.hash, e));
        visited_is_a_bucket(t, k.hash, e);
        if e < stop {
            assert(!stops(o, t, k, true, t.visited(k.hash, e)));
        }
    }
    assert(holds_key(o, u, k, u.visited(k.hash, stop)));
}

/// Filling a free bucket hides no other key.
pub proof fn filling_keeps_others(o: Outside, t: Buckets, u: Buckets, b: int, other: KeyWords)
    requires
        t.capacity > 0,
        differ_only_at(o, t, u, b),
        t.state(b) != STATE_OCCUPIED,
        u.state(b) == STATE_OCCUPIED,
        in_table(o, t, other),
    ensures
        in_table(o, u, other),
{
    let d = choose|d: nat|
        holds_key(o, t, other, #[trigger] t.visited(other.hash, d)) && forall|e: nat|
            e <= d ==> t.state(#[trigger] t.visited(other.hash, e)) != STATE_EMPTY;
    assert forall|e: nat| e <= d implies u.state(#[trigger] u.visited(other.hash, e))
        != STATE_EMPTY by {
        assert(u.visited(other.hash, e) == t.visited(other.hash, e));
        visited_is_a_bucket(t, other.hash, e);
    }
    visited_is_a_bucket(t, other.hash, d);
    assert(holds_key(o, u, other, u.visited(other.hash, d)));
}

/// Marking a bucket as removed hides no key but the one in it.
pub proof fn removing_keeps_others(o: Outside, t: Buckets, u: Buckets, b: int, other: KeyWords)
    requires
        t.capacity > 0,
        differ_only_at(o, t, u, b),
        u.state(b) == STATE_TOMBSTONE,
        !holds_key(o, t, other, b),
        in_table(o, t, other),
    ensures
        in_table(o, u, other),
{
    let d = choose|d: nat|
        holds_key(o, t, other, #[trigger] t.visited(other.hash, d)) && forall|e: nat|
            e <= d ==> t.state(#[trigger] t.visited(other.hash, e)) != STATE_EMPTY;
    assert forall|e: nat| e <= d implies u.state(#[trigger] u.visited(other.hash, e))
        != STATE_EMPTY by {
        assert(u.visited(other.hash, e) == t.visited(other.hash, e));
        visited_is_a_bucket(t, other.hash, e);
    }
    visited_is_a_bucket(t, other.hash, d);
    assert(holds_key(o, u, other, u.visited(other.hash, d)));
}

/// A key whose only bucket is marked as removed can no longer be looked
/// up.
pub proof fn removing_forgets(o: Outside, t: Buckets, u: Buckets, b: int, k: KeyWords)
    requires
        t.capacity > 0,
        differ_only_at(o, t, u, b),
        u.state(b) == STATE_TOMBSTONE,
        forall|i: int| 0 <= i < t.capacity && i != b ==> !#[trigger] holds_key(o, t, k, i),
    ensures
        !in_table(o, u, k),
{
    if in_table(o, u, k) {
        let d = choose|d: nat|
            holds_key(o, u, k, #[trigger] u.visited(k.hash, d)) && forall|e: nat|
                e <= d ==> u.state(#[trigger] u.visited(k.hash, e)) != STATE_EMPTY;
        visited_is_a_bucket(u, k.hash, d);
        assert(!holds_key(o, t, k, u.visited(k.hash, d)));
    }
}

/// A lookup of the key ends at bucket `b`, which holds it.
pub open spec fn found_at(o: Outside, t: Buckets, k: KeyWords, b: int) -> bool {
    &&& holds_key(o, t, k, b)
    &&& exists|d: nat| #[trigger]
        t.visited(k.hash, d) == b && forall|e: nat|
            e < d ==> !stops(o, t, k, false, #[trigger] t.visited(k.hash, e))
}

/// A key that a lookup ends at is in the table.
pub proof fn found_is_in_table(o: Outside, t: Buckets, k: KeyWords, b: int)
    requires
        found_at(o, t, k, b),
    ensures
        in_table(o, t, k),
{
    let d = choose|d: nat| #[trigger]
        t.visited(k.hash, d) == b && forall|e: nat|
            e < d ==> !stops(o, t, k, false, #[trigger] t.visited(k.hash, e));
    assert forall|e: nat| e <= d implies t.state(#[trigger] t.visited(k.hash, e)) != STATE_EMPTY by {
        if e < d {
            assert(!stops(o, t, k, false, t.visited(k.hash, e)));
        }
    }
    assert(holds_key(o, t, k, t.visited(k.hash, d)));
}

/// Once the bucket that a writing probe stops at holds the key, a lookup
/// ends there.
pub proof fn filled_is_found(o: Outside, t: Buckets, u: Buckets, k: KeyWords, stop: nat)
    requires
        t.capacity > 0,
        forall|e: nat| e < stop ==> !stops(o, t, k, true, #[trigger] t.visited(k.hash, e)),
        differ_only_at(o, t, u, t.visited(k.hash, stop)),
        holds_key(o, u, k, t.visited(k.hash, stop)),
        stops(o, t, k, true, t.visited(k.hash, stop)),
    ensures
        found_at(o, u, k, t.visited(k.hash, stop)),
{
    let b = t.visited(k.hash, stop);
    assert(u.visited(k.hash, stop) == b);
    assert forall|e: nat| e < stop implies !stops(o, u, k, false, #[trigger] u.visited(k.hash, e)) by {
        assert(u.visited(k.hash, e) == t.visited(k.hash, e));
        visited_is_a_bucket(t, k.hash, e);
        assert(!stops(o, t, k, true, t.visited(k.hash, e)));
    }
}

/// The read-only probe stands where it was recorded.
pub proof fn read_probe_stands(
    s: Code,
    whole: Code,
    layout: HashtableLayout,
    table: TableSnapshot,
    key: Val,
    ops: KeyHashOps,
)
    requires
        tidy(s),
        s.blocks + 6 <= usize::MAX,
        begins_as(whole, read_probe_code(s, layout, table, key, ops)),
    ensures
        tidy(read_probe_code(s, layout, table, key, ops)),
        read_probe_code(s, layout, table, key, ops).log.len() == s.log.len() + 19,
        forall|i: int|
            0 <= i < s.log.len() + 19 ==> (#[trigger] whole.log[i]).block != s.b(3)
                && whole.log[i].block != s.b(4),
        (Probe {
            n: s.log.len(),
            block: s.blocks,
            from: s.cur,
                layout: layout,
            table: table,
            key: key,
            ops: ops,
        }).stands_in(whole),
{
    let part = read_probe_code(s, layout, table, key, ops);
    let n = s.log.len();
    let e = s.edges.len() as int;
    beginning_stands(whole, part);
    assert(part.log.len() == n + 19 && part.edges.len() == e + 2);
    assert forall|i: int| 0 <= i < n implies (#[trigger] part.log[i]).block < s.blocks by {
        assert(part.log[i] == s.log[i]);
    }
    assert forall|j: int| 0 <= j < e implies #[trigger] part.edges[j] == s.edges[j] by {}
    assert forall|i: int| 0 <= i < n + 19 implies (#[trigger] whole.log[i]).block != s.b(3)
        && whole.log[i].block != s.b(4) by {
        assert(whole.log[i] == part.log[i]);
        if i < n {
            assert(part.log[i].block < s.blocks);
        }
    }
    seek_finds(whole.log, s.b(0), 0, n + 4);
    seek_finds(whole.log, s.b(1), 0, n + 9);
    seek_finds(whole.log, s.b(2), 0, n + 11);
    seek_finds(whole.log, s.b(5), 0, n + 16);
    incoming_finds(whole.edges, s.v(4), s.cur, e);
    incoming_finds(whole.edges, s.v(4), s.b(5), e + 1);
}

} // verus!
