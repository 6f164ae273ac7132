//! Where the write-side probe settles: at the key, or at the bucket to
//! fill.

use vstd::arithmetic::div_mod::{lemma_add_mod_noop, lemma_mod_bound, lemma_small_mod};
use vstd::prelude::*;
use crate::intrinsics::hashtable::insert::{insert_probe_code, NO_BUCKET};
use crate::intrinsics::hashtable::probing::{
    holds_key, in_table, key_calls, mask_is_remainder, power_of_two, probes_visit_every_bucket, stops,
    visited_is_a_bucket, Buckets, KeyWords,
};
use crate::intrinsics::hashtable::util::{
    HashtableLayout, KeyHashOps, TableSnapshot, STATE_EMPTY, STATE_OCCUPIED,
};
use crate::llvm::{
    a1, a2, call_fn, gep, iadd, iand, imul, isub, itest, itest8, num, BinOp, Callee, Code, Entry, Inst,
    LType, Pred, Val,
};
use crate::memory::number;
use crate::semantics::{
    arguments, arrives, beginning_stands, begins_as, bit, branches, calls, combines, incoming,
    incoming_finds, jumps, loads, moves, picks, read, seek, seek_finds, takes, tests, tidy, wrapped,
    Machine, Outside,
};

verus! {

/// A write-side probe inside a body: the place of its first instruction
/// and block, the block that it is entered from, and what it works on.
pub struct Settling {
    pub n: nat,
    pub block: nat,
    pub from: usize,
    pub layout: HashtableLayout,
    pub table: TableSnapshot,
    pub key: Val,
    pub ops: KeyHashOps,
}

impl Settling {
    /// The result of the probe's `k`-th instruction.
    pub open spec fn v(self, k: int) -> Val {
        Val::At((self.n + k) as usize)
    }

    /// The `k`-th block of the probe.
    pub open spec fn b(self, k: int) -> usize {
        (self.block + k) as usize
    }

    /// The body holds the probe, instruction by instruction.
    pub open spec fn stands_in(self, code: Code) -> bool {
        let is = |k: int, block: usize, inst: Inst|
            code.log[self.n + k] == Entry { block: block, inst: inst };
        &&& self.n + 29 <= code.log.len() <= usize::MAX
        &&& is(0, self.from, call_fn(self.ops.hash_fn, a1(self.key)))
        &&& is(1, self.from, isub(self.table.capacity, num(1)))
        &&& is(2, self.from, iand(self.v(0), self.v(1)))
        &&& is(3, self.from, Inst::Br(self.b(0)))
        &&& is(4, self.b(0), Inst::Phi(LType::I64))
        &&& is(5, self.b(0), Inst::Phi(LType::I64))
        &&& is(6, self.b(0), gep(self.table.states_ptr, self.v(4)))
        &&& is(7, self.b(0), Inst::Load(LType::I8, self.v(6)))
        &&& is(8, self.b(0), itest8(Pred::Eq, self.v(7), num(STATE_EMPTY)))
        &&& is(9, self.b(0), Inst::CondBr(self.v(8), self.b(4), self.b(1)))
        &&& is(10, self.b(1), itest8(Pred::Eq, self.v(7), num(STATE_OCCUPIED)))
        &&& is(11, self.b(1), Inst::CondBr(self.v(10), self.b(2), self.b(5)))
        &&& is(12, self.b(2), imul(self.v(4), num(self.layout.entry_size)))
        &&& is(13, self.b(2), gep(self.table.entries_ptr, self.v(12)))
        &&& is(14, self.b(2), Inst::Load(self.ops.key_basic_ty, self.v(13)))
        &&& is(15, self.b(2), call_fn(self.ops.eq_fn, a2(self.key, self.v(14))))
        &&& is(16, self.b(2), Inst::CondBr(self.v(15), self.b(3), self.b(5)))
        &&& is(17, self.b(5), itest(Pred::Eq, self.v(5), num(NO_BUCKET)))
        &&& is(18, self.b(5), Inst::Select(LType::I64, self.v(17), self.v(4), self.v(5)))
        &&& is(19, self.b(5), Inst::Select(LType::I64, self.v(10), self.v(5), self.v(18)))
        &&& is(20, self.b(5), iadd(self.v(4), num(1)))
        &&& is(21, self.b(5), iand(self.v(20), self.v(1)))
        &&& is(22, self.b(5), itest(Pred::Eq, self.v(21), self.v(2)))
        &&& is(23, self.b(5), Inst::CondBr(self.v(22), self.b(4), self.b(0)))
        &&& is(24, self.b(4), Inst::Phi(LType::I64))
        &&& is(25, self.b(4), itest(Pred::Eq, self.v(24), num(NO_BUCKET)))
        &&& is(26, self.b(4), Inst::Select(LType::I64, self.v(25), self.v(4), self.v(24)))
        &&& is(27, self.b(4), gep(self.table.states_ptr, self.v(26)))
        &&& is(28, self.b(4), Inst::Br(self.b(6)))
        &&& incoming(code.edges, self.v(4), self.from) == Some(self.v(2))
        &&& incoming(code.edges, self.v(5), self.from) == Some(num(NO_BUCKET))
        &&& incoming(code.edges, self.v(4), self.b(5)) == Some(self.v(21))
        &&& incoming(code.edges, self.v(5), self.b(5)) == Some(self.v(19))
        &&& incoming(code.edges, self.v(24), self.b(0)) == Some(self.v(5))
        &&& incoming(code.edges, self.v(24), self.b(5)) == Some(self.v(19))
        &&& seek(code.log, self.b(0), 0) == self.n + 4
        &&& seek(code.log, self.b(1), 0) == self.n + 10
        &&& seek(code.log, self.b(2), 0) == self.n + 12
        &&& seek(code.log, self.b(5), 0) == self.n + 17
        &&& seek(code.log, self.b(4), 0) == self.n + 24
    }

    /// An operand is known before the probe.
    pub open spec fn known(self, v: Val) -> bool {
        v matches Val::At(k) ==> k < self.n
    }

    /// The operands of the probe are the table and the key.
    pub open spec fn works_on(self, o: Outside, m: Machine, t: Buckets, k: KeyWords) -> bool {
        &&& self.known(self.table.entries_ptr)
        &&& self.known(self.table.states_ptr)
        &&& self.known(self.table.capacity)
        &&& self.known(self.key)
        &&& read(o, m.results, self.table.entries_ptr) == t.entries
        &&& read(o, m.results, self.table.states_ptr) == t.states
        &&& read(o, m.results, self.table.capacity) == t.capacity
        &&& read(o, m.results, self.key) == k.key
        &&& self.layout.entry_size == t.entry_size
        &&& self.ops.key_basic_ty == t.key_ty
        &&& m.memory == t.memory
        &&& m.returned is None
    }

    /// Nothing that was known before the probe is changed.
    pub open spec fn keeps(self, before: Machine, after: Machine) -> bool {
        &&& after.memory == before.memory
        &&& after.returned is None
        &&& forall|i: usize| i < self.n ==> #[trigger] after.results[i] == before.results[i]
    }
}

/// The bucket that a probe for writing settles at after `d` others: the
/// one that holds the key, which a lookup ends at; or the first one that
/// can take the key, which is nowhere in the table.
pub open spec fn settles(o: Outside, t: Buckets, k: KeyWords, d: nat) -> bool {
    let b = t.visited(k.hash, d);
    if holds_key(o, t, k, b) {
        forall|e: nat| e < d ==> !stops(o, t, k, false, #[trigger] t.visited(k.hash, e))
    } else {
        &&& t.state(b) != STATE_OCCUPIED
        &&& forall|e: nat| e < d ==> !stops(o, t, k, true, #[trigger] t.visited(k.hash, e))
        &&& !in_table(o, t, k)
    }
}

/// The machine has left the probe where it settles.
pub open spec fn settled_at(
    code: Code,
    o: Outside,
    p: Settling,
    m: Machine,
    t: Buckets,
    k: KeyWords,
    l: Machine,
    d: nat,
) -> bool {
    let b = t.visited(k.hash, d);
    &&& settles(o, t, k, d)
    &&& p.keeps(m, l)
    &&& if holds_key(o, t, k, b) {
        &&& l.at == seek(code.log, p.b(3), 0)
        &&& l.results[(p.n + 13) as usize] == t.entry(b)
    } else {
        &&& l.at == seek(code.log, p.b(6), 0)
        &&& l.results[(p.n + 26) as usize] == b
        &&& l.results[(p.n + 27) as usize] == wrapped(LType::I64, t.states + b)
    }
}

/// The machine has left the probe.
pub open spec fn settled(
    code: Code,
    o: Outside,
    p: Settling,
    m: Machine,
    t: Buckets,
    k: KeyWords,
) -> spec_fn(Machine) -> bool {
    |l: Machine| exists|d: nat| #[trigger] settled_at(code, o, p, m, t, k, l, d)
}

/// The first bucket before the `d`-th that can take a key, of buckets that
/// do not end a lookup.
spec fn first_spare(o: Outside, t: Buckets, k: KeyWords, d: nat, x: Option<nat>) -> bool {
    &&& forall|e: nat| e < d ==> !stops(o, t, k, false, #[trigger] t.visited(k.hash, e))
    &&& match x {
        None => forall|e: nat| e < d ==> t.state(#[trigger] t.visited(k.hash, e)) == STATE_OCCUPIED,
        Some(x) => {
            &&& x < d
            &&& t.state(t.visited(k.hash, x)) != STATE_OCCUPIED
            &&& forall|e: nat|
                e < x ==> t.state(#[trigger] t.visited(k.hash, e)) == STATE_OCCUPIED
        },
    }
}

/// How the remembered bucket is written down.
spec fn spare_word(t: Buckets, k: KeyWords, x: Option<nat>) -> int {
    match x {
        None => NO_BUCKET as int,
        Some(x) => t.visited(k.hash, x),
    }
}

/// The probe is at its `d`-th bucket, past its phis.
spec fn settling(
    o: Outside,
    p: Settling,
    m: Machine,
    first: Machine,
    t: Buckets,
    k: KeyWords,
    d: nat,
    x: Option<nat>,
) -> bool {
    &&& p.works_on(o, m, t, k)
    &&& p.keeps(first, m)
    &&& d < t.capacity
    &&& first_spare(o, t, k, d, x)
    &&& m.results[(p.n + 1) as usize] == t.capacity - 1
    &&& m.results[(p.n + 2) as usize] == t.visited(k.hash, 0)
    &&& m.results[(p.n + 4) as usize] == t.visited(k.hash, d)
    &&& m.results[(p.n + 5) as usize] == spare_word(t, k, x)
}

/// What holds all through a probe.
spec fn settling_setting(code: Code, o: Outside, p: Settling, t: Buckets, k: KeyWords) -> bool {
    &&& p.stands_in(code)
    &&& power_of_two(t.capacity)
    &&& key_calls(o, p.ops, t.memory, k)
    &&& exists|b: int| 0 <= b < t.capacity && #[trigger] t.state(b) != STATE_OCCUPIED
}

/// The next bucket on the way.
proof fn next_visited(t: Buckets, hash: u64, d: nat)
    requires
        power_of_two(t.capacity),
    ensures
        ({
            let b = t.visited(hash, d);
            &&& t.capacity > 0
            &&& 0 <= b < t.capacity
            &&& ((b + 1) as u64) & ((t.capacity - 1) as u64) == t.visited(hash, d + 1)
        }),
{
    let b = t.visited(hash, d);
    mask_is_remainder(0, t.capacity);
    visited_is_a_bucket(t, hash, d);
    mask_is_remainder((b + 1) as u64, t.capacity);
    lemma_add_mod_noop(hash + d, 1, t.capacity as int);
    lemma_add_mod_noop(b, 1, t.capacity as int);
    lemma_small_mod(b as nat, t.capacity as nat);
}

/// A probe is back where it began after as many buckets as there are.
proof fn back_at_start(t: Buckets, hash: u64, d: nat)
    requires
        t.capacity > 0,
        0 < d <= t.capacity,
    ensures
        t.visited(hash, d) == t.visited(hash, 0) <==> d == t.capacity,
{
    let c = t.capacity as int;
    let h = hash as int % c;
    lemma_mod_bound(hash as int, c);
    lemma_add_mod_noop(hash as int, d as int, c);
    if d == t.capacity {
        vstd::arithmetic::div_mod::lemma_mod_self_0(c);
        lemma_small_mod(h as nat, c as nat);
    } else {
        lemma_small_mod(d, c as nat);
        if h + d < c {
            lemma_small_mod((h + d) as nat, c as nat);
        } else {
            vstd::arithmetic::div_mod::lemma_mod_add_multiples_vanish(h + d - c, c);
            lemma_small_mod((h + d - c) as nat, c as nat);
        }
    }
}

/// A key that no bucket holds before one that was never filled is not in
/// the table.
proof fn not_in_table(o: Outside, t: Buckets, k: KeyWords, d: nat)
    requires
        t.capacity > 0,
        forall|e: nat| e < d ==> !stops(o, t, k, false, #[trigger] t.visited(k.hash, e)),
        d >= t.capacity || t.state(t.visited(k.hash, d)) == STATE_EMPTY,
    ensures
        !in_table(o, t, k),
{
    if in_table(o, t, k) {
        let x = choose|x: nat|
            holds_key(o, t, k, #[trigger] t.visited(k.hash, x)) && forall|e: nat|
                e <= x ==> t.state(#[trigger] t.visited(k.hash, e)) != STATE_EMPTY;
        if x < d {
            assert(!stops(o, t, k, false, t.visited(k.hash, x)));
        } else if d >= t.capacity {
            visited_is_a_bucket(t, k.hash, x);
            let y = probes_visit_every_bucket(t, k.hash, t.visited(k.hash, x));
            assert(!stops(o, t, k, false, t.visited(k.hash, y)));
        } else {
            assert(t.state(t.visited(k.hash, d)) != STATE_EMPTY);
        }
    }
}

/// The end of a probe that has not found the key.
proof fn probe_settles(
    code: Code,
    o: Outside,
    p: Settling,
    m: Machine,
    first: Machine,
    t: Buckets,
    k: KeyWords,
    from: Val,
    x: Option<nat>,
    d: nat,
)
    requires
        settling_setting(code, o, p, t, k),
        p.works_on(o, m, t, k),
        p.keeps(first, m),
        m.at == p.n + 24,
        incoming(code.edges, p.v(24), m.from) == Some(from),
        from == p.v(5) || from == p.v(19),
        read(o, m.entered, from) == spare_word(t, k, x),
        m.results[(p.n + 4) as usize] == t.visited(k.hash, d),
        ({
            let e = match x {
                Some(x) => x,
                None => d,
            };
            settles(o, t, k, e) && !holds_key(o, t, k, t.visited(k.hash, e))
        }),
    ensures
        m.comes_to(code, o, settled(code, o, p, first, t, k)),
{
    let e = match x {
        Some(x) => x,
        None => d,
    };
    let b = t.visited(k.hash, e);
    mask_is_remainder(0, t.capacity);
    visited_is_a_bucket(t, k.hash, e);
    visited_is_a_bucket(t, k.hash, d);
    takes(m, code, o, LType::I64, from);
    let m25 = m.step(code, o);
    assert(m25.results[(p.n + 24) as usize] == spare_word(t, k, x));
    tests(m25, code, o, Pred::Eq, LType::I64, p.v(24), num(NO_BUCKET));
    let m26 = m25.step(code, o);
    picks(m26, code, o, LType::I64, p.v(25), p.v(4), p.v(24));
    let m27 = m26.step(code, o);
    assert(m27.results[(p.n + 26) as usize] == b);
    moves(m27, code, o, p.table.states_ptr, p.v(26));
    let m28 = m27.step(code, o);
    jumps(m28, code, o, p.b(6));
    let end = m28.step(code, o);
    assert(settled_at(code, o, p, first, t, k, end, e));
    arrives(end, code, o, settled(code, o, p, first, t, k));
}

/// One round of a probe.
proof fn settling_round(
    code: Code,
    o: Outside,
    p: Settling,
    m: Machine,
    first: Machine,
    t: Buckets,
    k: KeyWords,
    d: nat,
    x: Option<nat>,
)
    requires
        settling_setting(code, o, p, t, k),
        settling(o, p, m, first, t, k, d, x),
        m.at == p.n + 6,
    ensures
        m.comes_to(code, o, settled(code, o, p, first, t, k)),
    decreases t.capacity - d, 1nat,
{
    let b = t.visited(k.hash, d);
    let goal = settled(code, o, p, first, t, k);
    mask_is_remainder(0, t.capacity);
    visited_is_a_bucket(t, k.hash, d);
    moves(m, code, o, p.table.states_ptr, p.v(4));
    let m7 = m.step(code, o);
    loads(m7, code, o, LType::I8, p.v(6));
    let m8 = m7.step(code, o);
    assert(m8.results[(p.n + 7) as usize] == t.state(b)) by {
        reveal_with_fuel(number, 2);
    }
    tests(m8, code, o, Pred::Eq, LType::I8, p.v(7), num(STATE_EMPTY));
    let m9 = m8.step(code, o);
    branches(m9, code, o, p.v(8), p.b(4), p.b(1));
    let m10 = m9.step(code, o);
    if t.state(b) == STATE_EMPTY {
        not_in_table(o, t, k, d);
        let e = match x {
            Some(x) => x,
            None => d,
        };
        assert forall|g: nat| g < e implies !stops(o, t, k, true, #[trigger] t.visited(k.hash, g)) by {
            assert(!stops(o, t, k, false, t.visited(k.hash, g)));
        }
        assert(settles(o, t, k, e));
        probe_settles(code, o, p, m10, first, t, k, p.v(5), x, d);
    } else {
        tests(m10, code, o, Pred::Eq, LType::I8, p.v(7), num(STATE_OCCUPIED));
        let m11 = m10.step(code, o);
        branches(m11, code, o, p.v(10), p.b(2), p.b(5));
        let m12 = m11.step(code, o);
        if t.state(b) != STATE_OCCUPIED {
            settling_advances(code, o, p, m12, first, t, k, d, x);
        } else {
            combines(m12, code, o, BinOp::Mul, LType::I64, p.v(4), num(p.layout.entry_size));
            let m13 = m12.step(code, o);
            moves(m13, code, o, p.table.entries_ptr, p.v(12));
            let m14 = m13.step(code, o);
            loads(m14, code, o, p.ops.key_basic_ty, p.v(13));
            let m15 = m14.step(code, o);
            assert(m15.results[(p.n + 14) as usize] == t.key(o, b));
            assert(arguments(o, m15.results, a2(p.key, p.v(14))) =~= seq![k.key, t.key(o, b)]) by {
                reveal_with_fuel(arguments, 3);
            }
            calls(m15, code, o, Callee::Function(p.ops.eq_fn), a2(p.key, p.v(14)));
            let m16 = m15.step(code, o);
            assert(m16.results[(p.n + 15) as usize] == bit((k.equal)(t.key(o, b))));
            branches(m16, code, o, p.v(15), p.b(3), p.b(5));
            let m17 = m16.step(code, o);
            if holds_key(o, t, k, b) {
                assert(settled_at(code, o, p, first, t, k, m17, d));
                arrives(m17, code, o, goal);
            } else {
                settling_advances(code, o, p, m17, first, t, k, d, x);
            }
        }
    }
}

/// The advance block remembers a removed bucket and takes a probe to the
/// next one, or to its end.
proof fn settling_advances(
    code: Code,
    o: Outside,
    p: Settling,
    m: Machine,
    first: Machine,
    t: Buckets,
    k: KeyWords,
    d: nat,
    x: Option<nat>,
)
    requires
        settling_setting(code, o, p, t, k),
        settling(o, p, m, first, t, k, d, x),
        m.at == p.n + 17,
        !stops(o, t, k, false, t.visited(k.hash, d)),
        m.results[(p.n + 10) as usize] == bit(t.state(t.visited(k.hash, d)) == STATE_OCCUPIED),
    ensures
        m.comes_to(code, o, settled(code, o, p, first, t, k)),
    decreases t.capacity - d, 0nat,
{
    let b = t.visited(k.hash, d);
    let y = if x is None && t.state(b) != STATE_OCCUPIED {
        Some(d)
    } else {
        x
    };
    next_visited(t, k.hash, d);
    if let Some(x) = x {
        visited_is_a_bucket(t, k.hash, x);
    }
    tests(m, code, o, Pred::Eq, LType::I64, p.v(5), num(NO_BUCKET));
    let m18 = m.step(code, o);
    picks(m18, code, o, LType::I64, p.v(17), p.v(4), p.v(5));
    let m19 = m18.step(code, o);
    picks(m19, code, o, LType::I64, p.v(10), p.v(5), p.v(18));
    let m20 = m19.step(code, o);
    assert(m20.results[(p.n + 19) as usize] == spare_word(t, k, y));
    combines(m20, code, o, BinOp::Add, LType::I64, p.v(4), num(1));
    let m21 = m20.step(code, o);
    assert(m21.results[(p.n + 20) as usize] == b + 1);
    combines(m21, code, o, BinOp::And, LType::I64, p.v(20), p.v(1));
    let m22 = m21.step(code, o);
    assert(m22.results[(p.n + 21) as usize] == t.visited(k.hash, d + 1));
    tests(m22, code, o, Pred::Eq, LType::I64, p.v(21), p.v(2));
    let m23 = m22.step(code, o);
    branches(m23, code, o, p.v(22), p.b(4), p.b(0));
    let m24 = m23.step(code, o);
    back_at_start(t, k.hash, d + 1);
    assert(first_spare(o, t, k, d + 1, y));
    if d + 1 == t.capacity {
        settles_at_last(o, t, k, y);
        probe_settles(code, o, p, m24, first, t, k, p.v(19), y, d);
    } else {
        takes(m24, code, o, LType::I64, p.v(21));
        let n5 = m24.step(code, o);
        takes(n5, code, o, LType::I64, p.v(19));
        let n6 = n5.step(code, o);
        settling_round(code, o, p, n6, first, t, k, d + 1, y);
    }
}

/// A probe that has been everywhere has seen a bucket that can take the
/// key.
proof fn settles_at_last(o: Outside, t: Buckets, k: KeyWords, x: Option<nat>)
    requires
        t.capacity > 0,
        first_spare(o, t, k, t.capacity as nat, x),
        exists|b: int| 0 <= b < t.capacity && #[trigger] t.state(b) != STATE_OCCUPIED,
    ensures
        x is Some,
        settles(o, t, k, x->0),
        !holds_key(o, t, k, t.visited(k.hash, x->0)),
{
    not_in_table(o, t, k, t.capacity as nat);
    let b = choose|b: int| 0 <= b < t.capacity && #[trigger] t.state(b) != STATE_OCCUPIED;
    let y = probes_visit_every_bucket(t, k.hash, b);
    assert(t.state(t.visited(k.hash, y)) != STATE_OCCUPIED);
    if let Some(e) = x {
        assert forall|g: nat| g < e implies !stops(o, t, k, true, #[trigger] t.visited(k.hash, g)) by {
            assert(!stops(o, t, k, false, t.visited(k.hash, g)));
        }
    }
}

/// A probe for writing comes to the key, or, where the key is not in the
/// table, to the first bucket on its way that can take it.
pub proof fn write_probe_settles(
    code: Code,
    o: Outside,
    p: Settling,
    m: Machine,
    t: Buckets,
    k: KeyWords,
)
    requires
        p.stands_in(code),
        power_of_two(t.capacity),
        key_calls(o, p.ops, t.memory, k),
        exists|b: int| 0 <= b < t.capacity && #[trigger] t.state(b) != STATE_OCCUPIED,
        p.works_on(o, m, t, k),
        m.at == p.n,
    ensures
        m.comes_to(code, o, settled(code, o, p, m, t, k)),
{
    assert(arguments(o, m.results, a1(p.key)) =~= seq![k.key]) by {
        reveal_with_fuel(arguments, 2);
    }
    calls(m, code, o, Callee::Function(p.ops.hash_fn), a1(p.key));
    let m1 = m.step(code, o);
    mask_is_remainder(k.hash, t.capacity);
    combines(m1, code, o, BinOp::Sub, LType::I64, p.table.capacity, num(1));
    let m2 = m1.step(code, o);
    combines(m2, code, o, BinOp::And, LType::I64, p.v(0), p.v(1));
    let m3 = m2.step(code, o);
    assert(m3.results[(p.n + 2) as usize] == t.visited(k.hash, 0));
    jumps(m3, code, o, p.b(0));
    let m4 = m3.step(code, o);
    takes(m4, code, o, LType::I64, p.v(2));
    let m5 = m4.step(code, o);
    takes(m5, code, o, LType::I64, num(NO_BUCKET));
    let m6 = m5.step(code, o);
    settling_round(code, o, p, m6, m, t, k, 0, None);
}

/// The write-side probe stands where it was recorded.
pub proof fn insert_probe_stands(
    s: Code,
    whole: Code,
    layout: HashtableLayout,
    table: TableSnapshot,
    key: Val,
    ops: KeyHashOps,
)
    requires
        tidy(s),
        s.blocks + 7 <= usize::MAX,
        begins_as(whole, insert_probe_code(s, layout, table, key, ops)),
    ensures
        tidy(insert_probe_code(s, layout, table, key, ops)),
        insert_probe_code(s, layout, table, key, ops).log.len() == s.log.len() + 29,
        forall|i: int|
            0 <= i < s.log.len() + 29 ==> (#[trigger] whole.log[i]).block != s.b(3)
                && whole.log[i].block != s.b(6),
        (Settling {
            n: s.log.len(),
            block: s.blocks,
            from: s.cur,
            layout: layout,
            table: table,
            key: key,
            ops: ops,
        }).stands_in(whole),
{
    let part = insert_probe_code(s, layout, table, key, ops);
    let n = s.log.len();
    let e = s.edges.len() as int;
    beginning_stands(whole, part);
    assert(part.log.len() == n + 29 && part.edges.len() == e + 6);
    assert forall|i: int| 0 <= i < n implies (#[trigger] part.log[i]).block < s.blocks by {
        assert(part.log[i] == s.log[i]);
    }
    assert forall|j: int| 0 <= j < e implies #[trigger] part.edges[j] == s.edges[j] by {}
    assert forall|i: int| 0 <= i < n + 29 implies (#[trigger] whole.log[i]).block != s.b(3)
        && whole.log[i].block != s.b(6) by {
        assert(whole.log[i] == part.log[i]);
        if i < n {
            assert(part.log[i].block < s.blocks);
        }
    }
    seek_finds(whole.log, s.b(0), 0, n + 4);
    seek_finds(whole.log, s.b(1), 0, n + 10);
    seek_finds(whole.log, s.b(2), 0, n + 12);
    seek_finds(whole.log, s.b(5), 0, n + 17);
    seek_finds(whole.log, s.b(4), 0, n + 24);
    incoming_finds(whole.edges, s.v(4), s.cur, e);
    incoming_finds(whole.edges, s.v(5), s.cur, e + 1);
    incoming_finds(whole.edges, s.v(4), s.b(5), e + 2);
    incoming_finds(whole.edges, s.v(5), s.b(5), e + 3);
    incoming_finds(whole.edges, s.v(24), s.b(0), e + 4);
    incoming_finds(whole.edges, s.v(24), s.b(5), e + 5);
}

} // verus!
