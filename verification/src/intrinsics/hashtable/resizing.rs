//! What the load-factor check does to a table, for entries that own no
//! heap.

use vstd::arithmetic::power2::{lemma2_to64_rest, lemma_pow2_unfold, pow2};
use vstd::prelude::*;
use vstd::set_lib::{lemma_int_range, lemma_len_subset, set_int_range};
use crate::intrinsics::hashtable::copying::{
    alike, same_bytes, same_bytes_alike, same_bytes_same_buckets, spares_but,
};
use crate::intrinsics::hashtable::probing::{holds_key, in_table, power_of_two, Buckets, KeyWords};
use crate::intrinsics::hashtable::proper::{alike_proper, proper, rehash_counts, rehash_is_proper};
use crate::intrinsics::hashtable::rehashing::{
    all_moved, came, hash_agrees, key_fns, of_table, rehash_keeps_keys, rehash_moves_all, rehash_stands,
    rehashed, same_entry, set_apart, some_bucket_is_empty, words_of, KeyFns, Rehash,
};
use crate::intrinsics::hashtable::resize::{rehash_code, resize_code};
use crate::intrinsics::hashtable::util::{
    HashtableLayout, KeyHashOps, TableSnapshot, STATE_EMPTY, STATE_OCCUPIED,
};
use crate::intrinsics::hashtable::writing::{entry_address, laid_out};
use crate::llvm::{
    a1, a3, call, iadd, imul, itest, num, BinOp, Callee, Code, Entry, Inst, LType, Pred, Val,
};
use crate::memory::{
    all_taken, allocates, apart, byte, clears, free_call, heap_calls, malloc_call, memset_call,
    none_taken, sound, starved, unless_starved, Memory,
};
use crate::runtime::Rt;
use crate::semantics::{
    arguments, arrives, beginning_stands, begins_as, branches, calls, combines, goes_on, incoming,
    incoming_finds, jumps, multiplies, read, seek, seek_finds, takes, tests, tidy, Machine, Outside,
};

verus! {

/// Every key that can be looked up in one table can be looked up in the
/// other.
pub open spec fn keeps_keys(o: Outside, t: Buckets, w: Buckets, f: KeyFns) -> bool {
    forall|key: int|
        hash_agrees(f, key) && in_table(o, t, words_of(f, key)) ==> #[trigger] in_table(
            o,
            w,
            words_of(f, key),
        )
}

/// The buckets of a table that are occupied.
pub open spec fn occupied(t: Buckets) -> Set<int> {
    Set::new(|b: int| 0 <= b < t.capacity && t.state(b) == STATE_OCCUPIED)
}

/// A table counts its entries: no more buckets are occupied than it says.
pub open spec fn counted(t: Buckets, length: int) -> bool {
    occupied(t).finite() && occupied(t).len() <= length
}

/// Some bucket is not occupied.
pub open spec fn has_room(t: Buckets) -> bool {
    exists|b: int| 0 <= b < t.capacity && #[trigger] t.state(b) != STATE_OCCUPIED
}

/// A table that counts fewer entries than it has buckets has room.
pub proof fn counted_has_room(t: Buckets, length: int)
    requires
        counted(t, length),
        length < t.capacity,
    ensures
        has_room(t),
{
    if !has_room(t) {
        let all = set_int_range(0, t.capacity as int);
        lemma_int_range(0, t.capacity as int);
        assert(all.subset_of(occupied(t)));
        lemma_len_subset(all, occupied(t));
    }
}

/// Tables that are alike answer alike.
pub proof fn alike_answers(o: Outside, t: Buckets, u: Buckets, k: KeyWords)
    requires
        alike(o, t, u),
        0 < t.capacity,
    ensures
        in_table(o, t, k) ==> in_table(o, u, k),
        has_room(t) ==> has_room(u),
{
    if in_table(o, t, k) {
        let d = choose|d: nat|
            holds_key(o, t, k, #[trigger] t.visited(k.hash, d)) && forall|e: nat|
                e <= d ==> t.state(#[trigger] t.visited(k.hash, e)) != STATE_EMPTY;
        assert forall|e: nat| e <= d implies u.state(#[trigger] u.visited(k.hash, e))
            != STATE_EMPTY by {
            vstd::arithmetic::div_mod::lemma_mod_bound(k.hash + e, t.capacity as int);
            assert(u.visited(k.hash, e) == t.visited(k.hash, e));
            assert(u.state(t.visited(k.hash, e)) == t.state(t.visited(k.hash, e)));
        }
        let b = t.visited(k.hash, d);
        vstd::arithmetic::div_mod::lemma_mod_bound(k.hash + d, t.capacity as int);
        assert(u.state(b) == t.state(b) && u.key(o, b) == t.key(o, b));
        assert(holds_key(o, u, k, u.visited(k.hash, d)));
    }
    if has_room(t) {
        let b = choose|b: int| 0 <= b < t.capacity && #[trigger] t.state(b) != STATE_OCCUPIED;
        assert(u.state(b) != STATE_OCCUPIED);
    }
}

/// Tables of the same bytes answer alike.
pub proof fn same_bytes_same_answers(o: Outside, t: Buckets, u: Buckets, k: KeyWords)
    requires
        same_bytes(t, u),
        laid_out(o, t),
        laid_out(o, u),
    ensures
        in_table(o, t, k) ==> in_table(o, u, k),
        has_room(t) ==> has_room(u),
{
    same_bytes_alike(o, t, u);
    alike_answers(o, t, u, k);
}

/// Twice a power of two that leaves a bit is one again.
proof fn twice_is_power(x: u64)
    requires
        power_of_two(x),
        3 * x <= u64::MAX,
    ensures
        power_of_two((2 * x) as u64),
        x > 0,
{
    let k = choose|k: nat| k < 64 && x == #[trigger] pow2(k);
    vstd::arithmetic::power2::lemma_pow2_pos(k);
    lemma2_to64_rest();
    assert(k < 63) by {
        if k >= 63 {
            assert(k == 63);
        }
    }
    lemma_pow2_unfold(k + 1);
    assert((2 * x) as u64 == pow2(k + 1));
}

/// The load-factor check inside a body: the place of its first instruction
/// and block, the block that it begins in, and the table.
pub struct Resizing {
    pub n: nat,
    pub block: nat,
    pub from: usize,
    pub entry_size: u64,
    pub table: TableSnapshot,
    pub ops: KeyHashOps,
}

impl Resizing {
    /// The result of the `k`-th instruction.
    pub open spec fn v(self, k: int) -> Val {
        Val::At((self.n + k) as usize)
    }

    /// The `k`-th block.
    pub open spec fn b(self, k: int) -> usize {
        (self.block + k) as usize
    }

    /// The larger table, as it is made.
    pub open spec fn fresh(self) -> TableSnapshot {
        TableSnapshot {
            entries_ptr: self.v(7),
            states_ptr: self.v(8),
            length: self.table.length,
            capacity: self.v(5),
        }
    }

    /// The rehash loop.
    pub open spec fn rehash(self) -> Rehash {
        Rehash {
            n: self.n + 10,
            block: self.block + 3,
            from: self.b(0),
            entry_size: self.entry_size,
            old_table: self.table,
            new_table: self.fresh(),
            ops: self.ops,
        }
    }

    /// The body holds the check, instruction by instruction.
    pub open spec fn stands_in(self, code: Code) -> bool {
        let is = |k: int, block: usize, inst: Inst|
            code.log[self.n + k] == Entry { block: block, inst: inst };
        &&& self.n + 48 <= code.log.len() <= usize::MAX
        &&& is(0, self.from, iadd(self.table.length, num(1)))
        &&& is(1, self.from, imul(self.v(0), num(4)))
        &&& is(2, self.from, imul(self.table.capacity, num(3)))
        &&& is(3, self.from, itest(Pred::Ugt, self.v(1), self.v(2)))
        &&& is(4, self.from, Inst::CondBr(self.v(3), self.b(0), self.b(1)))
        &&& is(5, self.b(0), imul(self.table.capacity, num(2)))
        &&& is(6, self.b(0), imul(self.v(5), num(self.entry_size)))
        &&& is(7, self.b(0), call(Rt::Malloc, a1(self.v(6))))
        &&& is(8, self.b(0), call(Rt::Malloc, a1(self.v(5))))
        &&& is(9, self.b(0), call(Rt::Memset, a3(self.v(8), num(0), self.v(5))))
        &&& self.rehash().stands_in(code)
        &&& is(40, self.b(10), call(Rt::Free, a1(self.table.entries_ptr)))
        &&& is(41, self.b(10), call(Rt::Free, a1(self.table.states_ptr)))
        &&& is(42, self.b(10), Inst::Br(self.b(2)))
        &&& is(43, self.b(1), Inst::Br(self.b(2)))
        &&& is(44, self.b(2), Inst::Phi(LType::Ptr))
        &&& is(45, self.b(2), Inst::Phi(LType::Ptr))
        &&& is(46, self.b(2), Inst::Phi(LType::I64))
        &&& code.log[self.n as int + 47].block == self.b(2)
        &&& incoming(code.edges, self.v(44), self.b(10)) == Some(self.v(7))
        &&& incoming(code.edges, self.v(44), self.b(1)) == Some(self.table.entries_ptr)
        &&& incoming(code.edges, self.v(45), self.b(10)) == Some(self.v(8))
        &&& incoming(code.edges, self.v(45), self.b(1)) == Some(self.table.states_ptr)
        &&& incoming(code.edges, self.v(46), self.b(10)) == Some(self.v(5))
        &&& incoming(code.edges, self.v(46), self.b(1)) == Some(self.table.capacity)
        &&& seek(code.log, self.b(0), 0) == self.n + 5
        &&& seek(code.log, self.b(1), 0) == self.n + 43
        &&& seek(code.log, self.b(2), 0) == self.n + 44
        &&& seek(code.log, self.b(10), 0) == self.n + 40
    }

    /// An operand is known before the check.
    pub open spec fn known(self, v: Val) -> bool {
        v matches Val::At(k) ==> k < self.n
    }

    /// The operands of the check are the table and its length.
    pub open spec fn works_on(self, o: Outside, m: Machine, t: Buckets, length: int) -> bool {
        let x = self.table;
        &&& self.known(x.entries_ptr) && read(o, m.results, x.entries_ptr) == t.entries
        &&& self.known(x.states_ptr) && read(o, m.results, x.states_ptr) == t.states
        &&& self.known(x.length) && read(o, m.results, x.length) == length
        &&& self.known(x.capacity) && read(o, m.results, x.capacity) == t.capacity
        &&& self.entry_size == t.entry_size
        &&& self.ops.key_basic_ty == t.key_ty
        &&& m.memory == t.memory
        &&& m.returned is None
    }
}

/// A table in buffers of its own: taken, known as blocks, and apart from
/// whatever was taken in `base`.
pub open spec fn own_table(o: Outside, t: Buckets, base: Memory) -> bool {
    &&& laid_out(o, t)
    &&& power_of_two(t.capacity)
    &&& none_taken(base, t.entries as int, t.capacity * t.entry_size)
    &&& none_taken(base, t.states as int, t.capacity as int)
    &&& all_taken(t.memory, t.entries as int, t.capacity * t.entry_size)
    &&& all_taken(t.memory, t.states as int, t.capacity as int)
    &&& t.memory.blocks.contains_pair(t.entries as int, t.capacity * t.entry_size)
    &&& t.memory.blocks.contains_pair(t.states as int, t.capacity as int)
    &&& sound(t.memory)
    &&& sound(base)
}

/// The sizes that the check computes with are words.
pub open spec fn sizes_fit(t: Buckets, length: int) -> bool {
    &&& 0 <= length
    &&& 4 * (length + 1) <= u64::MAX
    &&& 3 * t.capacity <= u64::MAX
    &&& 2 * t.capacity * t.entry_size <= u64::MAX
}

/// The table that the machine goes on with.
pub open spec fn chosen(z: Resizing, l: Machine, t: Buckets) -> Buckets {
    Buckets {
        memory: l.memory,
        entries: l.results[(z.n + 44) as usize] as u64,
        states: l.results[(z.n + 45) as usize] as u64,
        capacity: l.results[(z.n + 46) as usize] as u64,
        ..t
    }
}

/// Every entry of a table is an entry of another.
pub open spec fn entries_come_from(t: Buckets, w: Buckets) -> bool {
    forall|j: int|
        0 <= j < w.capacity && w.state(j) == STATE_OCCUPIED ==> #[trigger] came(
            t,
            w,
            t.capacity as int,
            j,
        )
}

/// The machine goes on with a table that has room and the same keys.
pub open spec fn has_resized(
    o: Outside,
    z: Resizing,
    l: Machine,
    m: Machine,
    t: Buckets,
    f: KeyFns,
    base: Memory,
    counter: int,
) -> bool {
    let w = chosen(z, l, t);
    &&& l.at == z.n + 47
    &&& l.returned is None
    &&& forall|i: usize| i < z.n ==> #[trigger] l.results[i] == m.results[i]
    &&& 0 <= l.results[(z.n + 44) as usize] <= u64::MAX
    &&& 0 <= l.results[(z.n + 45) as usize] <= u64::MAX
    &&& 0 <= l.results[(z.n + 46) as usize] <= u64::MAX
    &&& laid_out(o, w)
    &&& power_of_two(w.capacity)
    &&& none_taken(base, w.entries as int, w.capacity * w.entry_size)
    &&& none_taken(base, w.states as int, w.capacity as int)
    &&& all_taken(l.memory, w.entries as int, w.capacity * w.entry_size)
    &&& all_taken(l.memory, w.states as int, w.capacity as int)
    &&& sound(l.memory)
    &&& spares_but(base, l.memory, counter)
    &&& keeps_keys(o, t, w, f)
    &&& entries_come_from(t, w)
    &&& proper(o, t, f) ==> proper(o, w, f)
    &&& occupied(w).finite() && occupied(w).len() == occupied(t).len()
    &&& l.memory.blocks.contains_pair(w.entries as int, w.capacity * w.entry_size)
    &&& l.memory.blocks.contains_pair(w.states as int, w.capacity as int)
    &&& w.capacity == t.capacity || (w.capacity == 2 * t.capacity && 4 * (read(
        o,
        m.results,
        z.table.length,
    ) + 1) > 3 * t.capacity)
    &&& has_room(w)
}

/// The machine is behind the check, or an allocation has failed.
pub open spec fn resized_state(
    code: Code,
    o: Outside,
    z: Resizing,
    m: Machine,
    t: Buckets,
    f: KeyFns,
    base: Memory,
    counter: int,
) -> spec_fn(Machine) -> bool {
    unless_starved(code, |l: Machine| has_resized(o, z, l, m, t, f, base, counter))
}

/// What holds all through the check.
pub open spec fn resize_setting(
    code: Code,
    o: Outside,
    z: Resizing,
    m: Machine,
    t: Buckets,
    length: int,
    f: KeyFns,
    base: Memory,
    counter: int,
) -> bool {
    &&& z.stands_in(code)
    &&& z.works_on(o, m, t, length)
    &&& own_table(o, t, base)
    &&& sizes_fit(t, length)
    &&& counted(t, length)
    &&& key_fns(o, z.ops, base, counter, f)
    &&& spares_but(base, t.memory, counter)
    &&& heap_calls(o)
}

/// A table that is large enough is kept.
proof fn keeping_runs(
    code: Code,
    o: Outside,
    z: Resizing,
    l: Machine,
    m: Machine,
    t: Buckets,
    length: int,
    f: KeyFns,
    base: Memory,
    counter: int,
)
    requires
        resize_setting(code, o, z, m, t, length, f, base, counter),
        4 * (length + 1) <= 3 * t.capacity,
        l.at == z.n + 43,
        l.returned is None,
        l.memory == m.memory,
        forall|i: usize| i < z.n ==> #[trigger] l.results[i] == m.results[i],
    ensures
        l.comes_to(code, o, resized_state(code, o, z, m, t, f, base, counter)),
{
    jumps(l, code, o, z.b(2));
    let m44 = l.step(code, o);
    takes(m44, code, o, LType::Ptr, z.table.entries_ptr);
    let m45 = m44.step(code, o);
    takes(m45, code, o, LType::Ptr, z.table.states_ptr);
    let m46 = m45.step(code, o);
    takes(m46, code, o, LType::I64, z.table.capacity);
    let m47 = m46.step(code, o);
    counted_has_room(t, length);
    assert(chosen(z, m47, t) == t);
    assert forall|j: int| 0 <= j < t.capacity && t.state(j) == STATE_OCCUPIED implies #[trigger] came(
        t,
        t,
        t.capacity as int,
        j,
    ) by {
        assert(same_entry(t, j, t, j));
    }
    assert(has_resized(o, z, m47, m, t, f, base, counter));
    arrives(m47, code, o, resized_state(code, o, z, m, t, f, base, counter));
}

/// The larger table, in some memory.
spec fn larger(z: Resizing, l: Machine, t: Buckets) -> Buckets {
    Buckets {
        memory: l.memory,
        entries: l.results[(z.n + 7) as usize] as u64,
        states: l.results[(z.n + 8) as usize] as u64,
        capacity: (2 * t.capacity) as u64,
        ..t
    }
}

/// The machine has made an empty larger table.
spec fn has_larger(
    o: Outside,
    z: Resizing,
    l: Machine,
    m: Machine,
    t: Buckets,
    base: Memory,
    counter: int,
) -> bool {
    let u = larger(z, l, t);
    let s = Buckets { memory: l.memory, ..t };
    &&& l.returned is None
    &&& forall|i: usize| i < z.n ==> #[trigger] l.results[i] == m.results[i]
    &&& l.results[(z.n + 5) as usize] == 2 * t.capacity
    &&& 0 < l.results[(z.n + 7) as usize] <= u64::MAX
    &&& 0 < l.results[(z.n + 8) as usize] <= u64::MAX
    &&& set_apart(o, s, u, base)
    &&& same_bytes(t, s)
    &&& all_taken(l.memory, u.entries as int, u.capacity * u.entry_size)
    &&& all_taken(l.memory, u.states as int, u.capacity as int)
    &&& l.memory.blocks.contains_pair(t.entries as int, t.capacity * t.entry_size)
    &&& l.memory.blocks.contains_pair(t.states as int, t.capacity as int)
    &&& l.memory.blocks.contains_pair(u.entries as int, u.capacity * u.entry_size)
    &&& l.memory.blocks.contains_pair(u.states as int, u.capacity as int)
    &&& sound(l.memory)
    &&& spares_but(base, l.memory, counter)
}

/// Giving back the old buffers and going on with the new ones.
proof fn freeing_runs(
    code: Code,
    o: Outside,
    z: Resizing,
    l: Machine,
    g: Machine,
    m: Machine,
    t: Buckets,
    length: int,
    f: KeyFns,
    base: Memory,
    counter: int,
)
    requires
        resize_setting(code, o, z, m, t, length, f, base, counter),
        4 * (length + 1) > 3 * t.capacity,
        has_larger(o, z, g, m, t, base, counter),
        all_moved(
            code,
            o,
            z.rehash(),
            g,
            Buckets { memory: g.memory, ..t },
            larger(z, g, t),
            f,
        )(l),
    ensures
        l.comes_to(code, o, resized_state(code, o, z, m, t, f, base, counter)),
{
    let s = Buckets { memory: g.memory, ..t };
    let u = larger(z, g, t);
    let v = Buckets { memory: l.memory, ..u };
    assert(forall|i: usize| i < z.n ==> #[trigger] l.results[i] == g.results[i]);
    assert(l.results[(z.n + 5) as usize] == g.results[(z.n + 5) as usize]);
    assert(l.results[(z.n + 7) as usize] == g.results[(z.n + 7) as usize]);
    assert(l.results[(z.n + 8) as usize] == g.results[(z.n + 8) as usize]);
    let x = z.table;
    assert(arguments(o, l.results, a1(x.entries_ptr)) =~= seq![t.entries as int]) by {
        reveal_with_fuel(arguments, 2);
        assert(read(o, l.results, x.entries_ptr) == t.entries);
    }
    calls(l, code, o, Callee::Runtime(Rt::Free), a1(x.entries_ptr));
    let m41 = l.step(code, o);
    free_call(o, l.memory, t.entries as int);
    assert(arguments(o, m41.results, a1(x.states_ptr)) =~= seq![t.states as int]) by {
        reveal_with_fuel(arguments, 2);
        assert(read(o, m41.results, x.states_ptr) == t.states);
    }
    calls(m41, code, o, Callee::Runtime(Rt::Free), a1(x.states_ptr));
    let m42 = m41.step(code, o);
    assert(t.capacity * t.entry_size > 0) by (nonlinear_arith)
        requires
            0 < t.capacity,
            0 < t.entry_size,
    ;
    free_call(o, m41.memory, t.states as int);
    let end = m42.memory;
    assert forall|q: int| l.memory.taken.contains(q) && !of_table(s, q) implies end.taken.contains(q)
        && #[trigger] byte(end, q) == byte(l.memory, q) by {
        assert(m41.memory.taken.contains(q));
    }
    let w = Buckets { memory: end, ..u };
    assert(same_bytes(v, w)) by {
        assert forall|i: int| 0 <= i < v.capacity * v.entry_size implies #[trigger] byte(
            w.memory,
            w.entries + i,
        ) == byte(v.memory, v.entries + i) by {
            assert(l.memory.taken.contains(u.entries + i));
            assert(of_table(u, u.entries + i));
        }
        assert forall|i: int| 0 <= i < v.capacity implies #[trigger] byte(w.memory, w.states + i)
            == byte(v.memory, v.states + i) by {
            assert(l.memory.taken.contains(u.states + i));
            assert(of_table(u, u.states + i));
        }
    }
    larger_keeps_keys(o, t, s, v, w, f);
    larger_entries(o, t, s, v, w, f);
    larger_is_proper(o, t, s, v, w, f);
    assert(spares_but(base, end, counter)) by {
        assert forall|q: int| #[trigger] base.taken.contains(q) implies end.taken.contains(q) && (
        counter <= q < counter + 8 || byte(end, q) == byte(base, q)) by {
            assert(g.memory.taken.contains(q));
            assert(!of_table(u, q));
            assert(byte(l.memory, q) == byte(g.memory, q));
            assert(!of_table(s, q));
            assert(byte(end, q) == byte(l.memory, q));
        }
    }
    let r = z.rehash();
    jumps(m42, code, o, z.b(2));
    let m44 = m42.step(code, o);
    takes(m44, code, o, LType::Ptr, z.v(7));
    let m45 = m44.step(code, o);
    takes(m45, code, o, LType::Ptr, z.v(8));
    let m46 = m45.step(code, o);
    takes(m46, code, o, LType::I64, z.v(5));
    let m47 = m46.step(code, o);
    assert(chosen(z, m47, t) == w);
    assert(none_taken(base, w.entries as int, w.capacity * w.entry_size)) by {
        assert forall|q: int| #[trigger] base.taken.contains(q) implies !(w.entries <= q < w.entries
            + w.capacity * w.entry_size) by {
            assert(!of_table(u, q));
        }
    }
    assert(none_taken(base, w.states as int, w.capacity as int)) by {
        assert forall|q: int| #[trigger] base.taken.contains(q) implies !(w.states <= q < w.states
            + w.capacity) by {
            assert(!of_table(u, q));
        }
    }
    assert(all_taken(end, w.entries as int, w.capacity * w.entry_size)) by {
        assert forall|q: int|
            w.entries <= q < w.entries + w.capacity
                * w.entry_size implies #[trigger] end.taken.contains(q) by {
            assert(l.memory.taken.contains(q));
            assert(of_table(u, q));
            assert(byte(end, q) == byte(l.memory, q));
        }
    }
    assert(all_taken(end, w.states as int, w.capacity as int)) by {
        assert forall|q: int| w.states <= q < w.states + w.capacity implies #[trigger] end.taken.contains(
            q,
        ) by {
            assert(l.memory.taken.contains(q));
            assert(of_table(u, q));
            assert(byte(end, q) == byte(l.memory, q));
        }
    }
    assert(u.capacity * u.entry_size > 0) by (nonlinear_arith)
        requires
            0 < u.capacity,
            0 < u.entry_size,
    ;
    assert(of_table(s, t.entries as int) && of_table(s, t.states as int));
    assert(of_table(u, u.entries as int) && of_table(u, u.states as int));
    assert(end.blocks == l.memory.blocks.remove(t.entries as int).remove(t.states as int));
    assert(has_resized(o, z, m47, m, t, f, base, counter));
    arrives(m47, code, o, resized_state(code, o, z, m, t, f, base, counter));
}

/// An entry that was moved between copies of the same bytes.
proof fn entry_carried(
    o: Outside,
    t: Buckets,
    s: Buckets,
    v: Buckets,
    w: Buckets,
    b: int,
    j: int,
)
    requires
        laid_out(o, t),
        laid_out(o, s),
        laid_out(o, v),
        laid_out(o, w),
        same_bytes(t, s),
        same_bytes(v, w),
        v.entry_size == s.entry_size,
        0 <= b < s.capacity,
        0 <= j < v.capacity,
        same_entry(s, b, v, j),
    ensures
        same_entry(t, b, w, j),
{
    entry_address(v, j);
    entry_address(s, b);
    let n = t.entry_size;
    let (to, from) = (j * n, b * n);
    assert forall|x: int| 0 <= x < n implies #[trigger] byte(w.memory, w.entries + j * w.entry_size + x)
        == byte(t.memory, t.entries + b * t.entry_size + x) by {
        assert(byte(w.memory, w.entries + (to + x)) == byte(v.memory, v.entries + (to + x)));
        assert(byte(v.memory, v.entries + j * v.entry_size + x) == byte(
            s.memory,
            s.entries + b * s.entry_size + x,
        ));
        assert(byte(s.memory, s.entries + (from + x)) == byte(t.memory, t.entries + (from + x)));
    }
}

/// The larger table is proper, and counts as many entries.
proof fn larger_is_proper(o: Outside, t: Buckets, s: Buckets, v: Buckets, w: Buckets, f: KeyFns)
    requires
        laid_out(o, t),
        laid_out(o, s),
        laid_out(o, v),
        laid_out(o, w),
        same_bytes(t, s),
        same_bytes(v, w),
        rehashed(o, s, v, f, s.capacity as int),
    ensures
        proper(o, t, f) ==> proper(o, w, f),
        occupied(w).finite(),
        occupied(w).len() == occupied(t).len(),
{
    same_bytes_alike(o, t, s);
    same_bytes_alike(o, v, w);
    rehash_counts(o, s, v, f);
    alike_occupied(o, t, s);
    alike_occupied(o, v, w);
    if proper(o, t, f) {
        alike_proper(o, t, s, f);
        rehash_is_proper(o, s, v, f);
        alike_proper(o, v, w, f);
    }
}

/// Tables that are alike have the same buckets occupied.
pub proof fn alike_occupied(o: Outside, t: Buckets, u: Buckets)
    requires
        alike(o, t, u),
    ensures
        occupied(u) == occupied(t),
{
    assert(occupied(u) =~= occupied(t)) by {
        assert forall|b: int| #[trigger] occupied(u).contains(b) == occupied(t).contains(b) by {
            if 0 <= b < t.capacity {
                assert(u.state(b) == t.state(b));
            }
        }
    }
}

/// The entries of the larger table are those of the one that was moved
/// into it.
proof fn larger_entries(o: Outside, t: Buckets, s: Buckets, v: Buckets, w: Buckets, f: KeyFns)
    requires
        laid_out(o, t),
        laid_out(o, s),
        laid_out(o, v),
        laid_out(o, w),
        same_bytes(t, s),
        same_bytes(v, w),
        rehashed(o, s, v, f, s.capacity as int),
    ensures
        entries_come_from(t, w),
{
    assert forall|j: int| 0 <= j < w.capacity && w.state(j) == STATE_OCCUPIED implies #[trigger] came(
        t,
        w,
        t.capacity as int,
        j,
    ) by {
        same_bytes_same_buckets(o, v, w, j);
        assert(v.state(j) == STATE_OCCUPIED);
        let b = choose|b: int|
            0 <= b < s.capacity && s.state(b) == STATE_OCCUPIED && #[trigger] same_entry(s, b, v, j);
        same_bytes_same_buckets(o, t, s, b);
        entry_carried(o, t, s, v, w, b, j);
        assert(same_entry(t, b, w, j));
    }
}

/// The keys of a table are those of the larger one that it was moved into.
proof fn larger_keeps_keys(o: Outside, t: Buckets, s: Buckets, v: Buckets, w: Buckets, f: KeyFns)
    requires
        laid_out(o, t),
        laid_out(o, s),
        laid_out(o, v),
        laid_out(o, w),
        same_bytes(t, s),
        same_bytes(v, w),
        s.capacity < v.capacity,
        rehashed(o, s, v, f, s.capacity as int),
    ensures
        keeps_keys(o, t, w, f),
        has_room(w),
{
    assert forall|key: int|
        hash_agrees(f, key) && in_table(o, t, words_of(f, key)) implies #[trigger] in_table(
        o,
        w,
        words_of(f, key),
    ) by {
        let k = words_of(f, key);
        same_bytes_same_answers(o, t, s, k);
        rehash_keeps_keys(o, s, v, f, key);
        same_bytes_same_answers(o, v, w, k);
    }
    let b = some_bucket_is_empty(v);
    assert(v.state(b) != STATE_OCCUPIED);
    same_bytes_same_answers(o, v, w, words_of(f, 0));
}

/// A table that is too full is moved into a larger one.
proof fn growing_runs(
    code: Code,
    o: Outside,
    z: Resizing,
    l: Machine,
    m: Machine,
    t: Buckets,
    length: int,
    f: KeyFns,
    base: Memory,
    counter: int,
)
    requires
        resize_setting(code, o, z, m, t, length, f, base, counter),
        4 * (length + 1) > 3 * t.capacity,
        l.at == z.n + 5,
        l.returned is None,
        l.memory == m.memory,
        forall|i: usize| i < z.n ==> #[trigger] l.results[i] == m.results[i],
    ensures
        l.comes_to(code, o, resized_state(code, o, z, m, t, f, base, counter)),
{
    let goal = resized_state(code, o, z, m, t, f, base, counter);
    let cap = 2 * t.capacity;
    let size = cap * t.entry_size;
    twice_is_power(t.capacity);
    assert(read(o, l.results, z.table.capacity) == t.capacity);
    multiplies(l, code, o, z.table.capacity, num(2));
    let m6 = l.step(code, o);
    assert(m6.results[(z.n + 5) as usize] == cap);
    assert(size > 0) by (nonlinear_arith)
        requires
            size == cap * t.entry_size,
            0 < cap,
            0 < t.entry_size,
    ;
    multiplies(m6, code, o, z.v(5), num(z.entry_size));
    let m7 = m6.step(code, o);
    assert(arguments(o, m7.results, a1(z.v(6))) =~= seq![size]) by {
        reveal_with_fuel(arguments, 2);
    }
    calls(m7, code, o, Callee::Runtime(Rt::Malloc), a1(z.v(6)));
    let m8 = m7.step(code, o);
    malloc_call(o, m7.memory, size);
    let e = m8.results[(z.n + 7) as usize];
    if e == 0 {
        assert(starved(code, m8));
        arrives(m8, code, o, goal);
    } else {
        assert(arguments(o, m8.results, a1(z.v(5))) =~= seq![cap]) by {
            reveal_with_fuel(arguments, 2);
        }
        calls(m8, code, o, Callee::Runtime(Rt::Malloc), a1(z.v(5)));
        let m9 = m8.step(code, o);
        malloc_call(o, m8.memory, cap);
        let s = m9.results[(z.n + 8) as usize];
        if s == 0 {
            assert(starved(code, m9));
            arrives(m9, code, o, goal);
        } else {
            assert(arguments(o, m9.results, a3(z.v(8), num(0), z.v(5))) =~= seq![s, 0, cap]) by {
                reveal_with_fuel(arguments, 4);
            }
            calls(m9, code, o, Callee::Runtime(Rt::Memset), a3(z.v(8), num(0), z.v(5)));
            let m10 = m9.step(code, o);
            memset_call(o, m9.memory, s, cap);
            larger_is_made(o, z, m10, m7, m8, m9, m, t, base, counter);
            let r = z.rehash();
            let u = larger(z, m10, t);
            let old_table = Buckets { memory: m10.memory, ..t };
            assert forall|j: int| 0 <= j < u.capacity implies #[trigger] u.state(j) == STATE_EMPTY by {
                assert(byte(m10.memory, s + j) == 0);
            }
            assert(r.works_on(o, m10, old_table, u));
            rehash_moves_all(code, o, r, m10, old_table, u, f, base, counter);
            let half = all_moved(code, o, r, m10, old_table, u, f);
            assert forall|k: Machine| half(k) implies #[trigger] k.comes_to(code, o, goal) by {
                freeing_runs(code, o, z, k, m10, m, t, length, f, base, counter);
            }
            goes_on(m10, code, o, half, goal);
        }
    }
}

/// The two allocations and the clearing make a larger table.
proof fn larger_is_made(
    o: Outside,
    z: Resizing,
    l: Machine,
    m7: Machine,
    m8: Machine,
    m9: Machine,
    m: Machine,
    t: Buckets,
    base: Memory,
    counter: int,
)
    requires
        own_table(o, t, base),
        spares_but(base, t.memory, counter),
        3 * t.capacity <= u64::MAX,
        2 * t.capacity * t.entry_size <= u64::MAX,
        m.memory == t.memory,
        m7.memory == t.memory,
        l.returned is None,
        forall|i: usize| i < z.n ==> #[trigger] l.results[i] == m.results[i],
        l.results[(z.n + 5) as usize] == 2 * t.capacity,
        ({
            let (e, s) = (l.results[(z.n + 7) as usize], l.results[(z.n + 8) as usize]);
            let cap = 2 * t.capacity;
            &&& e != 0 && s != 0
            &&& allocates(m7.memory, cap * t.entry_size, e, m8.memory)
            &&& allocates(m8.memory, cap, s, m9.memory)
            &&& clears(m9.memory, s, cap, l.memory)
        }),
    ensures
        has_larger(o, z, l, m, t, base, counter),
{
    let (e, s) = (l.results[(z.n + 7) as usize], l.results[(z.n + 8) as usize]);
    let cap = 2 * t.capacity;
    let size = cap * t.entry_size;
    twice_is_power(t.capacity);
    assert(size > 0 && t.capacity * t.entry_size > 0) by (nonlinear_arith)
        requires
            size == cap * t.entry_size,
            cap == 2 * t.capacity,
            0 < t.capacity,
            0 < t.entry_size,
    ;
    let u = larger(z, l, t);
    let o_table = Buckets { memory: l.memory, ..t };
    assert(all_taken(m9.memory, e, size)) by {
        assert forall|q: int| e <= q < e + size implies #[trigger] m9.memory.taken.contains(q) by {
            assert(m8.memory.taken.contains(q));
        }
    }
    apart(m8.memory, s, cap, e, size);
    assert forall|q: int| #[trigger] t.memory.taken.contains(q) implies l.memory.taken.contains(q)
        && !of_table(u, q) && byte(l.memory, q) == byte(t.memory, q) by {
        assert(m8.memory.taken.contains(q));
        assert(byte(l.memory, q) == byte(m9.memory, q));
    }
    assert forall|q: int| #[trigger] of_table(o_table, q) implies !of_table(u, q) by {
        assert(t.memory.taken.contains(q));
    }
    assert forall|q: int| #[trigger] base.taken.contains(q) implies !of_table(u, q) && 0 <= q
        <= u64::MAX by {
        assert(t.memory.taken.contains(q));
    }
    assert(same_bytes(t, o_table)) by {
        assert forall|i: int| 0 <= i < t.capacity * t.entry_size implies #[trigger] byte(
            o_table.memory,
            o_table.entries + i,
        ) == byte(t.memory, t.entries + i) by {
            assert(t.memory.taken.contains(t.entries + i));
        }
        assert forall|i: int| 0 <= i < t.capacity implies #[trigger] byte(
            o_table.memory,
            o_table.states + i,
        ) == byte(t.memory, t.states + i) by {
            assert(t.memory.taken.contains(t.states + i));
        }
    }
    assert(t.memory.taken.contains(t.entries as int));
    assert(t.memory.taken.contains(t.states as int));
    assert(spares_but(base, l.memory, counter)) by {
        assert forall|q: int| #[trigger] base.taken.contains(q) implies l.memory.taken.contains(q) && (
        counter <= q < counter + 8 || byte(l.memory, q) == byte(base, q)) by {
            assert(t.memory.taken.contains(q));
        }
    }
}

/// Behind the load-factor check the machine has a table with room for one
/// more entry, in which every key can be looked up that could be before.
pub proof fn resizing_runs(
    code: Code,
    o: Outside,
    z: Resizing,
    m: Machine,
    t: Buckets,
    length: int,
    f: KeyFns,
    base: Memory,
    counter: int,
)
    requires
        resize_setting(code, o, z, m, t, length, f, base, counter),
        m.at == z.n,
    ensures
        m.comes_to(code, o, resized_state(code, o, z, m, t, f, base, counter)),
{
    combines(m, code, o, BinOp::Add, LType::I64, z.table.length, num(1));
    let m1 = m.step(code, o);
    assert(m1.results[z.n as usize] == length + 1);
    multiplies(m1, code, o, z.v(0), num(4));
    let m2 = m1.step(code, o);
    assert(read(o, m2.results, z.table.capacity) == t.capacity);
    multiplies(m2, code, o, z.table.capacity, num(3));
    let m3 = m2.step(code, o);
    tests(m3, code, o, Pred::Ugt, LType::I64, z.v(1), z.v(2));
    let m4 = m3.step(code, o);
    branches(m4, code, o, z.v(3), z.b(0), z.b(1));
    let m5 = m4.step(code, o);
    if 4 * (length + 1) > 3 * t.capacity {
        growing_runs(code, o, z, m5, m, t, length, f, base, counter);
    } else {
        keeping_runs(code, o, z, m5, m, t, length, f, base, counter);
    }
}

/// The check up to the rehash loop.
spec fn resize_front(s: Code, layout: HashtableLayout, table: TableSnapshot) -> Code {
    s.word("need_resize"@).word("no_resize"@).word("after_resize"@)
        .i(iadd(table.length, num(1)))
        .i(imul(s.v(0), num(4)))
        .i(imul(table.capacity, num(3)))
        .i(itest(Pred::Ugt, s.v(1), s.v(2)))
        .i(Inst::CondBr(s.v(3), s.b(0), s.b(1)))
        .at(s.b(0))
        .i(imul(table.capacity, num(2)))
        .i(imul(s.v(5), num(layout.entry_size)))
        .i(call(Rt::Malloc, a1(s.v(6))))
        .i(call(Rt::Malloc, a1(s.v(5))))
        .i(call(Rt::Memset, a3(s.v(8), num(0), s.v(5))))
}

/// The check behind the rehash loop.
spec fn resize_back(s: Code, r: Code, table: TableSnapshot) -> Code {
    r.i(call(Rt::Free, a1(table.entries_ptr)))
        .i(call(Rt::Free, a1(table.states_ptr)))
        .i(Inst::Br(s.b(2)))
        .at(s.b(1))
        .i(Inst::Br(s.b(2)))
        .at(s.b(2))
        .i(Inst::Phi(LType::Ptr))
        .edge(r.v(4), s.v(7), r.cur)
        .edge(r.v(4), table.entries_ptr, s.b(1))
        .i(Inst::Phi(LType::Ptr))
        .edge(r.v(5), s.v(8), r.cur)
        .edge(r.v(5), table.states_ptr, s.b(1))
        .i(Inst::Phi(LType::I64))
        .edge(r.v(6), s.v(5), r.cur)
        .edge(r.v(6), table.capacity, s.b(1))
}

/// The front of the check stands where it was recorded.
proof fn front_stands(s: Code, whole: Code, layout: HashtableLayout, table: TableSnapshot)
    requires
        tidy(s),
        s.blocks + 3 <= usize::MAX,
        begins_as(whole, resize_front(s, layout, table)),
    ensures
        tidy(resize_front(s, layout, table)),
        resize_front(s, layout, table).log.len() == s.log.len() + 10,
        resize_front(s, layout, table).edges == s.edges,
        forall|i: int|
            0 <= i < s.log.len() + 10 ==> #[trigger] whole.log[i] == resize_front(
                s,
                layout,
                table,
            ).log[i],
        seek(whole.log, s.b(0), 0) == s.log.len() + 5,
{
    let part = resize_front(s, layout, table);
    beginning_stands(whole, part);
    assert forall|i: int| 0 <= i < s.log.len() implies (#[trigger] part.log[i]).block < s.blocks by {
        assert(part.log[i] == s.log[i]);
    }
    seek_finds(whole.log, s.b(0), 0, s.log.len() + 5);
}

/// The load-factor check stands where it was recorded.
#[verifier::rlimit(50)]
pub proof fn resizing_stands(
    s: Code,
    whole: Code,
    layout: HashtableLayout,
    table: TableSnapshot,
    ops: KeyHashOps,
)
    requires
        tidy(s),
        s.blocks + 11 <= usize::MAX,
        begins_as(whole, resize_code(s, layout, table, ops)),
        whole.log.len() > s.log.len() + 47,
        whole.log[s.log.len() as int + 47].block == s.b(2),
    ensures
        tidy(resize_code(s, layout, table, ops)),
        resize_code(s, layout, table, ops).log.len() == s.log.len() + 47,
        resize_code(s, layout, table, ops).blocks == s.blocks + 11,
        resize_code(s, layout, table, ops).cur == s.b(2),
        (Resizing {
            n: s.log.len(),
            block: s.blocks,
            from: s.cur,
            entry_size: layout.entry_size,
            table: table,
            ops: ops,
        }).stands_in(whole),
{
    let n = s.log.len();
    let e = s.edges.len() as int;
    let z = Resizing {
        n: n,
        block: s.blocks,
        from: s.cur,
        entry_size: layout.entry_size,
        table: table,
        ops: ops,
    };
    let g = resize_front(s, layout, table);
    let r = rehash_code(g, layout, table, z.fresh(), ops);
    let part = resize_code(s, layout, table, ops);
    assert(part == resize_back(s, r, table));
    beginning_stands(whole, part);
    assert(r.log.len() == g.log.len() + 30 && r.edges.len() == e + 4);
    assert(g.log.len() == n + 10);
    assert(begins_as(whole, r)) by {
        assert(r.log =~= whole.log.subrange(0, r.log.len() as int)) by {
            assert forall|i: int| 0 <= i < r.log.len() implies r.log[i] == whole.log[i] by {
                assert(part.log[i] == r.log[i]);
            }
        }
        assert(r.edges =~= whole.edges.subrange(0, r.edges.len() as int)) by {
            assert forall|j: int| 0 <= j < r.edges.len() implies r.edges[j] == whole.edges[j] by {
                assert(part.edges[j] == r.edges[j]);
            }
        }
    }
    beginning_stands(whole, r);
    assert(begins_as(whole, g)) by {
        assert(g.log =~= whole.log.subrange(0, g.log.len() as int)) by {
            assert forall|i: int| 0 <= i < g.log.len() implies g.log[i] == whole.log[i] by {
                assert(r.log[i] == g.log[i]);
            }
        }
        assert(g.edges =~= whole.edges.subrange(0, g.edges.len() as int)) by {
            assert forall|j: int| 0 <= j < g.edges.len() implies g.edges[j] == whole.edges[j] by {
                assert(r.edges[j] == g.edges[j]);
            }
        }
    }
    front_stands(s, whole, layout, table);
    rehash_stands(g, whole, layout, table, z.fresh(), ops);
    back_stands(s, r, whole, table);
    assert(z.rehash().stands_in(whole));
}

/// The back of the check stands where it was recorded.
proof fn back_stands(s: Code, r: Code, whole: Code, table: TableSnapshot)
    requires
        tidy(s),
        tidy(r),
        s.blocks + 11 <= usize::MAX,
        r.blocks == s.blocks + 11,
        r.cur == s.b(10),
        r.log.len() == s.log.len() + 40,
        forall|i: int| 0 <= i < r.log.len() ==> (#[trigger] r.log[i]).block != s.b(1),
        forall|i: int| 0 <= i < r.log.len() ==> (#[trigger] r.log[i]).block != s.b(2),
        forall|i: int| 0 <= i < r.log.len() ==> (#[trigger] r.log[i]).block != s.b(10),
        begins_as(whole, resize_back(s, r, table)),
    ensures
        ({
            let n = s.log.len() as int;
            let part = resize_back(s, r, table);
            &&& tidy(part)
            &&& part.log.len() == n + 47
            &&& part.blocks == s.blocks + 11
            &&& part.cur == s.b(2)
            &&& forall|i: int| n + 40 <= i < n + 47 ==> #[trigger] whole.log[i] == part.log[i]
            &&& incoming(whole.edges, s.v(44), s.b(10)) == Some(s.v(7))
            &&& incoming(whole.edges, s.v(44), s.b(1)) == Some(table.entries_ptr)
            &&& incoming(whole.edges, s.v(45), s.b(10)) == Some(s.v(8))
            &&& incoming(whole.edges, s.v(45), s.b(1)) == Some(table.states_ptr)
            &&& incoming(whole.edges, s.v(46), s.b(10)) == Some(s.v(5))
            &&& incoming(whole.edges, s.v(46), s.b(1)) == Some(table.capacity)
            &&& seek(whole.log, s.b(1), 0) == n + 43
            &&& seek(whole.log, s.b(2), 0) == n + 44
            &&& seek(whole.log, s.b(10), 0) == n + 40
        }),
{
    let n = s.log.len();
    let part = resize_back(s, r, table);
    let e = r.edges.len() as int;
    beginning_stands(whole, part);
    assert forall|i: int| 0 <= i < r.log.len() implies #[trigger] part.log[i] == r.log[i] by {}
    assert forall|j: int| 0 <= j < e implies #[trigger] part.edges[j] == r.edges[j] by {}
    assert(part.log.len() == n + 47 && part.edges.len() == e + 6);
    seek_finds(whole.log, s.b(10), 0, n + 40);
    seek_finds(whole.log, s.b(1), 0, n + 43);
    seek_finds(whole.log, s.b(2), 0, n + 44);
    incoming_finds(whole.edges, s.v(44), s.b(10), e);
    incoming_finds(whole.edges, s.v(44), s.b(1), e + 1);
    incoming_finds(whole.edges, s.v(45), s.b(10), e + 2);
    incoming_finds(whole.edges, s.v(45), s.b(1), e + 3);
    incoming_finds(whole.edges, s.v(46), s.b(10), e + 4);
    incoming_finds(whole.edges, s.v(46), s.b(1), e + 5);
}

} // verus!
