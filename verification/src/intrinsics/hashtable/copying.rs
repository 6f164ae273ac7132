//! What copying the buffers of a table does.

use vstd::prelude::*;
use crate::ctx::{EmitContext, GlueKind};
use crate::emit::heap_layout::heap_leaf;
use crate::intrinsics::acquiring::{
    acquire_in_slot_runs, acquires, behind, clones, grows_but, keeps_word, news_stay, stands_at,
};
use crate::intrinsics::element::{acquire_in_slot_code, Walk};
use crate::intrinsics::hashtable::probing::Buckets;
use crate::intrinsics::hashtable::rehashing::of_table;
use crate::intrinsics::hashtable::util::{
    copy_buffers_code, entry_pointer_code, occupied_begin, occupied_end, HashtableLayout,
    TableSnapshot, STATE_OCCUPIED,
};
use crate::intrinsics::hashtable::writing::{
    entries_apart, entry_address, laid_out, stored_elsewhere, value_in,
};
use crate::intrinsics::list_values::log_begins_further;
use crate::ir::IRType;
use crate::llvm::{
    a1, a3, call, gep, iadd, imul, itest, itest8, num, BinOp, Callee, Code, Entry, Inst, LType,
    Pred, Val,
};
use crate::memory::{
    address_in_range, all_taken, apart, byte, byte_limit_is_power, heap_calls, in_memory,
    malloc_call, memcpy_call, none_taken, number, number_of_bytes, sound, starved,
    store_is_read_back, stored, unless_starved, Memory,
};
use crate::runtime::Rt;
use crate::semantics::{
    arguments, arrives, beginning_stands, begins_as, begins_further, branches, byte_count, calls,
    combines, jumps, loads, moves, multiplies, read, seek, seek_finds, stores, tests, tidy, Machine,
    Outside,
};
use crate::types::value_type;

verus! {

/// The copy of a table's buffers inside a body: the place of its first
/// instruction and block, the block that it begins in, its counter, and
/// what it copies.
pub struct Copying {
    pub n: nat,
    pub block: nat,
    pub from: usize,
    pub slot: usize,
    pub src: TableSnapshot,
    pub entry_size: u64,
    /// How many instructions acquire an entry.
    pub body: nat,
}

impl Copying {
    /// The result of the `k`-th instruction.
    pub open spec fn v(self, k: int) -> Val {
        Val::At((self.n + k) as usize)
    }

    /// The `k`-th block.
    pub open spec fn b(self, k: int) -> usize {
        (self.block + k) as usize
    }

    /// The body holds the copy, instruction by instruction.
    pub open spec fn stands_in(self, code: Code) -> bool {
        let is = |k: int, block: usize, inst: Inst|
            code.log[self.n + k] == Entry { block: block, inst: inst };
        let m = self.body as int;
        let counter = Val::Slot(self.slot);
        &&& self.n + 20 + m <= code.log.len() <= usize::MAX
        &&& is(0, self.from, imul(self.src.capacity, num(self.entry_size)))
        &&& is(1, self.from, call(Rt::Malloc, a1(self.v(0))))
        &&& is(2, self.from, call(Rt::Malloc, a1(self.src.capacity)))
        &&& is(3, self.from, call(Rt::Memcpy, a3(self.v(1), self.src.entries_ptr, self.v(0))))
        &&& is(4, self.from, call(Rt::Memcpy, a3(self.v(2), self.src.states_ptr, self.src.capacity)))
        &&& is(5, self.from, Inst::Store(LType::I64, num(0), counter))
        &&& is(6, self.from, Inst::Br(self.b(0)))
        &&& is(7, self.b(0), Inst::Load(LType::I64, counter))
        &&& is(8, self.b(0), itest(Pred::Ult, self.v(7), self.src.capacity))
        &&& is(9, self.b(0), Inst::CondBr(self.v(8), self.b(1), self.b(4)))
        &&& is(10, self.b(1), gep(self.v(2), self.v(7)))
        &&& is(11, self.b(1), Inst::Load(LType::I8, self.v(10)))
        &&& is(12, self.b(1), itest8(Pred::Eq, self.v(11), num(STATE_OCCUPIED)))
        &&& is(13, self.b(1), Inst::CondBr(self.v(12), self.b(2), self.b(3)))
        &&& is(14, self.b(2), imul(self.v(7), num(self.entry_size)))
        &&& is(15, self.b(2), gep(self.v(1), self.v(14)))
        &&& is(16 + m, self.b(2), Inst::Br(self.b(3)))
        &&& is(17 + m, self.b(3), iadd(self.v(7), num(1)))
        &&& is(18 + m, self.b(3), Inst::Store(LType::I64, self.v(17 + m), counter))
        &&& is(19 + m, self.b(3), Inst::Br(self.b(0)))
        &&& seek(code.log, self.b(0), 0) == self.n + 7
        &&& seek(code.log, self.b(1), 0) == self.n + 10
        &&& seek(code.log, self.b(2), 0) == self.n + 14
        &&& seek(code.log, self.b(3), 0) == self.n + 17 + m
    }

    /// An operand is known before the copy.
    pub open spec fn known(self, v: Val) -> bool {
        v matches Val::At(k) ==> k < self.n
    }

    /// The address of the counter.
    pub open spec fn counter(self, o: Outside) -> int {
        (o.values)(Val::Slot(self.slot))
    }

    /// The operands of the copy are the table.
    pub open spec fn works_on(self, o: Outside, m: Machine, t: Buckets) -> bool {
        &&& self.known(self.src.entries_ptr)
        &&& self.known(self.src.states_ptr)
        &&& self.known(self.src.capacity)
        &&& read(o, m.results, self.src.entries_ptr) == t.entries
        &&& read(o, m.results, self.src.states_ptr) == t.states
        &&& read(o, m.results, self.src.capacity) == t.capacity
        &&& self.entry_size == t.entry_size
        &&& m.memory == t.memory
        &&& m.returned is None
    }
}

/// The buffers of a table and a counter are taken and lie apart.
pub open spec fn owned(o: Outside, t: Buckets, counter: int) -> bool {
    &&& all_taken(t.memory, t.entries as int, t.capacity * t.entry_size)
    &&& all_taken(t.memory, t.states as int, t.capacity as int)
    &&& all_taken(t.memory, counter, 8)
    &&& in_memory(counter, 8)
    &&& counter + 8 <= t.entries || t.entries + t.capacity * t.entry_size <= counter
    &&& counter + 8 <= t.states || t.states + t.capacity <= counter
    &&& sound(t.memory)
}

/// Two memories that agree on what was taken, but for a counter.
pub open spec fn spares_but(before: Memory, after: Memory, counter: int) -> bool {
    forall|q: int| #[trigger]
        before.taken.contains(q) ==> after.taken.contains(q) && (counter <= q < counter + 8 || byte(
            after,
            q,
        ) == byte(before, q))
}

/// Two tables with the same entries and states, byte by byte.
pub open spec fn same_bytes(t: Buckets, u: Buckets) -> bool {
    &&& u.capacity == t.capacity
    &&& u.entry_size == t.entry_size
    &&& u.key_ty == t.key_ty
    &&& forall|i: int|
        0 <= i < t.capacity * t.entry_size ==> #[trigger] byte(u.memory, u.entries + i) == byte(
            t.memory,
            t.entries + i,
        )
    &&& forall|i: int|
        0 <= i < t.capacity ==> #[trigger] byte(u.memory, u.states + i) == byte(
            t.memory,
            t.states + i,
        )
}

/// Tables of the same bytes have the same buckets.
pub proof fn same_bytes_same_buckets(o: Outside, t: Buckets, u: Buckets, b: int)
    requires
        same_bytes(t, u),
        laid_out(o, t),
        laid_out(o, u),
        0 <= b < t.capacity,
    ensures
        u.state(b) == t.state(b),
        u.key(o, b) == t.key(o, b),
{
    assert(byte(u.memory, u.states + b) == byte(t.memory, t.states + b));
    entry_address(t, b);
    entry_address(u, b);
    let n = byte_count(o, t.key_ty);
    let (p, q) = (u.entries + b * u.entry_size, t.entries + b * t.entry_size);
    assert forall|j: int| 0 <= j < n implies #[trigger] byte(u.memory, p + j) == byte(
        t.memory,
        q + j,
    ) by {
        let i = b * t.entry_size + j;
        assert(byte(u.memory, u.entries + i) == byte(t.memory, t.entries + i));
    }
    number_of_bytes(u.memory, p, t.memory, q, n);
}

/// Two tables whose buckets have the same states and the same keys.
pub open spec fn alike(o: Outside, t: Buckets, u: Buckets) -> bool {
    &&& u.capacity == t.capacity
    &&& u.entry_size == t.entry_size
    &&& u.key_ty == t.key_ty
    &&& forall|b: int| 0 <= b < t.capacity ==> #[trigger] u.state(b) == t.state(b)
    &&& forall|b: int| 0 <= b < t.capacity ==> #[trigger] u.key(o, b) == t.key(o, b)
}

/// Tables of the same bytes are alike.
pub proof fn same_bytes_alike(o: Outside, t: Buckets, u: Buckets)
    requires
        same_bytes(t, u),
        laid_out(o, t),
        laid_out(o, u),
    ensures
        alike(o, t, u),
{
    assert forall|b: int| 0 <= b < t.capacity implies #[trigger] u.state(b) == t.state(b) by {
        same_bytes_same_buckets(o, t, u, b);
    }
    assert forall|b: int| 0 <= b < t.capacity implies #[trigger] u.key(o, b) == t.key(o, b) by {
        same_bytes_same_buckets(o, t, u, b);
    }
}

/// The table that a copy has made, in some memory.
pub open spec fn made(c: Copying, l: Machine, t: Buckets) -> Buckets {
    Buckets {
        memory: l.memory,
        entries: l.results[(c.n + 1) as usize] as u64,
        states: l.results[(c.n + 2) as usize] as u64,
        ..t
    }
}

/// The machine holds a copy of a table in buffers of its own.
pub open spec fn holds_copy(o: Outside, c: Copying, l: Machine, m: Machine, t: Buckets) -> bool {
    let u = made(c, l, t);
    &&& l.returned is None
    &&& 0 < l.results[(c.n + 1) as usize] <= u64::MAX
    &&& 0 < l.results[(c.n + 2) as usize] <= u64::MAX
    &&& laid_out(o, u)
    &&& alike(o, t, u)
    &&& none_taken(m.memory, u.entries as int, t.capacity * t.entry_size)
    &&& none_taken(m.memory, u.states as int, t.capacity as int)
    &&& all_taken(l.memory, u.entries as int, t.capacity * t.entry_size)
    &&& all_taken(l.memory, u.states as int, t.capacity as int)
    &&& l.memory.blocks.contains_pair(u.entries as int, t.capacity * t.entry_size)
    &&& l.memory.blocks.contains_pair(u.states as int, t.capacity as int)
    &&& sound(l.memory)
    &&& spares_but(m.memory, l.memory, c.counter(o))
    &&& forall|i: usize| i < c.n ==> #[trigger] l.results[i] == m.results[i]
}

/// `y` is an independent copy of `x`: it was made by acquiring `x` in a
/// memory that had whatever was taken before, unchanged but for a counter,
/// and whatever was taken for it is in `after` as it was made.
pub open spec fn copied_value(
    c: &EmitContext,
    o: Outside,
    element: IRType,
    counter: int,
    before: Memory,
    x: int,
    after: Memory,
    y: int,
) -> bool {
    exists|m: Memory, n: Memory| #[trigger]
        clones(c, o, element, m, x, n, y) && spares_but(before, m, counter) && news_stay(m, n, after)
}

/// Which words are independent copies of which values of a table.
pub open spec fn copies_in(
    c: &EmitContext,
    o: Outside,
    layout: HashtableLayout,
    counter: int,
    before: Memory,
    after: Memory,
) -> spec_fn(int, int) -> bool {
    |x: int, y: int|
        layout.value_ty matches Some(ty) ==> copied_value(c, o, ty, counter, before, x, after, y)
}

/// The same of words for which whatever was taken is in `base`, off the
/// counter.
pub open spec fn value_made(
    c: &EmitContext,
    o: Outside,
    element: IRType,
    counter: int,
    before: Memory,
    x: int,
    base: Memory,
    y: int,
) -> bool {
    exists|m: Memory, n: Memory| #[trigger]
        clones(c, o, element, m, x, n, y) && spares_but(before, m, counter) && news_stay(m, n, base)
            && news_off(m, n, counter)
}

/// What is newly taken does not meet a counter.
pub open spec fn news_off(m: Memory, n: Memory, counter: int) -> bool {
    forall|q: int| #[trigger]
        n.taken.contains(q) && !m.taken.contains(q) ==> !(counter <= q < counter + 8)
}

/// Which words were made of which values of a table.
pub open spec fn made_in(
    c: &EmitContext,
    o: Outside,
    layout: HashtableLayout,
    counter: int,
    before: Memory,
    base: Memory,
) -> spec_fn(int, int) -> bool {
    |x: int, y: int|
        layout.value_ty matches Some(ty) ==> value_made(c, o, ty, counter, before, x, base, y)
}

/// A word that was made of a value is a copy of it as long as the memory is
/// spared that it was made in.
pub proof fn made_are_copies(
    c: &EmitContext,
    o: Outside,
    layout: HashtableLayout,
    counter: int,
    before: Memory,
    base: Memory,
    after: Memory,
)
    requires
        spares_but(base, after, counter),
    ensures
        forall|x: int, y: int| #[trigger]
            made_in(c, o, layout, counter, before, base)(x, y) ==> copies_in(
                c,
                o,
                layout,
                counter,
                before,
                after,
            )(x, y),
{
    assert forall|x: int, y: int| #[trigger]
        made_in(c, o, layout, counter, before, base)(x, y) implies copies_in(
        c,
        o,
        layout,
        counter,
        before,
        after,
    )(x, y) by {
        if let Some(ty) = layout.value_ty {
            let (m, n) = choose|m: Memory, n: Memory| #[trigger]
                clones(c, o, ty, m, x, n, y) && spares_but(before, m, counter) && news_stay(m, n, base)
                    && news_off(m, n, counter);
            assert(news_stay(m, n, after)) by {
                assert forall|q: int| #[trigger]
                    n.taken.contains(q) && !m.taken.contains(q) implies after.taken.contains(q)
                    && byte(after, q) == byte(n, q) by {
                    assert(base.taken.contains(q));
                }
            }
            assert(clones(c, o, ty, m, x, n, y));
        }
    }
}

/// Memory has changed at most in a table and a counter.
pub open spec fn keeps_off(own: Buckets, counter: int, before: Memory, after: Memory) -> bool {
    forall|q: int| #[trigger]
        before.taken.contains(q) && !of_table(own, q) && !(counter <= q < counter + 8)
            ==> after.taken.contains(q) && byte(after, q) == byte(before, q)
}

/// What is newly taken does not meet a table.
pub open spec fn news_off_table(m: Memory, n: Memory, own: Buckets) -> bool {
    forall|q: int| #[trigger] n.taken.contains(q) && !m.taken.contains(q) ==> !of_table(own, q)
}

/// `y` was made by acquiring `x`, and since then at most a table and a
/// counter have changed, which what was taken for `y` does not meet.
spec fn made_beside(
    c: &EmitContext,
    o: Outside,
    element: IRType,
    own: Buckets,
    counter: int,
    before: Memory,
    x: int,
    after: Memory,
    y: int,
) -> bool {
    exists|m: Memory, n: Memory| #[trigger]
        clones(c, o, element, m, x, n, y) && spares_but(before, m, counter) && news_off(m, n, counter)
            && news_off_table(m, n, own) && keeps_off(own, counter, n, after)
}

/// Which words were made of which values beside a table.
spec fn beside(
    c: &EmitContext,
    o: Outside,
    layout: HashtableLayout,
    own: Buckets,
    counter: int,
    before: Memory,
    after: Memory,
) -> spec_fn(int, int) -> bool {
    |x: int, y: int|
        layout.value_ty matches Some(ty) ==> made_beside(
            c,
            o,
            ty,
            own,
            counter,
            before,
            x,
            after,
            y,
        )
}

/// What was made beside a table is there later.
proof fn beside_later(
    c: &EmitContext,
    o: Outside,
    layout: HashtableLayout,
    own: Buckets,
    counter: int,
    before: Memory,
    after: Memory,
    later: Memory,
)
    requires
        keeps_off(own, counter, after, later),
    ensures
        forall|x: int, y: int| #[trigger]
            beside(c, o, layout, own, counter, before, after)(x, y) ==> beside(
                c,
                o,
                layout,
                own,
                counter,
                before,
                later,
            )(x, y),
{
    assert forall|x: int, y: int| #[trigger]
        beside(c, o, layout, own, counter, before, after)(x, y) implies beside(
        c,
        o,
        layout,
        own,
        counter,
        before,
        later,
    )(x, y) by {
        if let Some(ty) = layout.value_ty {
            let (m, n) = choose|m: Memory, n: Memory| #[trigger]
                clones(c, o, ty, m, x, n, y) && spares_but(before, m, counter) && news_off(
                    m,
                    n,
                    counter,
                ) && news_off_table(m, n, own) && keeps_off(own, counter, n, after);
            assert(keeps_off(own, counter, n, later)) by {
                assert forall|q: int| #[trigger]
                    n.taken.contains(q) && !of_table(own, q) && !(counter <= q < counter
                        + 8) implies later.taken.contains(q) && byte(later, q) == byte(n, q) by {
                    assert(after.taken.contains(q));
                }
            }
            assert(clones(c, o, ty, m, x, n, y));
        }
    }
}

/// The memory of a table without the table.
pub open spec fn off_table(u: Buckets) -> Memory {
    Memory { taken: u.memory.taken.filter(|q: int| !of_table(u, q)), ..u.memory }
}

/// What was made beside a table was made in the memory without it.
proof fn beside_is_made(
    c: &EmitContext,
    o: Outside,
    layout: HashtableLayout,
    own: Buckets,
    counter: int,
    before: Memory,
    u: Buckets,
)
    requires
        forall|q: int| #[trigger] of_table(own, q) == of_table(u, q),
    ensures
        forall|x: int, y: int| #[trigger]
            beside(c, o, layout, own, counter, before, u.memory)(x, y) ==> made_in(
                c,
                o,
                layout,
                counter,
                before,
                off_table(u),
            )(x, y),
{
    assert forall|x: int, y: int| #[trigger]
        beside(c, o, layout, own, counter, before, u.memory)(x, y) implies made_in(
        c,
        o,
        layout,
        counter,
        before,
        off_table(u),
    )(x, y) by {
        if let Some(ty) = layout.value_ty {
            let (m, n) = choose|m: Memory, n: Memory| #[trigger]
                clones(c, o, ty, m, x, n, y) && spares_but(before, m, counter) && news_off(
                    m,
                    n,
                    counter,
                ) && news_off_table(m, n, own) && keeps_off(own, counter, n, u.memory);
            assert(news_stay(m, n, off_table(u))) by {
                assert forall|q: int| #[trigger]
                    n.taken.contains(q) && !m.taken.contains(q) implies off_table(u).taken.contains(q)
                    && byte(off_table(u), q) == byte(n, q) by {
                    assert(!of_table(own, q));
                    assert(u.memory.taken.contains(q));
                }
            }
            assert(clones(c, o, ty, m, x, n, y));
        }
    }
}

/// The buffers that a copy has made, wherever memory stands.
spec fn own_buffers(c: Copying, l: Machine, t: Buckets) -> Buckets {
    Buckets { memory: t.memory, ..made(c, l, t) }
}

/// The machine is behind a copy, or an allocation has failed.
pub open spec fn copy_made(
    ctx: &EmitContext,
    code: Code,
    o: Outside,
    c: Copying,
    layout: HashtableLayout,
    m: Machine,
    t: Buckets,
) -> spec_fn(Machine) -> bool {
    unless_starved(
        code,
        |l: Machine|
            {
                &&& l.at == seek(code.log, c.b(4), 0)
                &&& holds_copy(o, c, l, m, t)
                &&& values_copied(
                    o,
                    layout,
                    made_in(ctx, o, layout, c.counter(o), t.memory, off_table(made(c, l, t))),
                    t,
                    made(c, l, t),
                    t.capacity as int,
                )
            },
    )
}

/// The value of a bucket of a copied map is a copy, or not acquired yet.
pub open spec fn value_copied(
    o: Outside,
    layout: HashtableLayout,
    copies: spec_fn(int, int) -> bool,
    t: Buckets,
    u: Buckets,
    i: int,
    b: int,
) -> bool {
    layout.value_ty matches Some(value_ty) ==> {
        let x = value_in(o, t, layout, value_type(value_ty), b);
        let y = value_in(o, u, layout, value_type(value_ty), b);
        if b < i {
            copies(x, y)
        } else {
            y == x
        }
    }
}

/// The values of a copied map: those of the first `i` buckets are acquired.
pub open spec fn values_copied(
    o: Outside,
    layout: HashtableLayout,
    copies: spec_fn(int, int) -> bool,
    t: Buckets,
    u: Buckets,
    i: int,
) -> bool {
    forall|b: int|
        0 <= b < t.capacity && t.state(b) == STATE_OCCUPIED ==> #[trigger] value_copied(
            o,
            layout,
            copies,
            t,
            u,
            i,
            b,
        )
}

/// The values of a copy stay while its entries do, but for bucket `b`.
proof fn values_stay(
    o: Outside,
    layout: HashtableLayout,
    copies: spec_fn(int, int) -> bool,
    later: spec_fn(int, int) -> bool,
    t: Buckets,
    u: Buckets,
    v: Buckets,
    b: int,
    i: int,
    j: int,
)
    requires
        values_copied(o, layout, copies, t, u, i),
        forall|x: int, y: int| #[trigger] copies(x, y) ==> later(x, y),
        laid_out(o, u),
        v == (Buckets { memory: v.memory, ..u }),
        u.capacity == t.capacity,
        layout.entry_size == u.entry_size,
        layout.value_ty matches Some(ty) ==> layout.key_size + byte_count(o, value_type(ty))
            <= layout.entry_size,
        forall|x: int|
            0 <= x < u.capacity && x != b ==> #[trigger] entry_kept(u, v, x),
        i == j || (j == i + 1 && b == i) || (j == i + 1 && t.state(i) != STATE_OCCUPIED),
        0 <= b < u.capacity && t.state(b) == STATE_OCCUPIED ==> b == i && j == i + 1 && value_copied(
            o,
            layout,
            later,
            t,
            v,
            j,
            b,
        ),
    ensures
        values_copied(o, layout, later, t, v, j),
{
    if let Some(value_ty) = layout.value_ty {
        let ty = value_type(value_ty);
        assert forall|x: int| 0 <= x < t.capacity && t.state(x) == STATE_OCCUPIED implies #[trigger] value_copied(
            o,
            layout,
            later,
            t,
            v,
            j,
            x,
        ) by {
            assert(value_copied(o, layout, copies, t, u, i, x));
            if x != b {
                entry_address(u, x);
                assert(entry_kept(u, v, x));
                let p = u.entries + x * u.entry_size;
                assert forall|y: int| 0 <= y < byte_count(o, ty) implies #[trigger] byte(
                    v.memory,
                    p + layout.key_size + y,
                ) == byte(u.memory, p + layout.key_size + y) by {
                    assert(byte(v.memory, p + (layout.key_size + y)) == byte(
                        u.memory,
                        p + (layout.key_size + y),
                    ));
                }
                number_of_bytes(
                    v.memory,
                    p + layout.key_size,
                    u.memory,
                    p + layout.key_size,
                    byte_count(o, ty),
                );
                assert(value_in(o, v, layout, ty, x) == value_in(o, u, layout, ty, x));
            }
        }
    }
}

/// The bytes of an entry are as they were.
pub open spec fn entry_kept(u: Buckets, v: Buckets, b: int) -> bool {
    forall|x: int|
        0 <= x < u.entry_size ==> #[trigger] byte(v.memory, u.entries + b * u.entry_size + x) == byte(
            u.memory,
            u.entries + b * u.entry_size + x,
        )
}


/// Acquiring the key and the value of an entry.
pub open spec fn entry_code(
    c: &EmitContext,
    s: Code,
    layout: HashtableLayout,
    entry: Val,
) -> Code {
    let keyed = acquire_in_slot_code(c, s, layout.key_ty, entry);
    match layout.value_ty {
        Some(value_ty) => acquire_in_slot_code(
            c,
            keyed.i(gep(entry, num(layout.key_size))),
            value_ty,
            keyed.v(0),
        ),
        None => keyed,
    }
}

/// How many instructions acquire what is in a slot.
pub open spec fn slot_len(c: &EmitContext, element: IRType) -> nat {
    if heap_leaf(element) {
        5
    } else if c.glue_of(GlueKind::Clone, element) is Some {
        3
    } else {
        0
    }
}

/// How many instructions acquire an entry.
pub open spec fn body_len(c: &EmitContext, layout: HashtableLayout) -> nat {
    slot_len(c, layout.key_ty) + match layout.value_ty {
        Some(value_ty) => 1 + slot_len(c, value_ty),
        None => 0,
    }
}

/// Acquiring the entries of a table leaves alone whatever is taken, and keys
/// keep their words. Key and value lie in the entry, one behind the other.
pub open spec fn acquires_entries(c: &EmitContext, o: Outside, layout: HashtableLayout) -> bool {
    &&& keeps_word(c, o, layout.key_ty)
    &&& byte_count(o, value_type(layout.key_ty)) <= layout.entry_size
    &&& match layout.value_ty {
        Some(value_ty) => {
            &&& acquires(c, o, value_ty)
            &&& byte_count(o, value_type(layout.key_ty)) <= layout.key_size
            &&& layout.key_size + byte_count(o, value_type(value_ty)) <= layout.entry_size
        },
        None => true,
    }
}

/// The machine acquires the key and the value of an entry: the key keeps
/// its word, and nothing changes outside the entry.
proof fn entry_runs(
    ctx: &EmitContext,
    code: Code,
    o: Outside,
    e: Code,
    m: Machine,
    layout: HashtableLayout,
    entry: Val,
) -> (r: (Machine, Memory, Memory))
    requires
        stands_at(code, e, entry_code(ctx, e, layout, entry), m),
        e.defines(entry),
        e.log.len() < usize::MAX,
        acquires_entries(ctx, o, layout),
        sound(m.memory),
        in_memory(read(o, m.results, entry), layout.entry_size as int),
        read(o, m.results, entry) + layout.entry_size <= u64::MAX,
        all_taken(m.memory, read(o, m.results, entry), layout.entry_size as int),
    ensures
        behind(code, o, e, entry_code(ctx, e, layout, entry), m, r.0),
        ({
            let l = r.0;
            let p = read(o, m.results, entry);
            let n = byte_count(o, value_type(layout.key_ty));
            &&& grows_but(m.memory, l.memory, p, layout.entry_size as int)
            &&& number(l.memory, p, n) == number(m.memory, p, n)
            &&& layout.value_ty matches Some(value_ty) ==> {
                let at = p + layout.key_size;
                let x = byte_count(o, value_type(value_ty));
                &&& grows_but(m.memory, r.1, p, layout.entry_size as int)
                &&& grows_but(r.2, l.memory, p, layout.entry_size as int)
                &&& clones(
                    ctx,
                    o,
                    value_ty,
                    r.1,
                    number(m.memory, at, x),
                    r.2,
                    number(l.memory, at, x),
                )
            }
        }),
{
    let p = read(o, m.results, entry);
    let n = byte_count(o, value_type(layout.key_ty));
    let keyed = acquire_in_slot_code(ctx, e, layout.key_ty, entry);
    let whole = entry_code(ctx, e, layout, entry);
    assert forall|q: int| p <= q < p + n implies #[trigger] m.memory.taken.contains(q) by {}
    match layout.value_ty {
        Some(value_ty) => {
            let g = keyed.i(gep(entry, num(layout.key_size)));
            let x = byte_count(o, value_type(value_ty));
            assert(keyed.log.is_prefix_of(g.log));
            assert(g.log.is_prefix_of(whole.log));
            log_begins_further(code.log, whole.log, g.log);
            log_begins_further(code.log, g.log, keyed.log);
            assert(code.log[keyed.log.len() as int] == g.log[keyed.log.len() as int]);
            let (k, _) = acquire_in_slot_runs(ctx, code, o, e, m, layout.key_ty, entry);
            assert(code.log[g.log.len() as int].block == g.cur) by {
                if g.log.len() < whole.log.len() {
                    assert(code.log[g.log.len() as int] == whole.log[g.log.len() as int]);
                }
            }
            assert(read(o, k.results, entry) == p);
            moves(k, code, o, entry, num(layout.key_size));
            let k1 = k.step(code, o);
            address_in_range(p + layout.key_size);
            assert(read(o, k1.results, keyed.v(0)) == p + layout.key_size);
            assert forall|q: int|
                p + layout.key_size <= q < p + layout.key_size
                    + x implies #[trigger] k1.memory.taken.contains(q) by {
                assert(m.memory.taken.contains(q));
            }
            let (l, mid) = acquire_in_slot_runs(ctx, code, o, g, k1, value_ty, keyed.v(0));
            let at = p + layout.key_size;
            assert forall|j: int| 0 <= j < x implies #[trigger] byte(k1.memory, at + j) == byte(
                m.memory,
                at + j,
            ) by {
                assert(m.memory.taken.contains(at + j));
            }
            number_of_bytes(k1.memory, at, m.memory, at, x);
            assert forall|j: int| 0 <= j < n implies #[trigger] byte(l.memory, p + j) == byte(
                k.memory,
                p + j,
            ) by {
                assert(m.memory.taken.contains(p + j));
                assert(k.memory.taken.contains(p + j));
            }
            number_of_bytes(l.memory, p, k.memory, p, n);
            assert forall|q: int| #[trigger] m.memory.taken.contains(q) implies l.memory.taken.contains(
                q,
            ) && (p <= q < p + layout.entry_size || byte(l.memory, q) == byte(m.memory, q)) by {
                assert(k.memory.taken.contains(q));
            }
            assert forall|b: int, i: int|
                m.memory.blocks.contains_pair(b, i) implies #[trigger] l.memory.blocks.contains_pair(
                b,
                i,
            ) by {
                assert(k.memory.blocks.contains_pair(b, i));
            }
            (l, k1.memory, mid)
        },
        None => {
            let (l, mid) = acquire_in_slot_runs(ctx, code, o, e, m, layout.key_ty, entry);
            (l, m.memory, mid)
        },
    }
}

/// What holds all through the copy of a table: it stands in the body, with
/// the code that acquires an entry behind `e`.
pub open spec fn copying_setting(
    ctx: &EmitContext,
    code: Code,
    o: Outside,
    c: Copying,
    layout: HashtableLayout,
    e: Code,
    m: Machine,
    t: Buckets,
) -> bool {
    let whole = entry_code(ctx, e, layout, c.v(15));
    &&& c.stands_in(code)
    &&& e.log.len() == c.n + 16
    &&& begins_as(code, whole)
    &&& whole.log.len() == c.n + 16 + c.body
    &&& whole.cur == c.b(2)
    &&& code.log[c.n as int + 16].block == c.b(2)
    &&& acquires_entries(ctx, o, layout)
    &&& layout.entry_size == c.entry_size
    &&& t.key_ty == value_type(layout.key_ty)
    &&& c.works_on(o, m, t)
    &&& owned(o, t, c.counter(o))
}

/// Counting on keeps the copy.
proof fn counting_keeps_copy(
    o: Outside,
    c: Copying,
    l: Machine,
    k: Machine,
    m: Machine,
    t: Buckets,
    x: int,
)
    requires
        holds_copy(o, c, l, m, t),
        m.memory == t.memory,
        owned(o, t, c.counter(o)),
        0 <= x <= u64::MAX,
        k.memory == stored(l.memory, c.counter(o), x, 8),
        k.returned is None,
        forall|i: usize| i < c.n + 3 ==> #[trigger] k.results[i] == l.results[i],
    ensures
        holds_copy(o, c, k, m, t),
        number(k.memory, c.counter(o), 8) == x,
        forall|b: int|
            0 <= b < t.capacity ==> #[trigger] entry_kept(made(c, l, t), made(c, k, t), b),
{
    let p = c.counter(o);
    let u = made(c, l, t);
    byte_limit_is_power(8);
    vstd::arithmetic::power2::lemma2_to64();
    store_is_read_back(l.memory, p, x, 8);
    stored_elsewhere(l.memory, p, x, 8);
    apart(m.memory, u.entries as int, t.capacity * t.entry_size, p, 8);
    apart(m.memory, u.states as int, t.capacity as int, p, 8);
    let v = made(c, k, t);
    assert(v == (Buckets { memory: k.memory, ..u }));
    assert(same_bytes(u, v));
    same_bytes_alike(o, u, v);
    alike_further(o, t, u, v);
    assert forall|b: int| 0 <= b < t.capacity implies #[trigger] entry_kept(u, v, b) by {
        entry_address(u, b);
    }
}

/// Tables that are alike to the same table.
proof fn alike_further(o: Outside, t: Buckets, u: Buckets, v: Buckets)
    requires
        alike(o, t, u),
        alike(o, u, v),
    ensures
        alike(o, t, v),
{
    assert forall|b: int| 0 <= b < t.capacity implies #[trigger] v.state(b) == t.state(b) by {
        assert(u.state(b) == t.state(b));
    }
    assert forall|b: int| 0 <= b < t.capacity implies #[trigger] v.key(o, b) == t.key(o, b) by {
        assert(u.key(o, b) == t.key(o, b));
    }
}

/// Acquiring an entry keeps the copy.
proof fn acquiring_keeps_copy(
    o: Outside,
    c: Copying,
    l: Machine,
    k: Machine,
    m: Machine,
    t: Buckets,
    b: int,
)
    requires
        holds_copy(o, c, l, m, t),
        m.memory == t.memory,
        owned(o, t, c.counter(o)),
        0 <= b < t.capacity,
        ({
            let u = made(c, l, t);
            let n = byte_count(o, t.key_ty);
            &&& grows_but(l.memory, k.memory, u.entries + b * u.entry_size, u.entry_size as int)
            &&& number(k.memory, u.entries + b * u.entry_size, n) == number(
                l.memory,
                u.entries + b * u.entry_size,
                n,
            )
        }),
        k.returned is None,
        forall|i: usize| i < c.n + 3 ==> #[trigger] k.results[i] == l.results[i],
    ensures
        holds_copy(o, c, k, m, t),
        number(k.memory, c.counter(o), 8) == number(l.memory, c.counter(o), 8),
        forall|i: int|
            0 <= i < t.capacity && i != b ==> #[trigger] entry_kept(made(c, l, t), made(c, k, t), i),
{
    let p = c.counter(o);
    let u = made(c, l, t);
    let v = made(c, k, t);
    let size = t.capacity * t.entry_size;
    assert(v == (Buckets { memory: k.memory, ..u }));
    entry_address(u, b);
    apart(m.memory, u.entries as int, size, p, 8);
    assert forall|i: int| 0 <= i < u.capacity implies #[trigger] v.state(i) == u.state(i) by {
        assert(l.memory.taken.contains(u.states + i));
    }
    assert forall|i: int| 0 <= i < u.capacity implies #[trigger] v.key(o, i) == u.key(o, i) by {
        entry_address(u, i);
        if i != b {
            entries_apart(u, i, b);
            let q = u.entries + i * u.entry_size;
            assert forall|j: int| 0 <= j < byte_count(o, u.key_ty) implies #[trigger] byte(
                k.memory,
                q + j,
            ) == byte(l.memory, q + j) by {
                assert(l.memory.taken.contains(q + j));
            }
            number_of_bytes(k.memory, q, l.memory, q, byte_count(o, u.key_ty));
        }
    }
    alike_further(o, t, u, v);
    assert forall|i: int| 0 <= i < t.capacity && i != b implies #[trigger] entry_kept(u, v, i) by {
        entry_address(u, i);
        entries_apart(u, i, b);
        let q = u.entries + i * u.entry_size;
        assert forall|x: int| 0 <= x < u.entry_size implies #[trigger] byte(k.memory, q + x) == byte(
            l.memory,
            q + x,
        ) by {
            assert(l.memory.taken.contains(q + x));
        }
    }
    assert forall|j: int| 0 <= j < 8 implies #[trigger] byte(k.memory, p + j) == byte(l.memory, p + j) by {
        assert(m.memory.taken.contains(p + j));
        assert(l.memory.taken.contains(p + j));
    }
    number_of_bytes(k.memory, p, l.memory, p, 8);
    assert forall|q: int| u.entries <= q < u.entries + size implies #[trigger] k.memory.taken.contains(
        q,
    ) by {
        assert(l.memory.taken.contains(q));
    }
    assert forall|q: int| u.states <= q < u.states + t.capacity implies #[trigger] k.memory.taken.contains(
        q,
    ) by {
        assert(l.memory.taken.contains(q));
    }
    assert forall|q: int| #[trigger] m.memory.taken.contains(q) implies k.memory.taken.contains(q) && (p
        <= q < p + 8 || byte(k.memory, q) == byte(m.memory, q)) by {
        assert(l.memory.taken.contains(q));
    }
}

/// The walk over a copy changes nothing but its counter and acquires the
/// entries.
proof fn copy_walks(
    ctx: &EmitContext,
    code: Code,
    o: Outside,
    c: Copying,
    layout: HashtableLayout,
    e: Code,
    l: Machine,
    m: Machine,
    t: Buckets,
    i: int,
)
    requires
        copying_setting(ctx, code, o, c, layout, e, m, t),
        holds_copy(o, c, l, m, t),
        values_copied(o, layout, beside(ctx, o, layout, own_buffers(c, l, t), c.counter(o), t.memory, l.memory), t, made(c, l, t), i),
        l.at == c.n + 7,
        number(l.memory, c.counter(o), 8) == i,
        0 <= i <= t.capacity,
    ensures
        l.comes_to(code, o, copy_made(ctx, code, o, c, layout, m, t)),
    decreases t.capacity - i, 1nat,
{
    let counter = Val::Slot(c.slot);
    let goal = copy_made(ctx, code, o, c, layout, m, t);
    loads(l, code, o, LType::I64, counter);
    let m8 = l.step(code, o);
    assert(read(o, m8.results, c.src.capacity) == t.capacity);
    tests(m8, code, o, Pred::Ult, LType::I64, c.v(7), c.src.capacity);
    let m9 = m8.step(code, o);
    branches(m9, code, o, c.v(8), c.b(1), c.b(4));
    let m10 = m9.step(code, o);
    if i == t.capacity {
        assert(holds_copy(o, c, m10, m, t));
        let u = made(c, l, t);
        assert(made(c, m10, t) == u);
        beside_is_made(ctx, o, layout, own_buffers(c, l, t), c.counter(o), t.memory, u);
        assert forall|x: int| 0 <= x < u.capacity && x != -1 implies #[trigger] entry_kept(u, u, x) by {}
        values_stay(
            o,
            layout,
            beside(ctx, o, layout, own_buffers(c, l, t), c.counter(o), t.memory, l.memory),
            made_in(ctx, o, layout, c.counter(o), t.memory, off_table(u)),
            t,
            u,
            u,
            -1,
            i,
            i,
        );
        arrives(m10, code, o, goal);
    } else {
        let u = made(c, l, t);
        assert(u.state(i) == t.state(i));
        moves(m10, code, o, c.v(2), c.v(7));
        let m11 = m10.step(code, o);
        address_in_range(u.states + i);
        assert(m10.results[(c.n + 2) as usize] == u.states);
        assert(m11.results[(c.n + 10) as usize] == u.states + i);
        loads(m11, code, o, LType::I8, c.v(10));
        let m12 = m11.step(code, o);
        assert(m12.results[(c.n + 11) as usize] == u.state(i)) by {
            reveal_with_fuel(number, 2);
        }
        tests(m12, code, o, Pred::Eq, LType::I8, c.v(11), num(STATE_OCCUPIED));
        let m13 = m12.step(code, o);
        branches(m13, code, o, c.v(12), c.b(2), c.b(3));
        let m14 = m13.step(code, o);
        assert(forall|j: usize| j < c.n + 3 ==> #[trigger] m14.results[j] == l.results[j]);
        if t.state(i) != STATE_OCCUPIED {
            assert(m14.at == c.n + 17 + c.body);
            assert forall|x: int| 0 <= x < u.capacity && x != -1 implies #[trigger] entry_kept(u, u, x) by {}
            let copies = beside(
                ctx,
                o,
                layout,
                own_buffers(c, l, t),
                c.counter(o),
                t.memory,
                l.memory,
            );
            values_stay(o, layout, copies, copies, t, u, u, -1, i, i + 1);
            copy_counts(ctx, code, o, c, layout, e, m14, l, m, t, i);
        } else {
            copy_acquires(ctx, code, o, c, layout, e, m14, l, m, t, i);
        }
    }
}

/// A round at an occupied bucket.
proof fn copy_acquires(
    ctx: &EmitContext,
    code: Code,
    o: Outside,
    c: Copying,
    layout: HashtableLayout,
    e: Code,
    l: Machine,
    before: Machine,
    m: Machine,
    t: Buckets,
    i: int,
)
    requires
        copying_setting(ctx, code, o, c, layout, e, m, t),
        holds_copy(o, c, before, m, t),
        values_copied(o, layout, beside(ctx, o, layout, own_buffers(c, before, t), c.counter(o), t.memory, before.memory), t, made(c, before, t), i),
        t.state(i) == STATE_OCCUPIED,
        l.at == c.n + 14,
        l.memory == before.memory,
        l.returned is None,
        l.results[(c.n + 7) as usize] == i,
        forall|j: usize| j < c.n + 3 ==> #[trigger] l.results[j] == before.results[j],
        0 <= i < t.capacity,
    ensures
        l.comes_to(code, o, copy_made(ctx, code, o, c, layout, m, t)),
    decreases t.capacity - i, 0nat, 1nat,
{
    let u = made(c, before, t);
    let whole = entry_code(ctx, e, layout, c.v(15));
    entry_address(u, i);
    let p = u.entries + i * u.entry_size;
    multiplies(l, code, o, c.v(7), num(c.entry_size));
    let m15 = l.step(code, o);
    assert(m15.results[(c.n + 14) as usize] == i * u.entry_size);
    assert(m15.results[(c.n + 1) as usize] == u.entries);
    moves(m15, code, o, c.v(1), c.v(14));
    let m16 = m15.step(code, o);
    assert(m16.results[(c.n + 15) as usize] == p);
    assert forall|q: int| p <= q < p + u.entry_size implies #[trigger] m16.memory.taken.contains(q) by {}
    let (k, first, mid) = entry_runs(ctx, code, o, e, m16, layout, c.v(15));
    acquiring_keeps_copy(o, c, before, k, m, t, i);
    let v = made(c, k, t);
    let own = own_buffers(c, before, t);
    let counter = c.counter(o);
    assert(v == (Buckets { memory: k.memory, ..u }));
    assert(own_buffers(c, k, t) == own);
    let copies = beside(ctx, o, layout, own, counter, t.memory, before.memory);
    let later = beside(ctx, o, layout, own, counter, t.memory, k.memory);
    assert forall|q: int| p <= q < p + u.entry_size implies #[trigger] of_table(own, q) by {}
    assert(keeps_off(own, counter, before.memory, k.memory));
    beside_later(ctx, o, layout, own, counter, t.memory, before.memory, k.memory);
    assert(value_copied(o, layout, later, t, v, i + 1, i)) by {
        if let Some(value_ty) = layout.value_ty {
            let ty = value_type(value_ty);
            assert(v.entry(i) == p && u.entry(i) == p);
            assert(value_copied(o, layout, copies, t, u, i, i));
            let (x, y) = (value_in(o, t, layout, ty, i), value_in(o, v, layout, ty, i));
            assert(value_in(o, u, layout, ty, i) == x);
            assert(clones(ctx, o, value_ty, first, x, mid, y));
            entry_made(ctx, o, value_ty, own, counter, t, before.memory, first, mid, k.memory, p, x, y);
        }
    }
    values_stay(o, layout, copies, later, t, u, v, i, i, i + 1);
    jumps(k, code, o, c.b(3));
    let next = k.step(code, o);
    copy_counts(ctx, code, o, c, layout, e, next, k, m, t, i);
}

/// The value of an entry was made beside the table.
proof fn entry_made(
    ctx: &EmitContext,
    o: Outside,
    element: IRType,
    own: Buckets,
    counter: int,
    t: Buckets,
    before: Memory,
    first: Memory,
    mid: Memory,
    after: Memory,
    p: int,
    x: int,
    y: int,
)
    requires
        clones(ctx, o, element, first, x, mid, y),
        grows_but(before, first, p, own.entry_size as int),
        grows_but(mid, after, p, own.entry_size as int),
        spares_but(t.memory, before, counter),
        all_taken(t.memory, counter, 8),
        all_taken(before, own.entries as int, own.capacity * own.entry_size),
        all_taken(before, own.states as int, own.capacity as int),
        none_taken(t.memory, own.entries as int, own.capacity * own.entry_size),
        own.entries <= p,
        p + own.entry_size <= own.entries + own.capacity * own.entry_size,
    ensures
        made_beside(ctx, o, element, own, counter, t.memory, x, after, y),
{
    assert(spares_but(t.memory, first, counter)) by {
        assert forall|q: int| #[trigger] t.memory.taken.contains(q) implies first.taken.contains(q) && (
        counter <= q < counter + 8 || byte(first, q) == byte(t.memory, q)) by {
            assert(before.taken.contains(q));
        }
    }
    assert(news_off(first, mid, counter)) by {
        assert forall|q: int| #[trigger]
            mid.taken.contains(q) && !first.taken.contains(q) implies !(counter <= q < counter + 8) by {
            if counter <= q < counter + 8 {
                assert(t.memory.taken.contains(q));
            }
        }
    }
    assert(news_off_table(first, mid, own)) by {
        assert forall|q: int| #[trigger]
            mid.taken.contains(q) && !first.taken.contains(q) implies !of_table(own, q) by {
            if of_table(own, q) {
                assert(before.taken.contains(q));
            }
        }
    }
    assert(keeps_off(own, counter, mid, after));
}

/// The end of a round.
proof fn copy_counts(
    ctx: &EmitContext,
    code: Code,
    o: Outside,
    c: Copying,
    layout: HashtableLayout,
    e: Code,
    l: Machine,
    before: Machine,
    m: Machine,
    t: Buckets,
    i: int,
)
    requires
        copying_setting(ctx, code, o, c, layout, e, m, t),
        holds_copy(o, c, before, m, t),
        values_copied(o, layout, beside(ctx, o, layout, own_buffers(c, before, t), c.counter(o), t.memory, before.memory), t, made(c, before, t), i + 1),
        l.at == c.n + 17 + c.body,
        l.memory == before.memory,
        l.returned is None,
        l.results[(c.n + 7) as usize] == i,
        forall|j: usize| j < c.n + 3 ==> #[trigger] l.results[j] == before.results[j],
        0 <= i < t.capacity,
    ensures
        l.comes_to(code, o, copy_made(ctx, code, o, c, layout, m, t)),
    decreases t.capacity - i, 0nat, 0nat,
{
    let k = c.body as int;
    let counter = Val::Slot(c.slot);
    address_in_range(i + 1);
    combines(l, code, o, BinOp::Add, LType::I64, c.v(7), num(1));
    let m18 = l.step(code, o);
    assert(m18.results[(c.n + 17 + k) as usize] == i + 1);
    stores(m18, code, o, LType::I64, c.v(17 + k), counter);
    let m19 = m18.step(code, o);
    jumps(m19, code, o, c.b(0));
    let next = m19.step(code, o);
    counting_keeps_copy(o, c, before, next, m, t, i + 1);
    let own = own_buffers(c, before, t);
    let at = c.counter(o);
    assert(own_buffers(c, next, t) == own);
    stored_elsewhere(before.memory, at, i + 1, 8);
    assert(keeps_off(own, at, before.memory, next.memory));
    beside_later(ctx, o, layout, own, at, t.memory, before.memory, next.memory);
    values_stay(
        o,
        layout,
        beside(ctx, o, layout, own, at, t.memory, before.memory),
        beside(ctx, o, layout, own, at, t.memory, next.memory),
        t,
        made(c, before, t),
        made(c, next, t),
        -1,
        i + 1,
        i + 1,
    );
    copy_walks(ctx, code, o, c, layout, e, next, m, t, i + 1);
}

/// Copying a table gives a table of the same states and keys in buffers of
/// its own, and changes nothing that was taken but its counter.
pub proof fn copying_runs(
    ctx: &EmitContext,
    code: Code,
    o: Outside,
    c: Copying,
    layout: HashtableLayout,
    e0: Code,
    m: Machine,
    t: Buckets,
)
    requires
        copying_setting(ctx, code, o, c, layout, e0, m, t),
        m.at == c.n,
        laid_out(o, t),
        heap_calls(o),
    ensures
        m.comes_to(code, o, copy_made(ctx, code, o, c, layout, m, t)),
{
    let size = t.capacity * t.entry_size;
    let goal = copy_made(ctx, code, o, c, layout, m, t);
    let counter = Val::Slot(c.slot);
    multiplies(m, code, o, c.src.capacity, num(c.entry_size));
    let m1 = m.step(code, o);
    assert(m1.results[c.n as usize] == size);
    assert(arguments(o, m1.results, a1(c.v(0))) =~= seq![size]) by {
        reveal_with_fuel(arguments, 2);
    }
    calls(m1, code, o, Callee::Runtime(Rt::Malloc), a1(c.v(0)));
    let m2 = m1.step(code, o);
    malloc_call(o, m1.memory, size);
    let e = m2.results[(c.n + 1) as usize];
    if e == 0 {
        assert(starved(code, m2));
        arrives(m2, code, o, goal);
    } else {
        assert(arguments(o, m2.results, a1(c.src.capacity)) =~= seq![t.capacity as int]) by {
            reveal_with_fuel(arguments, 2);
            assert(read(o, m2.results, c.src.capacity) == t.capacity);
        }
        calls(m2, code, o, Callee::Runtime(Rt::Malloc), a1(c.src.capacity));
        let m3 = m2.step(code, o);
        malloc_call(o, m2.memory, t.capacity as int);
        let s = m3.results[(c.n + 2) as usize];
        if s == 0 {
            assert(starved(code, m3));
            arrives(m3, code, o, goal);
        } else {
            assert(size > 0) by (nonlinear_arith)
                requires
                    size == t.capacity * t.entry_size,
                    0 < t.capacity,
                    0 < t.entry_size,
            ;
            apart(m2.memory, s, t.capacity as int, e, size);
            assert(e != s);
            assert(none_taken(m.memory, s, t.capacity as int));
            assert(all_taken(m3.memory, e, size)) by {
                assert forall|q: int| e <= q < e + size implies #[trigger] m3.memory.taken.contains(
                    q,
                ) by {
                    assert(m2.memory.taken.contains(q));
                }
            }
            copying_copies(ctx, code, o, c, layout, e0, m3, m, t);
        }
    }
}

/// Nothing is acquired yet in a table of the same bytes.
proof fn raw_values(
    o: Outside,
    layout: HashtableLayout,
    copies: spec_fn(int, int) -> bool,
    t: Buckets,
    u: Buckets,
)
    requires
        same_bytes(t, u),
        laid_out(o, t),
        laid_out(o, u),
        layout.entry_size == u.entry_size,
        layout.value_ty matches Some(ty) ==> layout.key_size + byte_count(o, value_type(ty))
            <= layout.entry_size,
    ensures
        values_copied(o, layout, copies, t, u, 0),
{
    if let Some(value_ty) = layout.value_ty {
        let ty = value_type(value_ty);
        assert forall|b: int| 0 <= b < t.capacity && t.state(b) == STATE_OCCUPIED implies #[trigger] value_copied(
            o,
            layout,
            copies,
            t,
            u,
            0,
            b,
        ) by {
            entry_address(t, b);
            entry_address(u, b);
            let n = byte_count(o, ty);
            let (p, q) = (u.entry(b) + layout.key_size, t.entry(b) + layout.key_size);
            assert forall|j: int| 0 <= j < n implies #[trigger] byte(u.memory, p + j) == byte(
                t.memory,
                q + j,
            ) by {
                let i = b * t.entry_size + layout.key_size + j;
                assert(byte(u.memory, u.entries + i) == byte(t.memory, t.entries + i));
            }
            number_of_bytes(u.memory, p, t.memory, q, n);
        }
    }
}

/// From the copies on.
proof fn copying_copies(
    ctx: &EmitContext,
    code: Code,
    o: Outside,
    c: Copying,
    layout: HashtableLayout,
    e0: Code,
    l: Machine,
    m: Machine,
    t: Buckets,
)
    requires
        copying_setting(ctx, code, o, c, layout, e0, m, t),
        laid_out(o, t),
        heap_calls(o),
        l.at == c.n + 3,
        l.returned is None,
        forall|i: usize| i < c.n ==> #[trigger] l.results[i] == m.results[i],
        l.results[c.n as usize] == t.capacity * t.entry_size,
        ({
            let (e, s) = (l.results[(c.n + 1) as usize], l.results[(c.n + 2) as usize]);
            let size = t.capacity * t.entry_size;
            &&& e != 0 && s != 0
            &&& in_memory(e, size) && in_memory(s, t.capacity as int)
            &&& none_taken(m.memory, e, size) && none_taken(m.memory, s, t.capacity as int)
            &&& all_taken(l.memory, e, size) && all_taken(l.memory, s, t.capacity as int)
            &&& e + size <= s || s + t.capacity <= e
            &&& l.memory.blocks.contains_pair(e, size)
            &&& l.memory.blocks.contains_pair(s, t.capacity as int)
        }),
        sound(l.memory),
        forall|q: int| #[trigger]
            m.memory.taken.contains(q) ==> l.memory.taken.contains(q) && byte(l.memory, q) == byte(
                m.memory,
                q,
            ),
    ensures
        l.comes_to(code, o, copy_made(ctx, code, o, c, layout, m, t)),
{
    let size = t.capacity * t.entry_size;
    let (e, s) = (l.results[(c.n + 1) as usize], l.results[(c.n + 2) as usize]);
    let counter = Val::Slot(c.slot);
    let entries_args = a3(c.v(1), c.src.entries_ptr, c.v(0));
    assert(arguments(o, l.results, entries_args) =~= seq![e, t.entries as int, size]) by {
        reveal_with_fuel(arguments, 4);
        assert(read(o, l.results, c.src.entries_ptr) == t.entries);
    }
    calls(l, code, o, Callee::Runtime(Rt::Memcpy), entries_args);
    let m4 = l.step(code, o);
    apart(m.memory, e, size, t.entries as int, size);
    apart(m.memory, s, t.capacity as int, t.entries as int, size);
    apart(m.memory, e, size, t.states as int, t.capacity as int);
    apart(m.memory, s, t.capacity as int, t.states as int, t.capacity as int);
    memcpy_call(o, l.memory, e, t.entries as int, size);
    let states_args = a3(c.v(2), c.src.states_ptr, c.src.capacity);
    assert(arguments(o, m4.results, states_args) =~= seq![s, t.states as int, t.capacity as int]) by {
        reveal_with_fuel(arguments, 4);
        assert(read(o, m4.results, c.src.states_ptr) == t.states);
        assert(read(o, m4.results, c.src.capacity) == t.capacity);
    }
    calls(m4, code, o, Callee::Runtime(Rt::Memcpy), states_args);
    let m5 = m4.step(code, o);
    memcpy_call(o, m4.memory, s, t.states as int, t.capacity as int);
    let u = made(c, m5, t);
    assert forall|i: int| 0 <= i < size implies #[trigger] byte(m5.memory, u.entries + i) == byte(
        t.memory,
        t.entries + i,
    ) by {
        assert(byte(m5.memory, e + i) == byte(m4.memory, e + i));
        assert(byte(m4.memory, e + i) == byte(l.memory, t.entries + i));
        assert(m.memory.taken.contains(t.entries + i));
    }
    assert forall|i: int| 0 <= i < t.capacity implies #[trigger] byte(m5.memory, u.states + i)
        == byte(t.memory, t.states + i) by {
        assert(byte(m5.memory, s + i) == byte(m4.memory, t.states + i));
        assert(m.memory.taken.contains(t.states + i));
        assert(byte(m4.memory, t.states + i) == byte(l.memory, t.states + i));
    }
    assert forall|q: int| #[trigger] m.memory.taken.contains(q) implies m5.memory.taken.contains(q)
        && byte(m5.memory, q) == byte(m.memory, q) by {
        assert(byte(m4.memory, q) == byte(l.memory, q));
        assert(byte(m5.memory, q) == byte(m4.memory, q));
    }
    assert(same_bytes(t, u));
    same_bytes_alike(o, t, u);
    assert(holds_copy(o, c, m5, m, t));
    stores(m5, code, o, LType::I64, num(0), counter);
    let m6 = m5.step(code, o);
    jumps(m6, code, o, c.b(0));
    let m7 = m6.step(code, o);
    counting_keeps_copy(o, c, m5, m7, m, t, 0);
    let copies = beside(
        ctx,
        o,
        layout,
        own_buffers(c, m7, t),
        c.counter(o),
        t.memory,
        m7.memory,
    );
    raw_values(o, layout, copies, t, u);
    values_stay(o, layout, copies, copies, t, u, made(c, m7, t), -1, 0, 0);
    copy_walks(ctx, code, o, c, layout, e0, m7, m, t, 0);
}

/// How long the code is that acquires an entry, and where it goes on.
proof fn entry_shape(c: &EmitContext, e: Code, layout: HashtableLayout, entry: Val)
    ensures
        ({
            let whole = entry_code(c, e, layout, entry);
            &&& e.log.is_prefix_of(whole.log)
            &&& whole.log.len() == e.log.len() + body_len(c, layout)
            &&& whole.cur == e.cur
            &&& whole.blocks == e.blocks
            &&& whole.slots == e.slots
            &&& whole.edges == e.edges
            &&& forall|i: int| e.log.len() <= i < whole.log.len() ==> (#[trigger] whole.log[i]).block == e.cur
        }),
{
    let keyed = acquire_in_slot_code(c, e, layout.key_ty, entry);
    let whole = entry_code(c, e, layout, entry);
    assert(e.log.is_prefix_of(keyed.log));
    assert(keyed.log.is_prefix_of(whole.log));
    log_begins_further(whole.log, keyed.log, e.log);
}

/// The code of a copy up to the entry of an occupied bucket.
pub open spec fn copy_entry(s: Code, layout: HashtableLayout, src: TableSnapshot) -> Code {
    let t = s.i(imul(src.capacity, num(layout.entry_size)))
        .i(call(Rt::Malloc, a1(s.v(0))))
        .i(call(Rt::Malloc, a1(src.capacity)))
        .i(call(Rt::Memcpy, a3(s.v(1), src.entries_ptr, s.v(0))))
        .i(call(Rt::Memcpy, a3(s.v(2), src.states_ptr, src.capacity)));
    entry_pointer_code(
        occupied_begin(t, s.v(2), src.capacity),
        s.v(1),
        t.v(2),
        layout.entry_size,
    )
}

/// The copy that begins at `s`.
pub open spec fn copying_at(
    c: &EmitContext,
    s: Code,
    layout: HashtableLayout,
    src: TableSnapshot,
) -> Copying {
    Copying {
        n: s.log.len(),
        block: s.blocks,
        from: s.cur,
        slot: s.slots.len() as usize,
        src: src,
        entry_size: layout.entry_size,
        body: body_len(c, layout),
    }
}

/// How long the copy of a table's buffers is.
pub proof fn copying_length(c: &EmitContext, s: Code, layout: HashtableLayout, src: TableSnapshot)
    ensures
        ({
            let part = copy_buffers_code(c, s, Walk::Acquire, layout, src);
            &&& part.log.len() == s.log.len() + 20 + body_len(c, layout)
            &&& part.blocks == s.blocks + 5
        }),
{
    let n = s.log.len() as int;
    let e = copy_entry(s, layout, src);
    entry_shape(c, e, layout, Val::At((n + 15) as usize));
    let t = s.i(imul(src.capacity, num(layout.entry_size)))
        .i(call(Rt::Malloc, a1(s.v(0))))
        .i(call(Rt::Malloc, a1(src.capacity)))
        .i(call(Rt::Memcpy, a3(s.v(1), src.entries_ptr, s.v(0))))
        .i(call(Rt::Memcpy, a3(s.v(2), src.states_ptr, src.capacity)));
    let acquired = entry_code(c, e, layout, Val::At((n + 15) as usize));
    assert(copy_buffers_code(c, s, Walk::Acquire, layout, src) == occupied_end(t, acquired));
}

/// What the copy of a table's buffers records.
proof fn copying_shape(c: &EmitContext, s: Code, layout: HashtableLayout, src: TableSnapshot)
    requires
        tidy(s),
        s.blocks + 5 <= usize::MAX,
        copy_buffers_code(c, s, Walk::Acquire, layout, src).log.len() <= usize::MAX,
    ensures
        ({
            let part = copy_buffers_code(c, s, Walk::Acquire, layout, src);
            let e = copy_entry(s, layout, src);
            let n = s.log.len() as int;
            let k = body_len(c, layout);
            let acquired = entry_code(c, e, layout, Val::At((n + 15) as usize));
            let at = |j: int| Val::At((n + j) as usize);
            let is = |j: int, block: usize, inst: Inst|
                part.log[n + j] == Entry { block: block, inst: inst };
            &&& begins_as(part, acquired)
            &&& begins_as(part, e)
            &&& e.log.len() == n + 16
            &&& acquired.log.len() == n + 16 + k
            &&& acquired.cur == s.b(2)
            &&& part.log.len() == n + 20 + k
            &&& part.edges == s.edges
            &&& part.blocks == s.blocks + 5
            &&& part.cur == s.b(4)
            &&& is(16 + k as int, s.b(2), Inst::Br(s.b(3)))
            &&& is(17 + k as int, s.b(3), iadd(at(7), num(1)))
            &&& is(
                18 + k as int,
                s.b(3),
                Inst::Store(LType::I64, at(17 + k as int), Val::Slot(s.slots.len() as usize)),
            )
            &&& is(19 + k as int, s.b(3), Inst::Br(s.b(0)))
            &&& forall|i: int|
                n + 14 <= i < n + 17 + k ==> (#[trigger] part.log[i]).block == s.b(2)
        }),
{
    let part = copy_buffers_code(c, s, Walk::Acquire, layout, src);
    let n = s.log.len() as int;
    let k = body_len(c, layout);
    let e = copy_entry(s, layout, src);
    let acquired = entry_code(c, e, layout, Val::At((n + 15) as usize));
    entry_shape(c, e, layout, Val::At((n + 15) as usize));
    let t = s.i(imul(src.capacity, num(layout.entry_size)))
        .i(call(Rt::Malloc, a1(s.v(0))))
        .i(call(Rt::Malloc, a1(src.capacity)))
        .i(call(Rt::Memcpy, a3(s.v(1), src.entries_ptr, s.v(0))))
        .i(call(Rt::Memcpy, a3(s.v(2), src.states_ptr, src.capacity)));
    assert(part == occupied_end(t, acquired));
    assert(acquired.log.is_prefix_of(part.log));
    log_begins_further(part.log, acquired.log, e.log);
    assert forall|i: int| n + 14 <= i < n + 17 + k implies (#[trigger] part.log[i]).block == s.b(2) by {
        if i < n + 16 {
            assert(part.log[i] == e.log[i]);
        } else if i < n + 16 + k {
            assert(part.log[i] == acquired.log[i]);
        }
    }
}

/// The blocks that a copy records in.
proof fn copying_blocks(c: &EmitContext, s: Code, layout: HashtableLayout, src: TableSnapshot)
    requires
        tidy(s),
        s.blocks + 5 <= usize::MAX,
        copy_buffers_code(c, s, Walk::Acquire, layout, src).log.len() <= usize::MAX,
    ensures
        ({
            let part = copy_buffers_code(c, s, Walk::Acquire, layout, src);
            let n = s.log.len() as int;
            let k = body_len(c, layout);
            &&& tidy(part)
            &&& forall|i: int| 0 <= i < n ==> #[trigger] part.log[i] == s.log[i]
            &&& forall|i: int| n <= i < n + 7 ==> (#[trigger] part.log[i]).block == s.cur
            &&& forall|i: int| n + 7 <= i < n + 10 ==> (#[trigger] part.log[i]).block == s.b(0)
            &&& forall|i: int| n + 10 <= i < n + 14 ==> (#[trigger] part.log[i]).block == s.b(1)
            &&& forall|i: int| n + 14 <= i < n + 17 + k ==> (#[trigger] part.log[i]).block == s.b(2)
            &&& forall|i: int|
                n + 17 + k <= i < n + 20 + k ==> (#[trigger] part.log[i]).block == s.b(3)
        }),
{
    let part = copy_buffers_code(c, s, Walk::Acquire, layout, src);
    let e = copy_entry(s, layout, src);
    let n = s.log.len() as int;
    copying_shape(c, s, layout, src);
    beginning_stands(part, e);
    assert(forall|i: int| 0 <= i < n ==> #[trigger] e.log[i] == s.log[i]);
    assert forall|i: int| 0 <= i < n implies #[trigger] part.log[i] == s.log[i] by {
        assert(part.log[i] == e.log[i]);
    }
}

/// The copy of a table's buffers stands where it was recorded.
pub proof fn copying_stands(
    c: &EmitContext,
    s: Code,
    whole: Code,
    layout: HashtableLayout,
    src: TableSnapshot,
)
    requires
        tidy(s),
        s.blocks + 5 <= usize::MAX,
        begins_as(whole, copy_buffers_code(c, s, Walk::Acquire, layout, src)),
    ensures
        ({
            let part = copy_buffers_code(c, s, Walk::Acquire, layout, src);
            &&& tidy(part)
            &&& part.log.len() == s.log.len() + 20 + body_len(c, layout)
            &&& part.blocks == s.blocks + 5
            &&& part.cur == s.b(4)
            &&& forall|i: int| 0 <= i < s.log.len() ==> #[trigger] part.log[i] == s.log[i]
            &&& forall|i: int| 0 <= i < part.log.len() ==> (#[trigger] part.log[i]).block != s.b(4)
        }),
        ({
            let e = copy_entry(s, layout, src);
            let at = copying_at(c, s, layout, src);
            let acquired = entry_code(c, e, layout, at.v(15));
            &&& at.stands_in(whole)
            &&& e.log.len() == at.n + 16
            &&& begins_as(whole, acquired)
            &&& acquired.log.len() == at.n + 16 + at.body
            &&& acquired.cur == at.b(2)
            &&& whole.log[at.n as int + 16].block == at.b(2)
        }),
{
    let part = copy_buffers_code(c, s, Walk::Acquire, layout, src);
    let n = s.log.len();
    let e = copy_entry(s, layout, src);
    let at = copying_at(c, s, layout, src);
    let acquired = entry_code(c, e, layout, at.v(15));
    let k = body_len(c, layout);
    beginning_stands(whole, part);
    copying_shape(c, s, layout, src);
    copying_blocks(c, s, layout, src);
    begins_further(whole, part, acquired);
    begins_further(whole, part, e);
    copying_stood(whole, s, part, e, at);
}

/// The instructions of a copy, and where its blocks begin.
proof fn copying_stood(whole: Code, s: Code, part: Code, e: Code, at: Copying)
    requires
        begins_as(whole, part),
        begins_as(whole, e),
        tidy(s),
        s.blocks + 5 <= usize::MAX,
        ({
            let n = s.log.len() as int;
            let k = at.body;
            let v = |j: int| Val::At((n + j) as usize);
            let is = |j: int, block: usize, inst: Inst|
                part.log[n + j] == Entry { block: block, inst: inst };
            &&& at.n == s.log.len()
            &&& at.block == s.blocks
            &&& at.from == s.cur
            &&& at.slot == s.slots.len() as usize
            &&& part.log.len() == n + 20 + k
            &&& is(16 + k as int, s.b(2), Inst::Br(s.b(3)))
            &&& is(17 + k as int, s.b(3), iadd(v(7), num(1)))
            &&& is(
                18 + k as int,
                s.b(3),
                Inst::Store(LType::I64, v(17 + k as int), Val::Slot(s.slots.len() as usize)),
            )
            &&& is(19 + k as int, s.b(3), Inst::Br(s.b(0)))
            &&& forall|i: int| 0 <= i < n ==> #[trigger] part.log[i] == s.log[i]
            &&& forall|i: int| n <= i < n + 7 ==> (#[trigger] part.log[i]).block == s.cur
            &&& forall|i: int| n + 7 <= i < n + 10 ==> (#[trigger] part.log[i]).block == s.b(0)
            &&& forall|i: int| n + 10 <= i < n + 14 ==> (#[trigger] part.log[i]).block == s.b(1)
            &&& forall|i: int| n + 14 <= i < n + 17 + k ==> (#[trigger] part.log[i]).block == s.b(2)
        }),
        exists|layout: HashtableLayout|
            layout.entry_size == at.entry_size && #[trigger] copy_entry(s, layout, at.src) == e,
    ensures
        at.stands_in(whole),
{
    let n = s.log.len();
    let k = at.body;
    beginning_stands(whole, part);
    beginning_stands(whole, e);
    let layout = choose|layout: HashtableLayout|
        layout.entry_size == at.entry_size && #[trigger] copy_entry(s, layout, at.src) == e;
    assert(e == copy_entry(s, layout, at.src));
    assert forall|i: int| 0 <= i < n implies (#[trigger] whole.log[i]).block < s.blocks by {
        assert(part.log[i] == s.log[i]);
    }
    assert forall|i: int| n <= i < n + 20 + k implies #[trigger] whole.log[i] == part.log[i] by {}
    seek_finds(whole.log, s.b(0), 0, n + 7);
    seek_finds(whole.log, s.b(1), 0, n + 10);
    seek_finds(whole.log, s.b(2), 0, n + 14);
    seek_finds(whole.log, s.b(3), 0, n + 17 + k);
}

} // verus!
