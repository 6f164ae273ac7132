//! What filling a bucket does to a table in memory.

use vstd::prelude::*;
use crate::ctx::EmitContext;
use crate::intrinsics::acquiring::{
    acquire_value_runs, behind, clone_fits, clones, grows, grows_but, news_stay,
};
use crate::intrinsics::element::acquire_value_code;
use crate::intrinsics::hashtable::copying::{acquires_entries, entry_kept};
use crate::intrinsics::hashtable::insert::{fill_code, InsertProbe};
use crate::intrinsics::hashtable::probing::{differ_only_at, Buckets};
use crate::intrinsics::hashtable::util::{
    entry_pointer_code, table_struct_code, HashtableLayout, TableSnapshot, STATE_OCCUPIED,
};
use crate::intrinsics::list_values::log_begins_further;
use crate::ir::IRType;
use crate::llvm::{gep, iadd, num, BinOp, Code, Entry, Inst, LType, Val};
use crate::memory::{
    address_in_range, all_taken, byte, byte_limit, in_memory, number, number_of_bytes, sound,
    store_is_read_back, store_spares_others, stored, Memory,
};
use crate::semantics::{
    arrives, beginning_stands, begins_as, byte_count, combines, ends, inserts, moves, multiplies, read,
    stores, Machine, Outside,
};
use crate::types::value_type;

verus! {

/// The buffers of a table lie in memory, apart from one another, and an
/// entry has room for its key.
pub open spec fn laid_out(o: Outside, t: Buckets) -> bool {
    &&& 0 < t.capacity
    &&& 0 < t.entry_size
    &&& in_memory(t.entries as int, t.capacity * t.entry_size)
    &&& in_memory(t.states as int, t.capacity as int)
    &&& t.capacity * t.entry_size <= u64::MAX
    &&& t.entries + t.capacity * t.entry_size <= t.states || t.states + t.capacity <= t.entries
    &&& byte_count(o, t.key_ty) <= t.entry_size
}

/// The value in a bucket of a map.
pub open spec fn value_in(o: Outside, t: Buckets, layout: HashtableLayout, value_ty: LType, b: int) -> int {
    number(t.memory, t.entry(b) + layout.key_size, byte_count(o, value_ty))
}

/// A byte belongs to bucket `b`: to its entry, or as its state.
pub open spec fn of_bucket(t: Buckets, b: int, q: int) -> bool {
    ||| t.entries + b * t.entry_size <= q < t.entries + (b + 1) * t.entry_size
    ||| q == t.states + b
}

/// Another memory in which bucket `b` is occupied by a key and every other
/// byte that was taken is as it was.
pub open spec fn occupied_by(o: Outside, t: Buckets, end: Memory, b: int, key: int) -> bool {
    &&& forall|q: int| #[trigger]
        t.memory.taken.contains(q) ==> end.taken.contains(q) && (of_bucket(t, b, q) || byte(end, q)
            == byte(t.memory, q))
    &&& number(end, t.entries + b * t.entry_size, byte_count(o, t.key_ty)) == key
    &&& byte(end, t.states + b) == STATE_OCCUPIED
}

/// The buffers of a table are taken.
pub open spec fn all_held(t: Buckets) -> bool {
    &&& all_taken(t.memory, t.entries as int, t.capacity * t.entry_size)
    &&& all_taken(t.memory, t.states as int, t.capacity as int)
    &&& sound(t.memory)
}

/// The place of an entry in its buffer.
pub proof fn entry_address(t: Buckets, b: int)
    requires
        0 <= b < t.capacity,
        in_memory(t.entries as int, t.capacity * t.entry_size),
        t.capacity * t.entry_size <= u64::MAX,
    ensures
        t.entry(b) == t.entries + b * t.entry_size,
        0 <= b * t.entry_size,
        (b + 1) * t.entry_size == b * t.entry_size + t.entry_size,
        (b + 1) * t.entry_size <= t.capacity * t.entry_size,
{
    assert(0 <= b * t.entry_size && (b + 1) * t.entry_size == b * t.entry_size + t.entry_size && (b
        + 1) * t.entry_size <= t.capacity * t.entry_size) by (nonlinear_arith)
        requires
            0 <= b < t.capacity,
            0 <= t.entry_size,
    ;
    address_in_range(b * t.entry_size);
    address_in_range(t.entries + b * t.entry_size);
}

/// Entries of different buckets do not overlap.
pub proof fn entries_apart(t: Buckets, i: int, b: int)
    by (nonlinear_arith)
    requires
        i != b,
        0 <= t.entry_size,
    ensures
        (i + 1) * t.entry_size <= b * t.entry_size || (b + 1) * t.entry_size <= i * t.entry_size,
{
}

/// Filling a bucket leaves every other bucket as it was.
pub proof fn filling_is_local(o: Outside, t: Buckets, end: Memory, b: int, key: int)
    requires
        laid_out(o, t),
        all_held(t),
        0 <= b < t.capacity,
        occupied_by(o, t, end, b, key),
    ensures
        ({
            let u = Buckets { memory: end, ..t };
            &&& differ_only_at(o, t, u, b)
            &&& u.state(b) == STATE_OCCUPIED
            &&& u.key(o, b) == key
            &&& forall|i: int| 0 <= i < t.capacity && i != b ==> #[trigger] entry_kept(t, u, i)
        }),
{
    let u = Buckets { memory: end, ..t };
    entry_address(t, b);
    assert forall|i: int| 0 <= i < t.capacity && i != b implies #[trigger] u.state(i) == t.state(i) by {
        entry_address(t, i);
        assert(t.memory.taken.contains(t.states + i));
        assert(!of_bucket(t, b, t.states + i));
    }
    assert forall|i: int| 0 <= i < t.capacity && i != b implies #[trigger] u.key(o, i) == t.key(
        o,
        i,
    ) by {
        entry_address(t, i);
        entries_apart(t, i, b);
        let p = t.entries + i * t.entry_size;
        assert forall|j: int| 0 <= j < byte_count(o, t.key_ty) implies #[trigger] byte(end, p + j)
            == byte(t.memory, p + j) by {
            assert(t.memory.taken.contains(p + j));
            assert(!of_bucket(t, b, p + j));
        }
        number_of_bytes(end, p, t.memory, p, byte_count(o, t.key_ty));
    }
    assert forall|i: int| 0 <= i < t.capacity && i != b implies #[trigger] entry_kept(t, u, i) by {
        entry_address(t, i);
        entries_apart(t, i, b);
        let p = t.entries + i * t.entry_size;
        assert forall|x: int| 0 <= x < t.entry_size implies #[trigger] byte(end, p + x) == byte(
            t.memory,
            p + x,
        ) by {
            assert(t.memory.taken.contains(p + x));
            assert(!of_bucket(t, b, p + x));
        }
    }
}

/// A store changes only the bytes that it writes.
pub proof fn stored_elsewhere(memory: Memory, p: int, x: int, n: nat)
    requires
        0 <= p,
        p + n <= u64::MAX,
    ensures
        stored(memory, p, x, n).taken == memory.taken,
        stored(memory, p, x, n).blocks == memory.blocks,
        forall|q: int|
            0 <= q <= u64::MAX && !(p <= q < p + n) ==> #[trigger] byte(stored(memory, p, x, n), q)
                == byte(memory, q),
{
    store_spares_others(memory, p, x, n, p + n);
    assert forall|q: int| 0 <= q <= u64::MAX && !(p <= q < p + n) implies #[trigger] byte(
        stored(memory, p, x, n),
        q,
    ) == byte(memory, q) by {
        store_spares_others(memory, p, x, n, q);
    }
}

/// What is put into a free bucket, recorded from `s` on: the key, the
/// value of a map, and the state.
pub struct Filling {
    pub s: Code,
    pub layout: HashtableLayout,
    pub table: TableSnapshot,
    pub probe: InsertProbe,
    pub key: Val,
    pub value: Option<(IRType, Val)>,
}

impl Filling {
    /// The address of the entry.
    pub open spec fn placed(self) -> Code {
        entry_pointer_code(self.s, self.table.entries_ptr, self.probe.pidx, self.layout.entry_size)
    }

    /// The key acquired.
    pub open spec fn owned_key(self, c: &EmitContext) -> (Code, Val) {
        acquire_value_code(c, self.placed(), self.layout.key_ty, self.key)
    }

    /// The key put in.
    pub open spec fn keyed(self, c: &EmitContext) -> Code {
        let (k, owned) = self.owned_key(c);
        k.i(Inst::Store(value_type(self.layout.key_ty), owned, self.s.v(1)))
    }

    /// The address of the value.
    pub open spec fn value_placed(self, c: &EmitContext) -> Code {
        self.keyed(c).i(gep(self.s.v(1), num(self.layout.key_size)))
    }

    /// The key and the value put in.
    pub open spec fn filled(self, c: &EmitContext) -> Code {
        match self.value {
            Some((value_ty, value)) => {
                let (v, owned) = acquire_value_code(c, self.value_placed(c), value_ty, value);
                v.i(Inst::Store(value_type(value_ty), owned, self.keyed(c).v(0)))
            },
            None => self.keyed(c),
        }
    }

    /// The filling up to its return.
    pub open spec fn whole(self, c: &EmitContext) -> Code {
        let (t, longer) = fill_code(
            c,
            self.s,
            self.layout,
            self.table,
            self.probe,
            self.key,
            self.value,
        );
        table_struct_code(t, longer).i(Inst::Ret(LType::Table, t.v(3)))
    }

    /// The body holds the filling.
    pub open spec fn stands_in(self, c: &EmitContext, code: Code) -> bool {
        begins_as(code, self.whole(c))
    }

    /// The operands of the filling: the table, its length, the bucket and
    /// the key.
    pub open spec fn works_on(
        self,
        o: Outside,
        m: Machine,
        t: Buckets,
        length: u64,
        b: int,
        key: int,
    ) -> bool {
        &&& self.s.defines(self.table.entries_ptr)
        &&& self.s.defines(self.table.states_ptr)
        &&& self.s.defines(self.table.length)
        &&& self.s.defines(self.table.capacity)
        &&& self.s.defines(self.probe.pidx)
        &&& self.s.defines(self.probe.s_ptr)
        &&& self.s.defines(self.key)
        &&& read(o, m.results, self.table.entries_ptr) == t.entries
        &&& read(o, m.results, self.table.states_ptr) == t.states
        &&& read(o, m.results, self.table.length) == length
        &&& read(o, m.results, self.table.capacity) == t.capacity
        &&& read(o, m.results, self.probe.pidx) == b
        &&& read(o, m.results, self.probe.s_ptr) == t.states + b
        &&& read(o, m.results, self.key) == key
        &&& self.layout.entry_size == t.entry_size
        &&& value_type(self.layout.key_ty) == t.key_ty
        &&& match self.value {
            Some((ty, value)) => {
                &&& self.s.defines(value)
                &&& self.layout.value_ty == Some(ty)
                &&& 0 <= read(o, m.results, value) < byte_limit(byte_count(o, value_type(ty)))
            },
            None => true,
        }
        &&& m.memory == t.memory
        &&& m.returned is None
        &&& m.at == self.s.log.len()
    }

    /// The value that a map's bucket has got.
    pub open spec fn value_in(
        self,
        c: &EmitContext,
        o: Outside,
        m: Machine,
        t: Buckets,
        b: int,
        end: Memory,
    ) -> bool {
        self.value matches Some((ty, value)) ==> value_put(
            c,
            o,
            ty,
            t,
            b,
            read(o, m.results, value),
            end,
            number(
                end,
                t.entries + b * t.entry_size + self.layout.key_size,
                byte_count(o, value_type(ty)),
            ),
        )
    }
}

/// Whatever was taken is taken, and has changed at most in bucket `b`.
pub open spec fn off_bucket(t: Buckets, b: int, before: Memory, after: Memory) -> bool {
    forall|q: int| #[trigger]
        before.taken.contains(q) ==> after.taken.contains(q) && (of_bucket(t, b, q) || byte(after, q)
            == byte(before, q))
}

/// `y` was made by acquiring `x`, in a memory that differed from that of a
/// table at most in bucket `b`, and whatever was taken for it is there in
/// the end.
pub open spec fn value_put(
    c: &EmitContext,
    o: Outside,
    element: IRType,
    t: Buckets,
    b: int,
    x: int,
    end: Memory,
    y: int,
) -> bool {
    exists|m: Memory, n: Memory| #[trigger]
        clones(c, o, element, m, x, n, y) && off_bucket(t, b, t.memory, m) && news_stay(m, n, end)
}

/// The function has given back the table with bucket `b` filled and one
/// more entry.
pub open spec fn gave_filled(
    c: &EmitContext,
    o: Outside,
    f: Filling,
    m: Machine,
    t: Buckets,
    length: u64,
    b: int,
    key: int,
) -> spec_fn(Machine) -> bool {
    |l: Machine|
        {
            &&& l.returned is Some
            &&& l.returned_parts[0] == t.entries
            &&& l.returned_parts[1] == t.states
            &&& l.returned_parts[2] == length + 1
            &&& l.returned_parts[3] == t.capacity
            &&& occupied_by(o, t, l.memory, b, key)
            &&& f.value_in(c, o, m, t, b, l.memory)
        }
}

/// A store in an entry.
pub proof fn entry_store(o: Outside, t: Buckets, now: Memory, b: int, offset: int, x: int, n: nat)
    requires
        laid_out(o, t),
        all_held(t),
        0 <= b < t.capacity,
        0 <= offset,
        offset + n <= t.entry_size,
        0 <= x < byte_limit(n),
        grows_but(t.memory, now, t.entries + b * t.entry_size, t.entry_size as int),
    ensures
        ({
            let p = t.entries + b * t.entry_size;
            let after = stored(now, p + offset, x, n);
            &&& grows_but(t.memory, after, p, t.entry_size as int)
            &&& number(after, p + offset, n) == x
            &&& after.taken == now.taken
            &&& forall|q: int|
                0 <= q <= u64::MAX && !(p + offset <= q < p + offset + n) ==> #[trigger] byte(after, q)
                    == byte(now, q)
        }),
{
    entry_address(t, b);
    let p = t.entries + b * t.entry_size;
    store_is_read_back(now, p + offset, x, n);
    stored_elsewhere(now, p + offset, x, n);
    let after = stored(now, p + offset, x, n);
    assert forall|q: int| #[trigger] t.memory.taken.contains(q) implies after.taken.contains(q) && (p <= q
        < p + t.entry_size || byte(after, q) == byte(t.memory, q)) by {
        assert(now.taken.contains(q));
    }
    assert forall|x: int, k: int|
        t.memory.blocks.contains_pair(x, k) implies #[trigger] after.blocks.contains_pair(x, k) by {
        assert(now.blocks.contains_pair(x, k));
    }
}

/// Growing keeps what was kept outside an entry.
pub proof fn entry_grows(o: Outside, t: Buckets, now: Memory, after: Memory, b: int)
    requires
        grows_but(t.memory, now, t.entries + b * t.entry_size, t.entry_size as int),
        grows(now, after),
    ensures
        grows_but(t.memory, after, t.entries + b * t.entry_size, t.entry_size as int),
{
    let p = t.entries + b * t.entry_size;
    assert forall|q: int| #[trigger] t.memory.taken.contains(q) implies after.taken.contains(q) && (p <= q
        < p + t.entry_size || byte(after, q) == byte(t.memory, q)) by {
        assert(now.taken.contains(q));
    }
    assert forall|x: int, k: int|
        t.memory.blocks.contains_pair(x, k) implies #[trigger] after.blocks.contains_pair(x, k) by {
        assert(now.blocks.contains_pair(x, k));
    }
}

/// The key is acquired and put in.
pub proof fn key_put_runs(
    c: &EmitContext,
    code: Code,
    o: Outside,
    f: Filling,
    m: Machine,
    t: Buckets,
    length: u64,
    b: int,
    key: int,
) -> (l: Machine)
    requires
        begins_as(code, f.keyed(c)),
        f.keyed(c).log.len() < code.log.len(),
        code.log[f.keyed(c).log.len() as int].block == f.s.cur,
        f.works_on(o, m, t, length, b, key),
        acquires_entries(c, o, f.layout),
        laid_out(o, t),
        all_held(t),
        0 <= b < t.capacity,
        0 <= key < byte_limit(byte_count(o, t.key_ty)),
    ensures
        behind(code, o, f.s, f.keyed(c), m, l),
        ({
            let p = t.entries + b * t.entry_size;
            &&& read(o, l.results, f.s.v(1)) == p
            &&& grows_but(t.memory, l.memory, p, t.entry_size as int)
            &&& number(l.memory, p, byte_count(o, t.key_ty)) == key
        }),
{
    let p = t.entries + b * t.entry_size;
    let e = f.placed();
    let (k, owned) = f.owned_key(c);
    let whole = f.keyed(c);
    entry_address(t, b);
    assert(k.log.is_prefix_of(whole.log));
    assert(e.log.is_prefix_of(k.log));
    log_begins_further(code.log, whole.log, k.log);
    log_begins_further(code.log, k.log, e.log);
    assert(code.log[k.log.len() as int] == whole.log[k.log.len() as int]);
    assert(code.log[e.log.len() as int].block == f.s.cur) by {
        if e.log.len() < k.log.len() {
            assert(code.log[e.log.len() as int] == k.log[e.log.len() as int]);
        }
    }
    multiplies(m, code, o, f.probe.pidx, num(t.entry_size));
    let m1 = m.step(code, o);
    assert(m1.results[m.at as usize] == b * t.entry_size);
    moves(m1, code, o, f.table.entries_ptr, f.s.v(0));
    let m2 = m1.step(code, o);
    address_in_range(p);
    assert(m2.results[(m.at + 1) as usize] == p);
    let m3 = acquire_value_runs(c, code, o, e, m2, f.layout.key_ty, f.key);
    entry_grows(o, t, t.memory, m3.memory, b);
    assert(read(o, m3.results, f.s.v(1)) == p);
    stores(m3, code, o, t.key_ty, owned, f.s.v(1));
    entry_store(o, t, m3.memory, b, 0, key, byte_count(o, t.key_ty));
    m3.step(code, o)
}

/// The value is acquired and put in behind the key.
proof fn value_put_runs(
    c: &EmitContext,
    code: Code,
    o: Outside,
    f: Filling,
    m: Machine,
    l: Machine,
    t: Buckets,
    length: u64,
    b: int,
    key: int,
) -> (r: Machine)
    requires
        f.value is Some,
        begins_as(code, f.filled(c)),
        f.filled(c).log.len() < code.log.len(),
        code.log[f.filled(c).log.len() as int].block == f.s.cur,
        f.works_on(o, m, t, length, b, key),
        acquires_entries(c, o, f.layout),
        laid_out(o, t),
        all_held(t),
        0 <= b < t.capacity,
        behind(code, o, f.s, f.keyed(c), m, l),
        ({
            let p = t.entries + b * t.entry_size;
            &&& read(o, l.results, f.s.v(1)) == p
            &&& grows_but(t.memory, l.memory, p, t.entry_size as int)
            &&& number(l.memory, p, byte_count(o, t.key_ty)) == key
        }),
    ensures
        behind(code, o, f.s, f.filled(c), m, r),
        ({
            let p = t.entries + b * t.entry_size;
            &&& grows_but(t.memory, r.memory, p, t.entry_size as int)
            &&& number(r.memory, p, byte_count(o, t.key_ty)) == key
            &&& f.value_in(c, o, m, t, b, r.memory)
            &&& f.value_in(
                c,
                o,
                m,
                t,
                b,
                stored(r.memory, t.states + b, STATE_OCCUPIED as int, 1),
            )
        }),
{
    let p = t.entries + b * t.entry_size;
    let n = byte_count(o, t.key_ty);
    let (ty, value) = f.value->0;
    let x = read(o, m.results, value);
    let g = f.value_placed(c);
    let keyed = f.keyed(c);
    let (v, owned) = acquire_value_code(c, g, ty, value);
    let whole = f.filled(c);
    entry_address(t, b);
    assert(v.log.is_prefix_of(whole.log));
    assert(g.log.is_prefix_of(v.log));
    log_begins_further(code.log, whole.log, v.log);
    log_begins_further(code.log, v.log, g.log);
    assert(code.log[keyed.log.len() as int] == g.log[keyed.log.len() as int]);
    assert(code.log[v.log.len() as int] == whole.log[v.log.len() as int]);
    assert(code.log[g.log.len() as int].block == f.s.cur) by {
        if g.log.len() < v.log.len() {
            assert(code.log[g.log.len() as int] == v.log[g.log.len() as int]);
        }
    }
    moves(l, code, o, f.s.v(1), num(f.layout.key_size));
    let m1 = l.step(code, o);
    address_in_range(p + f.layout.key_size);
    assert(read(o, m1.results, keyed.v(0)) == p + f.layout.key_size);
    assert(read(o, m1.results, value) == x);
    let m2 = acquire_value_runs(c, code, o, g, m1, ty, value);
    let y = read(o, m2.results, owned);
    entry_grows(o, t, l.memory, m2.memory, b);
    assert forall|j: int| 0 <= j < n implies #[trigger] byte(m2.memory, p + j) == byte(l.memory, p + j) by {
        assert(t.memory.taken.contains(p + j));
        assert(l.memory.taken.contains(p + j));
    }
    number_of_bytes(m2.memory, p, l.memory, p, n);
    assert(read(o, m2.results, keyed.v(0)) == p + f.layout.key_size);
    clone_fits(c, o, ty, l.memory, x, m2.memory, y);
    stores(m2, code, o, value_type(ty), owned, keyed.v(0));
    let r = m2.step(code, o);
    entry_store(
        o,
        t,
        m2.memory,
        b,
        f.layout.key_size as int,
        y,
        byte_count(o, value_type(ty)),
    );
    number_of_bytes(r.memory, p, m2.memory, p, n);
    value_is_put(c, o, ty, t, b, x, y, l.memory, m2.memory, r.memory, f.layout.key_size as int);
    r
}

/// The value is where it was put, and whatever was taken for it is there.
pub proof fn value_is_put(
    c: &EmitContext,
    o: Outside,
    ty: IRType,
    t: Buckets,
    b: int,
    x: int,
    y: int,
    m: Memory,
    n: Memory,
    r: Memory,
    offset: int,
)
    requires
        clones(c, o, ty, m, x, n, y),
        laid_out(o, t),
        all_held(t),
        0 <= b < t.capacity,
        0 <= offset,
        offset + byte_count(o, value_type(ty)) <= t.entry_size,
        grows_but(t.memory, m, t.entries + b * t.entry_size, t.entry_size as int),
        sound(n),
        r == stored(n, t.entries + b * t.entry_size + offset, y, byte_count(o, value_type(ty))),
        0 <= y < byte_limit(byte_count(o, value_type(ty))),
    ensures
        ({
            let end = stored(r, t.states + b, STATE_OCCUPIED as int, 1);
            let at = t.entries + b * t.entry_size + offset;
            let size = byte_count(o, value_type(ty));
            &&& value_put(c, o, ty, t, b, x, r, number(r, at, size))
            &&& value_put(c, o, ty, t, b, x, end, number(end, at, size))
        }),
{
    let at = t.entries + b * t.entry_size + offset;
    let size = byte_count(o, value_type(ty));
    let end = stored(r, t.states + b, STATE_OCCUPIED as int, 1);
    entry_address(t, b);
    assert((b + 1) * t.entry_size == b * t.entry_size + t.entry_size) by (nonlinear_arith);
    stored_elsewhere(n, at, y, size);
    store_is_read_back(n, at, y, size);
    stored_elsewhere(r, t.states + b, STATE_OCCUPIED as int, 1);
    number_of_bytes(end, at, r, at, size);
    assert forall|q: int| #[trigger]
        n.taken.contains(q) && !m.taken.contains(q) implies r.taken.contains(q) && byte(r, q) == byte(n, q)
        && end.taken.contains(q) && byte(end, q) == byte(n, q) by {
        if at <= q < at + size || q == t.states + b {
            assert(t.memory.taken.contains(q));
        }
    }
    assert(off_bucket(t, b, t.memory, m));
    assert(news_stay(m, n, r) && news_stay(m, n, end));
    assert(clones(c, o, ty, m, x, n, y));
}

/// The state goes to its place, and the bucket is occupied.
pub proof fn state_is_written(o: Outside, t: Buckets, now: Memory, b: int, key: int)
    requires
        laid_out(o, t),
        all_held(t),
        0 <= b < t.capacity,
        number(now, t.entries + b * t.entry_size, byte_count(o, t.key_ty)) == key,
        grows_but(t.memory, now, t.entries + b * t.entry_size, t.entry_size as int),
    ensures
        ({
            let after = stored(now, t.states + b, STATE_OCCUPIED as int, 1);
            &&& occupied_by(o, t, after, b, key)
            &&& forall|q: int|
                0 <= q <= u64::MAX && q != t.states + b ==> #[trigger] byte(after, q) == byte(now, q)
        }),
{
    entry_address(t, b);
    let after = stored(now, t.states + b, STATE_OCCUPIED as int, 1);
    stored_elsewhere(now, t.states + b, STATE_OCCUPIED as int, 1);
    reveal_with_fuel(byte_limit, 2);
    reveal_with_fuel(number, 2);
    store_is_read_back(now, t.states + b, STATE_OCCUPIED as int, 1);
    let p = t.entries + b * t.entry_size;
    number_of_bytes(after, p, now, p, byte_count(o, t.key_ty));
}

/// What a filling records.
pub proof fn filling_shape(c: &EmitContext, f: Filling)
    ensures
        ({
            let whole = f.whole(c);
            let filled = f.filled(c);
            let n = filled.log.len() as int;
            let v = |k: int| Val::At((n + k) as usize);
            let is = |k: int, inst: Inst| whole.log[n + k] == Entry { block: f.s.cur, inst: inst };
            &&& filled.log.is_prefix_of(whole.log)
            &&& f.keyed(c).log.is_prefix_of(filled.log)
            &&& filled.edges == f.s.edges
            &&& f.keyed(c).edges == f.s.edges
            &&& whole.edges == f.s.edges
            &&& f.value is Some ==> filled.log[f.keyed(c).log.len() as int].block == f.s.cur
                && f.keyed(c).log.len() < filled.log.len()
            &&& whole.log.len() == n + 7
            &&& is(0, Inst::Store(LType::I8, num(STATE_OCCUPIED), f.probe.s_ptr))
            &&& is(1, iadd(f.table.length, num(1)))
            &&& is(2, Inst::Insert(LType::Table, Val::Undef, LType::Ptr, f.table.entries_ptr, 0))
            &&& is(3, Inst::Insert(LType::Table, v(2), LType::Ptr, f.table.states_ptr, 1))
            &&& is(4, Inst::Insert(LType::Table, v(3), LType::I64, v(1), 2))
            &&& is(5, Inst::Insert(LType::Table, v(4), LType::I64, f.table.capacity, 3))
            &&& is(6, Inst::Ret(LType::Table, v(5)))
        }),
{
    let filled = f.filled(c);
    let t = filled.i(Inst::Store(LType::I8, num(STATE_OCCUPIED), f.probe.s_ptr)).i(
        iadd(f.table.length, num(1)),
    );
    let longer = TableSnapshot { length: filled.v(1), ..f.table };
    assert(fill_code(c, f.s, f.layout, f.table, f.probe, f.key, f.value) == (t, longer));
}

/// Where a filling begins.
pub proof fn filling_begins(c: &EmitContext, f: Filling)
    ensures
        f.s.log.is_prefix_of(f.whole(c).log),
        f.whole(c).edges == f.s.edges,
        f.s.log.len() < f.whole(c).log.len() <= f.s.log.len() + 20,
        f.whole(c).log[f.s.log.len() as int].block == f.s.cur,
{
    let e = f.placed();
    let k = f.owned_key(c).0;
    let keyed = f.keyed(c);
    let filled = f.filled(c);
    let whole = f.whole(c);
    filling_shape(c, f);
    assert(k.log.is_prefix_of(keyed.log));
    assert(e.log.is_prefix_of(k.log));
    assert(f.s.log.is_prefix_of(e.log));
    log_begins_further(whole.log, filled.log, keyed.log);
    log_begins_further(whole.log, keyed.log, k.log);
    log_begins_further(whole.log, k.log, e.log);
    log_begins_further(whole.log, e.log, f.s.log);
}

/// The code of a filling puts the key, and the value of a map, into the
/// bucket and gives back the table.
pub proof fn filling_runs(
    c: &EmitContext,
    code: Code,
    o: Outside,
    f: Filling,
    m: Machine,
    t: Buckets,
    length: u64,
    b: int,
    key: int,
)
    requires
        f.stands_in(c, code),
        f.works_on(o, m, t, length, b, key),
        acquires_entries(c, o, f.layout),
        laid_out(o, t),
        all_held(t),
        0 <= b < t.capacity,
        length < u64::MAX,
        0 <= key < byte_limit(byte_count(o, t.key_ty)),
    ensures
        m.comes_to(code, o, gave_filled(c, o, f, m, t, length, b, key)),
{
    let p = t.entries + b * t.entry_size;
    let whole = f.whole(c);
    let filled = f.filled(c);
    let keyed = f.keyed(c);
    filling_shape(c, f);
    beginning_stands(code, whole);
    log_begins_further(code.log, whole.log, filled.log);
    log_begins_further(code.log, filled.log, keyed.log);
    assert(begins_as(code, filled) && begins_as(code, keyed));
    assert(code.log[filled.log.len() as int] == whole.log[filled.log.len() as int]);
    assert(code.log[keyed.log.len() as int].block == f.s.cur) by {
        if f.value is Some {
            assert(code.log[keyed.log.len() as int] == filled.log[keyed.log.len() as int]);
        }
    }
    entry_address(t, b);
    let l = key_put_runs(c, code, o, f, m, t, length, b, key);
    let r = if f.value is Some {
        value_put_runs(c, code, o, f, m, l, t, length, b, key)
    } else {
        l
    };
    let end = stored(r.memory, t.states + b, STATE_OCCUPIED as int, 1);
    state_is_written(o, t, r.memory, b, key);
    filling_returns(c, code, o, f, r, m, t, length, b, key);
}

/// From the store of the state on.
proof fn filling_returns(
    c: &EmitContext,
    code: Code,
    o: Outside,
    f: Filling,
    m: Machine,
    first: Machine,
    t: Buckets,
    length: u64,
    b: int,
    key: int,
)
    requires
        f.stands_in(c, code),
        f.works_on(o, first, t, length, b, key),
        laid_out(o, t),
        0 <= b < t.capacity,
        length < u64::MAX,
        behind(code, o, f.s, f.filled(c), first, m),
        ({
            let end = stored(m.memory, t.states + b, STATE_OCCUPIED as int, 1);
            &&& occupied_by(o, t, end, b, key)
            &&& f.value_in(c, o, first, t, b, end)
        }),
        f.filled(c).log.len() >= f.s.log.len(),
    ensures
        m.comes_to(code, o, gave_filled(c, o, f, first, t, length, b, key)),
{
    let n = f.filled(c).log.len() as int;
    let v = |k: int| Val::At((n + k) as usize);
    filling_shape(c, f);
    beginning_stands(code, f.whole(c));
    assert(read(o, m.results, f.probe.s_ptr) == t.states + b);
    stores(m, code, o, LType::I8, num(STATE_OCCUPIED), f.probe.s_ptr);
    let m1 = m.step(code, o);
    assert(read(o, m1.results, f.table.length) == length);
    combines(m1, code, o, BinOp::Add, LType::I64, f.table.length, num(1));
    let m2 = m1.step(code, o);
    assert(m2.results[(n + 1) as usize] == length + 1);
    assert(read(o, m2.results, f.table.entries_ptr) == t.entries);
    inserts(m2, code, o, LType::Table, Val::Undef, LType::Ptr, f.table.entries_ptr, 0);
    let m3 = m2.step(code, o);
    assert(read(o, m3.results, f.table.states_ptr) == t.states);
    inserts(m3, code, o, LType::Table, v(2), LType::Ptr, f.table.states_ptr, 1);
    let m4 = m3.step(code, o);
    inserts(m4, code, o, LType::Table, v(3), LType::I64, v(1), 2);
    let m5 = m4.step(code, o);
    assert(read(o, m5.results, f.table.capacity) == t.capacity);
    inserts(m5, code, o, LType::Table, v(4), LType::I64, f.table.capacity, 3);
    let m6 = m5.step(code, o);
    ends(m6, code, o, LType::Table, v(5));
    arrives(m6.step(code, o), code, o, gave_filled(c, o, f, first, t, length, b, key));
}

} // verus!
