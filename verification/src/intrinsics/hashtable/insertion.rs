//! What `Set.insert` and `Map.put` give back, where acquiring a key keeps
//! its word.

use vstd::prelude::*;
use crate::ctx::EmitContext;
use crate::intrinsics::acquiring::{
    acquire_value_runs, behind, clone_fits, clones, grows_but, grows_further, news_stay,
    release_in_slot_runs, releases_harmlessly, stands_at,
};
use crate::intrinsics::element::{acquire_value_code, release_in_slot_code, Walk};
use crate::intrinsics::hashtable::copying::{
    acquires_entries, alike, body_len, copied_value, copies_in, copy_entry, copy_made, copying_at,
    copying_length, copying_runs, copying_stands, entry_code, entry_kept, holds_copy, made,
    made_are_copies, made_in, off_table, owned, spares_but, value_copied, values_copied, Copying,
};
use crate::intrinsics::hashtable::insert::{
    insert_probe_at, insert_probe_code, map_put_code, set_insert_code, write_front_code,
    InsertProbe,
};
use crate::intrinsics::hashtable::probing::{
    differ_only_at, filled_is_found, filling_keeps_others, filling_makes_it_found, found_at, holds_key,
    in_table, key_calls, power_of_two, receiver, receives_table, stops, Buckets, KeyWords,
};
use crate::intrinsics::hashtable::proper::{
    alike_proper, filling_counts, filling_is_proper, found_tells, held_is_in_table, held_somewhere,
    keys_come_from, keys_reach, lawful,
    lawful_agrees, only_once, proper, proper_holds_once,
};
use crate::intrinsics::hashtable::rehashing::{
    came, hash_agrees, key_fns, of_table, same_entry, same_entry_same_key, words_of, KeyFns,
};
use crate::intrinsics::hashtable::resize::resize_code;
use crate::intrinsics::hashtable::resizing::{
    alike_occupied, chosen, counted, entries_come_from, has_resized, keeps_keys, own_table,
    resized_state, resizing_runs, alike_answers, resizing_stands, sizes_fit, Resizing,
};
use crate::intrinsics::hashtable::settling::{
    insert_probe_stands, settled, settled_at, settles, write_probe_settles, Settling,
};
use crate::intrinsics::hashtable::util::{
    copied, copy_buffers_code, extract_code, extracted, table_struct_code, HashtableLayout, KeyHashOps,
    TableSnapshot, STATE_EMPTY, STATE_OCCUPIED,
};
use crate::intrinsics::hashtable::writing::{
    all_held, entries_apart, entry_address, entry_grows, entry_store, filling_begins,
    filling_is_local, filling_runs, gave_filled, laid_out, occupied_by, of_bucket, off_bucket, value_in,
    value_is_put, value_put, Filling,
};
use crate::intrinsics::list_values::log_begins_further;
use crate::ir::IRType;
use crate::llvm::{gep, num, start, Callee, Code, Entry, Inst, LType, Val};
use crate::memory::{
    address_in_range, byte, byte_limit, heap_calls, none_taken, number, number_of_bytes, sound, starved,
    unless_starved, Memory,
};
use crate::semantics::{
    arrives, beginning_stands, begins_as, begins_further, bit, booted, byte_count, ends, extracts,
    goes_on, inserts, moves, read, seek, seek_finds, stores, tidy, Machine, Outside,
};
use crate::types::value_type;

verus! {

/// The table that a function has given back.
pub open spec fn given_table(l: Machine, t: Buckets) -> Buckets {
    Buckets {
        memory: l.memory,
        entries: l.returned_parts[0] as u64,
        states: l.returned_parts[1] as u64,
        capacity: l.returned_parts[3] as u64,
        ..t
    }
}


/// What a function has given back is a table: it lies in memory and its
/// capacity is a power of two.
pub open spec fn is_table(o: Outside, l: Machine, w: Buckets) -> bool {
    &&& laid_out(o, w)
    &&& power_of_two(w.capacity)
    &&& l.returned_parts[0] == w.entries
    &&& l.returned_parts[1] == w.states
    &&& l.returned_parts[3] == w.capacity
}

/// A receiver that a table method can work on: it lies in memory apart
/// from the method's counter, its capacity is a power of two, it counts
/// its entries, and the sizes that are computed from it are words.
pub open spec fn sound_receiver(o: Outside, t: Buckets, length: int, counter: int) -> bool {
    &&& receives_table(o)
    &&& laid_out(o, t)
    &&& power_of_two(t.capacity)
    &&& owned(o, t, counter)
    &&& counted(t, length)
    &&& sizes_fit(t, length)
}

/// The key that is put in, and the functions of its type.
pub open spec fn sound_key(
    o: Outside,
    ops: KeyHashOps,
    memory: Memory,
    counter: int,
    f: KeyFns,
    key: int,
) -> bool {
    &&& heap_calls(o)
    &&& key_fns(o, ops, memory, counter, f)
    &&& (f.equal)(key, key)
    &&& 0 <= key < byte_limit(byte_count(o, ops.key_basic_ty))
}

/// The place of the first instruction behind the copy.
pub open spec fn behind_copy(c: &EmitContext, layout: HashtableLayout) -> nat {
    24 + body_len(c, layout)
}

/// The copy at the beginning of a write.
pub open spec fn write_copy(c: &EmitContext, layout: HashtableLayout) -> Copying {
    copying_at(c, extract_code(start(), Val::Param(0)), layout, extracted(start()))
}

/// The code of a write up to the entry of an occupied bucket.
#[verifier::opaque]
pub open spec fn write_entry(layout: HashtableLayout) -> Code {
    copy_entry(extract_code(start(), Val::Param(0)), layout, extracted(start()))
}

/// The copy of a write stands in a body, with the code that acquires an
/// entry.
pub open spec fn write_copies(c: &EmitContext, whole: Code, layout: HashtableLayout) -> bool {
    let at = write_copy(c, layout);
    let e = write_entry(layout);
    let acquired = entry_code(c, e, layout, at.v(15));
    &&& at.stands_in(whole)
    &&& e.log.len() == at.n + 16
    &&& begins_as(whole, acquired)
    &&& acquired.log.len() == at.n + 16 + at.body
    &&& acquired.cur == at.b(2)
    &&& whole.log[at.n as int + 16].block == at.b(2)
}

/// The copied table.
pub open spec fn copied_table() -> TableSnapshot {
    TableSnapshot {
        entries_ptr: Val::At(5),
        states_ptr: Val::At(6),
        length: Val::At(2),
        capacity: Val::At(3),
    }
}

/// The load-factor check of a write.
spec fn write_check(c: &EmitContext, layout: HashtableLayout, ops: KeyHashOps) -> Resizing {
    Resizing {
        n: behind_copy(c, layout),
        block: 6,
        from: 5,
        entry_size: layout.entry_size,
        table: copied_table(),
        ops: ops,
    }
}

/// The probe of a write.
spec fn write_probe(c: &EmitContext, layout: HashtableLayout, ops: KeyHashOps) -> Settling {
    let n = behind_copy(c, layout);
    Settling {
        n: n + 47,
        block: 17,
        from: 8,
        layout: layout,
        table: TableSnapshot {
            entries_ptr: Val::At((n + 44) as usize),
            states_ptr: Val::At((n + 45) as usize),
            length: Val::At(2),
            capacity: Val::At((n + 46) as usize),
        },
        key: Val::Param(1),
        ops: ops,
    }
}

/// A write up to the end of its copy.
#[verifier::opaque]
pub open spec fn copied_code(c: &EmitContext, layout: HashtableLayout) -> Code {
    copy_buffers_code(
        c,
        extract_code(start(), Val::Param(0)),
        Walk::Acquire,
        layout,
        extracted(start()),
    )
}

/// A write up to the end of its load-factor check.
#[verifier::opaque]
spec fn resized_code(c: &EmitContext, layout: HashtableLayout, ops: KeyHashOps) -> Code {
    resize_code(copied_code(c, layout), layout, copied_table(), ops)
}

/// A write up to the end of its probe.
#[verifier::opaque]
spec fn probed_code(c: &EmitContext, layout: HashtableLayout, ops: KeyHashOps) -> Code {
    insert_probe_code(
        resized_code(c, layout, ops),
        layout,
        write_probe(c, layout, ops).table,
        Val::Param(1),
        ops,
    )
}

/// The copy of a write.
pub proof fn copied_code_stands(c: &EmitContext, whole: Code, layout: HashtableLayout)
    requires
        begins_as(whole, copied_code(c, layout)),
    ensures
        ({
            let t = copied_code(c, layout);
            &&& tidy(t)
            &&& t.log.len() == behind_copy(c, layout)
            &&& t.blocks == 6
            &&& t.cur == 5
            &&& forall|i: int| 0 <= i < t.log.len() ==> (#[trigger] t.log[i]).block != 5
            &&& forall|i: usize|
                i < 4 ==> #[trigger] t.log[i as int] == (Entry {
                    block: 0,
                    inst: Inst::Extract(LType::Table, Val::Param(0), i),
                })
        }),
        write_copies(c, whole, layout),
{
    reveal(copied_code);
    reveal(write_entry);
    let e = extract_code(start(), Val::Param(0));
    assert(tidy(e));
    copying_stands(c, e, whole, layout, extracted(start()));
    let t = copied_code(c, layout);
    assert forall|i: usize| i < 4 implies #[trigger] t.log[i as int] == (Entry {
        block: 0,
        inst: Inst::Extract(LType::Table, Val::Param(0), i),
    }) by {
        assert(t.log[i as int] == e.log[i as int]);
    }
}

/// The load-factor check leaves what was recorded before it alone.
proof fn resizing_appends(t: Code, layout: HashtableLayout, table: TableSnapshot, ops: KeyHashOps)
    requires
        resize_code(t, layout, table, ops).log.len() <= usize::MAX,
    ensures
        begins_as(resize_code(t, layout, table, ops), t),
{
    let r = resize_code(t, layout, table, ops);
    assert(t.log =~= r.log.subrange(0, t.log.len() as int));
    assert(t.edges =~= r.edges.subrange(0, t.edges.len() as int));
}

/// The load-factor check of a write.
proof fn resized_code_stands(c: &EmitContext, whole: Code, layout: HashtableLayout, ops: KeyHashOps)
    requires
        ({
            let t = copied_code(c, layout);
            &&& tidy(t)
            &&& t.log.len() == behind_copy(c, layout)
            &&& t.blocks == 6
            &&& t.cur == 5
        }),
        begins_as(whole, resized_code(c, layout, ops)),
        whole.log.len() > behind_copy(c, layout) + 47,
        whole.log[behind_copy(c, layout) as int + 47].block == 8,
    ensures
        ({
            let r = resized_code(c, layout, ops);
            &&& tidy(r)
            &&& r.log.len() == behind_copy(c, layout) + 47
            &&& r.blocks == 17
            &&& r.cur == 8
            &&& r.log[behind_copy(c, layout) as int].block == 5
        }),
        write_check(c, layout, ops).stands_in(whole),
{
    reveal(resized_code);
    let t = copied_code(c, layout);
    resizing_stands(t, whole, layout, copied_table(), ops);
    beginning_stands(whole, resized_code(c, layout, ops));
}

/// What comes before the probe of a write comes before everything else.
proof fn probing_appends(c: &EmitContext, layout: HashtableLayout, ops: KeyHashOps)
    requires
        probed_code(c, layout, ops).log.len() <= usize::MAX,
    ensures
        begins_as(probed_code(c, layout, ops), resized_code(c, layout, ops)),
        begins_as(resized_code(c, layout, ops), copied_code(c, layout)),
        probed_code(c, layout, ops).log.len() == resized_code(c, layout, ops).log.len() + 29,
        resized_code(c, layout, ops).log.len() == copied_code(c, layout).log.len() + 47,
        probed_code(c, layout, ops).log[resized_code(c, layout, ops).log.len() as int].block
            == resized_code(c, layout, ops).cur,
        resized_code(c, layout, ops).cur == (copied_code(c, layout).blocks + 2) as usize,
{
    let p = probed_code(c, layout, ops);
    let r = resized_code(c, layout, ops);
    assert(begins_as(p, r) && p.log.len() == r.log.len() + 29 && p.log[r.log.len() as int].block
        == r.cur) by {
        reveal(probed_code);
        assert(r.log =~= p.log.subrange(0, r.log.len() as int));
        assert(r.edges =~= p.edges.subrange(0, r.edges.len() as int));
    }
    assert(begins_as(r, copied_code(c, layout)) && r.log.len() == copied_code(c, layout).log.len()
        + 47 && r.cur == (copied_code(c, layout).blocks + 2) as usize) by {
        reveal(resized_code);
        resizing_appends(copied_code(c, layout), layout, copied_table(), ops);
    }
}

/// The probe of a write.
proof fn probed_code_stands(c: &EmitContext, whole: Code, layout: HashtableLayout, ops: KeyHashOps)
    requires
        ({
            let r = resized_code(c, layout, ops);
            &&& tidy(r)
            &&& r.log.len() == behind_copy(c, layout) + 47
            &&& r.blocks == 17
            &&& r.cur == 8
        }),
        begins_as(whole, probed_code(c, layout, ops)),
    ensures
        tidy(probed_code(c, layout, ops)),
        probed_code(c, layout, ops).blocks == 24,
        forall|i: int|
            0 <= i < behind_copy(c, layout) + 76 ==> (#[trigger] probed_code(c, layout, ops).log[i]).block
                != 20 && probed_code(c, layout, ops).log[i].block != 23,
        write_probe(c, layout, ops).stands_in(whole),
{
    reveal(probed_code);
    let r = resized_code(c, layout, ops);
    let p = probed_code(c, layout, ops);
    insert_probe_stands(r, whole, layout, write_probe(c, layout, ops).table, Val::Param(1), ops);
    assert forall|i: int| 0 <= i < behind_copy(c, layout) + 76 implies (#[trigger] p.log[i]).block != 20
        && p.log[i].block != 23 by {
        if i < r.log.len() {
            assert(p.log[i] == r.log[i]);
            assert(r.log[i].block < 17);
        }
    }
}

/// The front of a write and its probe stand where they were recorded.
proof fn write_stands(c: &EmitContext, whole: Code, layout: HashtableLayout, ops: KeyHashOps)
    requires
        begins_as(whole, probed_code(c, layout, ops)),
    ensures
        probed_code(c, layout, ops).log.len() == behind_copy(c, layout) + 76,
        forall|i: int|
            0 <= i < behind_copy(c, layout) + 76 ==> (#[trigger] whole.log[i]).block != 20
                && whole.log[i].block != 23,
        forall|i: usize|
            i < 4 ==> #[trigger] whole.log[i as int] == (Entry {
                block: 0,
                inst: Inst::Extract(LType::Table, Val::Param(0), i),
            }),
        seek(whole.log, 0, 0) == 0,
        seek(whole.log, 5, 0) == behind_copy(c, layout),
        write_copies(c, whole, layout),
        write_check(c, layout, ops).stands_in(whole),
        write_probe(c, layout, ops).stands_in(whole),
{
    let t = copied_code(c, layout);
    let r = resized_code(c, layout, ops);
    let p = probed_code(c, layout, ops);
    beginning_stands(whole, p);
    probing_appends(c, layout, ops);
    begins_further(whole, p, r);
    begins_further(whole, r, t);
    copied_code_stands(c, whole, layout);
    beginning_stands(whole, t);
    beginning_stands(whole, r);
    assert(whole.log[r.log.len() as int] == p.log[r.log.len() as int]);
    resized_code_stands(c, whole, layout, ops);
    probed_code_stands(c, whole, layout, ops);
    assert forall|i: usize| i < 4 implies #[trigger] whole.log[i as int] == (Entry {
        block: 0,
        inst: Inst::Extract(LType::Table, Val::Param(0), i),
    }) by {
        assert(whole.log[i as int] == t.log[i as int]);
    }
    assert(whole.log[0usize as int].block == 0);
    seek_finds(whole.log, 0, 0, 0);
    assert forall|i: int| 0 <= i < behind_copy(c, layout) implies (#[trigger] whole.log[i]).block
        != 5 by {
        assert(whole.log[i] == t.log[i]);
    }
    assert(whole.log[behind_copy(c, layout) as int] == r.log[behind_copy(c, layout) as int]);
    seek_finds(whole.log, 5, 0, behind_copy(c, layout));
    assert forall|i: int| 0 <= i < behind_copy(c, layout) + 76 implies (#[trigger] whole.log[i]).block
        != 20 && whole.log[i].block != 23 by {
        assert(whole.log[i] == p.log[i]);
    }
}

/// A key is in a map with a value: every bucket that holds it has the
/// value.
pub open spec fn has_value(
    o: Outside,
    t: Buckets,
    layout: HashtableLayout,
    ty: LType,
    k: KeyWords,
    v: int,
) -> bool {
    &&& in_table(o, t, k)
    &&& forall|b: int|
        0 <= b < t.capacity && #[trigger] holds_key(o, t, k, b) ==> value_in(o, t, layout, ty, b) == v
}

/// A key is in a map with copies of a value: every bucket that holds it has
/// one.
pub open spec fn has_copy(
    o: Outside,
    t: Buckets,
    layout: HashtableLayout,
    ty: LType,
    k: KeyWords,
    copies: spec_fn(int, int) -> bool,
    v: int,
) -> bool {
    &&& in_table(o, t, k)
    &&& forall|b: int|
        0 <= b < t.capacity && #[trigger] holds_key(o, t, k, b) ==> copies(
            v,
            value_in(o, t, layout, ty, b),
        )
}

/// Every key that is in one map with a value is in another with a copy of
/// that value.
spec fn keeps_values(
    o: Outside,
    t: Buckets,
    w: Buckets,
    f: KeyFns,
    layout: HashtableLayout,
    copies: spec_fn(int, int) -> bool,
) -> bool {
    layout.value_ty matches Some(value_ty) ==> forall|key: int, v: int|
        hash_agrees(f, key) && #[trigger] has_value(
            o,
            t,
            layout,
            value_type(value_ty),
            words_of(f, key),
            v,
        ) ==> has_copy(o, w, layout, value_type(value_ty), words_of(f, key), copies, v)
}

/// No key is equal to both.
pub open spec fn keys_apart(f: KeyFns, a: int, b: int) -> bool {
    forall|x: int| #[trigger] (f.equal)(a, x) ==> !(f.equal)(b, x)
}

/// The value of a bucket is that of the bucket that its entry came from.
pub proof fn same_entry_same_value(
    o: Outside,
    t: Buckets,
    b: int,
    u: Buckets,
    j: int,
    layout: HashtableLayout,
    ty: LType,
)
    requires
        laid_out(o, t),
        laid_out(o, u),
        u.entry_size == t.entry_size,
        0 <= b < t.capacity,
        0 <= j < u.capacity,
        layout.key_size + byte_count(o, ty) <= t.entry_size,
        same_entry(t, b, u, j),
    ensures
        value_in(o, u, layout, ty, j) == value_in(o, t, layout, ty, b),
{
    entry_address(t, b);
    entry_address(u, j);
    let (p, q) = (u.entries + j * u.entry_size, t.entries + b * t.entry_size);
    let n = byte_count(o, ty);
    assert forall|x: int| 0 <= x < n implies #[trigger] byte(u.memory, p + layout.key_size + x) == byte(
        t.memory,
        q + layout.key_size + x,
    ) by {
        assert(byte(u.memory, p + (layout.key_size + x)) == byte(t.memory, q + (layout.key_size + x)));
    }
    number_of_bytes(u.memory, p + layout.key_size, t.memory, q + layout.key_size, n);
}

/// The values of a map reach the table that its copy was moved into.
proof fn values_reach(
    o: Outside,
    t: Buckets,
    u: Buckets,
    w: Buckets,
    f: KeyFns,
    layout: HashtableLayout,
    copies: spec_fn(int, int) -> bool,
)
    requires
        laid_out(o, u),
        laid_out(o, w),
        w.entry_size == u.entry_size,
        w.key_ty == u.key_ty,
        layout.entry_size == u.entry_size,
        layout.value_ty matches Some(ty) ==> layout.key_size + byte_count(o, value_type(ty))
            <= layout.entry_size,
        alike(o, t, u),
        values_copied(o, layout, copies, t, u, t.capacity as int),
        entries_come_from(u, w),
        keeps_keys(o, t, w, f),
    ensures
        keeps_values(o, t, w, f, layout, copies),
{
    if let Some(value_ty) = layout.value_ty {
        let ty = value_type(value_ty);
        assert forall|key: int, v: int|
            hash_agrees(f, key) && #[trigger] has_value(o, t, layout, ty, words_of(f, key), v) implies has_copy(
            o,
            w,
            layout,
            ty,
            words_of(f, key),
            copies,
            v,
        ) by {
            let k = words_of(f, key);
            assert forall|j: int| 0 <= j < w.capacity && #[trigger] holds_key(o, w, k, j) implies copies(
                v,
                value_in(o, w, layout, ty, j),
            ) by {
                assert(came(u, w, u.capacity as int, j));
                let b = choose|b: int|
                    0 <= b < u.capacity && u.state(b) == STATE_OCCUPIED && #[trigger] same_entry(
                        u,
                        b,
                        w,
                        j,
                    );
                same_entry_same_key(o, u, b, w, j);
                same_entry_same_value(o, u, b, w, j, layout, ty);
                assert(u.state(b) == t.state(b) && u.key(o, b) == t.key(o, b));
                assert(holds_key(o, t, k, b));
                assert(value_copied(o, layout, copies, t, u, t.capacity as int, b));
            }
        }
    }
}

/// The setting of a write: the receiver, its length, the counter, the
/// functions of the key type and the key.
pub struct Write {
    pub t: Buckets,
    pub length: int,
    pub counter: int,
    pub f: KeyFns,
    pub key: int,
}

impl Write {
    /// The key with what `hash` and `eq` say of it.
    pub open spec fn words(self) -> KeyWords {
        words_of(self.f, self.key)
    }

    /// The function runs in this setting.
    pub open spec fn holds(self, o: Outside, layout: HashtableLayout, ops: KeyHashOps) -> bool {
        &&& self.t == receiver(o, self.t.memory, layout, ops.key_basic_ty)
        &&& self.length == (o.parts)(0, 2)
        &&& self.counter == (o.values)(Val::Slot(0))
        &&& self.key == (o.values)(Val::Param(1))
        &&& sound_receiver(o, self.t, self.length, self.counter)
        &&& sound_key(o, ops, self.t.memory, self.counter, self.f, self.key)
    }
}

/// The function has given back a table in which the key can be looked up,
/// and every key that could be looked up in the receiver, with at most one
/// more entry. The receiver is as it was. Or an allocation has failed.
pub open spec fn gave_with_key(code: Code, o: Outside, s: Write) -> spec_fn(Machine) -> bool {
    unless_starved(
        code,
        |l: Machine|
            {
                &&& l.returned is Some
                &&& l.returned_parts[2] == s.length || l.returned_parts[2] == s.length + 1
                &&& is_table(o, l, given_table(l, s.t))
                &&& in_table(o, given_table(l, s.t), s.words())
                &&& keeps_keys(o, s.t, given_table(l, s.t), s.f)
                &&& counts_right(o, s, given_table(l, s.t), l.returned_parts[2])
                &&& forall|q: int| #[trigger]
                    of_table(s.t, q) ==> byte(l.memory, q) == byte(s.t.memory, q)
            },
    )
}

/// A key that is in the new table and was not in the receiver is the one
/// that was written.
pub open spec fn adds_no_other(o: Outside, s: Write, w: Buckets) -> bool {
    forall|key: int| #[trigger]
        in_table(o, w, words_of(s.f, key)) ==> in_table(o, s.t, words_of(s.f, key)) || (s.f.equal)(
            key,
            s.key,
        )
}

/// A table counts its entries. If the receiver of a write held every key
/// once, so does the new table, which is longer by one where the key was
/// not there and as long where it was, and has no other key that the
/// receiver has not.
pub open spec fn counts_right(o: Outside, s: Write, w: Buckets, length: int) -> bool {
    &&& counted(w, length)
    &&& lawful(s.f) && proper(o, s.t, s.f) ==> {
        &&& proper(o, w, s.f)
        &&& only_once(o, w, s.words())
        &&& adds_no_other(o, s, w)
        &&& length == if in_table(o, s.t, s.words()) {
            s.length
        } else {
            s.length + 1
        }
    }
}

/// The end of a write leaves a table that counts right.
proof fn write_counts(o: Outside, s: Write, w: Buckets, x: Buckets, stop: nat)
    requires
        0 < w.capacity,
        keeps_keys(o, s.t, w, s.f),
        proper(o, s.t, s.f) ==> proper(o, w, s.f),
        keys_come_from(o, s.t, w),
        counted(w, s.length),
        settles(o, w, s.words(), stop),
        ({
            let b = w.visited(s.words().hash, stop);
            if holds_key(o, w, s.words(), b) {
                alike(o, w, x)
            } else {
                &&& differ_only_at(o, w, x, b)
                &&& x.state(b) == STATE_OCCUPIED
                &&& x.key(o, b) == s.key
            }
        }),
    ensures
        ({
            let b = w.visited(s.words().hash, stop);
            let length = if holds_key(o, w, s.words(), b) {
                s.length
            } else {
                s.length + 1
            };
            counts_right(o, s, x, length)
        }),
{
    let b = w.visited(s.words().hash, stop);
    vstd::arithmetic::div_mod::lemma_mod_bound(s.words().hash + stop, w.capacity as int);
    if holds_key(o, w, s.words(), b) {
        alike_occupied(o, w, x);
    } else {
        filling_counts(o, w, x, b, s.length);
    }
    if lawful(s.f) && proper(o, s.t, s.f) {
        lawful_agrees(s.f, s.key);
        found_tells(o, s.t, w, s.f, s.key, stop);
        if holds_key(o, w, s.words(), b) {
            alike_proper(o, w, x, s.f);
        } else {
            filling_is_proper(o, w, x, s.f, s.key, stop);
        }
        proper_holds_once(o, x, s.f, s.key);
        assert forall|key: int| #[trigger] in_table(o, x, words_of(s.f, key)) implies in_table(
            o,
            s.t,
            words_of(s.f, key),
        ) || (s.f.equal)(key, s.key) by {
            let k = words_of(s.f, key);
            let j = held_somewhere(o, x, k);
            if holds_key(o, w, s.words(), b) || j != b {
                assert(x.state(j) == w.state(j) && x.key(o, j) == w.key(o, j));
                let i = choose|i: int|
                    0 <= i < s.t.capacity && #[trigger] s.t.state(i) == STATE_OCCUPIED && s.t.key(o, i)
                        == w.key(o, j);
                assert(holds_key(o, s.t, k, i));
                held_is_in_table(o, s.t, s.f, key, i);
            }
        }
    }
}

/// The machine has stopped at a bucket of a table of its own that has the
/// receiver's keys, apart from the memory that its values were made in.
spec fn at_bucket(
    c: &EmitContext,
    code: Code,
    o: Outside,
    layout: HashtableLayout,
    ops: KeyHashOps,
    base: Memory,
    l: Machine,
    s: Write,
    w: Buckets,
    stop: nat,
) -> bool {
    let n = behind_copy(c, layout);
    let b = w.visited(s.words().hash, stop);
    &&& w == (Buckets {
        memory: l.memory,
        entries: w.entries,
        states: w.states,
        capacity: w.capacity,
        ..s.t
    })
    &&& laid_out(o, w)
    &&& all_held(w)
    &&& power_of_two(w.capacity)
    &&& none_taken(s.t.memory, w.entries as int, w.capacity * w.entry_size)
    &&& none_taken(s.t.memory, w.states as int, w.capacity as int)
    &&& spares_but(s.t.memory, l.memory, s.counter)
    &&& none_taken(base, w.entries as int, w.capacity * w.entry_size)
    &&& none_taken(base, w.states as int, w.capacity as int)
    &&& spares_but(base, l.memory, s.counter)
    &&& keeps_keys(o, s.t, w, s.f)
    &&& keeps_values(
        o,
        s.t,
        w,
        s.f,
        layout,
        made_in(c, o, layout, s.counter, s.t.memory, base),
    )
    &&& proper(o, s.t, s.f) ==> proper(o, w, s.f)
    &&& keys_come_from(o, s.t, w)
    &&& counted(w, s.length)
    &&& settles(o, w, s.words(), stop)
    &&& l.returned is None
    &&& l.results[2] == s.length
    &&& l.results[(n + 44) as usize] == w.entries
    &&& l.results[(n + 45) as usize] == w.states
    &&& l.results[(n + 46) as usize] == w.capacity
    &&& if holds_key(o, w, s.words(), b) {
        &&& l.at == seek(code.log, 20, 0)
        &&& l.results[(n + 60) as usize] == w.entry(b)
    } else {
        &&& l.at == seek(code.log, 23, 0)
        &&& l.results[(n + 73) as usize] == b
        &&& l.results[(n + 74) as usize] == w.states + b
    }
}

/// The machine has stopped at a bucket, or an allocation has failed.
spec fn at_some_bucket(
    c: &EmitContext,
    code: Code,
    o: Outside,
    layout: HashtableLayout,
    ops: KeyHashOps,
    s: Write,
) -> spec_fn(Machine) -> bool {
    unless_starved(
        code,
        |l: Machine|
            exists|base: Memory, w: Buckets, stop: nat| #[trigger]
                at_bucket(c, code, o, layout, ops, base, l, s, w, stop),
    )
}

/// `hash` and `eq` do on the key what their functions say.
pub proof fn key_is_called(o: Outside, ops: KeyHashOps, s: Write, memory: Memory)
    requires
        key_fns(o, ops, s.t.memory, s.counter, s.f),
        spares_but(s.t.memory, memory, s.counter),
    ensures
        key_calls(o, ops, memory, s.words()),
{
    let k = s.words();
    let one = seq![k.key];
    assert(one.len() == 1 && one[0] == k.key);
    assert forall|other: int|
        (o.calls)(Callee::Function(ops.eq_fn), seq![k.key, other], memory) == (
            bit(#[trigger] (k.equal)(other)) as int,
            memory,
        ) by {
        let two = seq![k.key, other];
        assert(two.len() == 2 && two[0] == k.key && two[1] == other);
    }
}

/// From the check to the bucket.
proof fn write_probes(
    c: &EmitContext,
    code: Code,
    o: Outside,
    layout: HashtableLayout,
    ops: KeyHashOps,
    base: Memory,
    l: Machine,
    m: Machine,
    u: Buckets,
    s: Write,
)
    requires
        write_probe(c, layout, ops).stands_in(code),
        s.holds(o, layout, ops),
        acquires_entries(c, o, layout),
        alike(o, s.t, u),
        values_copied(
            o,
            layout,
            made_in(c, o, layout, s.counter, s.t.memory, base),
            s.t,
            u,
            s.t.capacity as int,
        ),
        spares_but(s.t.memory, base, s.counter),
        laid_out(o, u),
        has_resized(
            o,
            write_check(c, layout, ops),
            l,
            m,
            u,
            s.f,
            base,
            s.counter,
        ),
        m.results[2] == s.length,
    ensures
        l.comes_to(code, o, at_some_bucket(c, code, o, layout, ops, s)),
{
    let n = behind_copy(c, layout);
    let p = write_probe(c, layout, ops);
    let w = chosen(write_check(c, layout, ops), l, u);
    let k = s.words();
    base_reaches(s, base, w);
    key_is_called(o, ops, s, l.memory);
    assert(p.works_on(o, l, w, k));
    write_probe_settles(code, o, p, l, w, k);
    assert(keeps_keys(o, s.t, w, s.f)) by {
        assert forall|key: int|
            hash_agrees(s.f, key) && in_table(o, s.t, words_of(s.f, key)) implies #[trigger] in_table(
            o,
            w,
            words_of(s.f, key),
        ) by {
            alike_answers(o, s.t, u, words_of(s.f, key));
        }
    }
    values_reach(
        o,
        s.t,
        u,
        w,
        s.f,
        layout,
        made_in(c, o, layout, s.counter, s.t.memory, base),
    );
    keys_reach(o, s.t, u, w);
    alike_occupied(o, s.t, u);
    if proper(o, s.t, s.f) {
        alike_proper(o, s.t, u, s.f);
    }
    let half = settled(code, o, p, l, w, k);
    let goal = at_some_bucket(c, code, o, layout, ops, s);
    assert forall|x: Machine| half(x) implies #[trigger] x.comes_to(code, o, goal) by {
        let stop = choose|d: nat| #[trigger] settled_at(code, o, p, l, w, k, x, d);
        let b = w.visited(k.hash, stop);
        vstd::arithmetic::div_mod::lemma_mod_bound(k.hash + stop, w.capacity as int);
        address_in_range(w.states + b);
        assert(x.results[2] == l.results[2]);
        assert(x.results[(n + 44) as usize] == l.results[(n + 44) as usize]);
        assert(x.results[(n + 45) as usize] == l.results[(n + 45) as usize]);
        assert(x.results[(n + 46) as usize] == l.results[(n + 46) as usize]);
        assert(at_bucket(c, code, o, layout, ops, base, x, s, w, stop));
        arrives(x, code, o, goal);
    }
    goes_on(l, code, o, half, goal);
}

/// What is apart from a memory that spares the receiver's is apart from
/// that, and what spares it spares that.
proof fn base_reaches(s: Write, base: Memory, w: Buckets)
    requires
        spares_but(s.t.memory, base, s.counter),
        spares_but(base, w.memory, s.counter),
        none_taken(base, w.entries as int, w.capacity * w.entry_size),
        none_taken(base, w.states as int, w.capacity as int),
    ensures
        spares_but(s.t.memory, w.memory, s.counter),
        none_taken(s.t.memory, w.entries as int, w.capacity * w.entry_size),
        none_taken(s.t.memory, w.states as int, w.capacity as int),
{
    assert forall|q: int| #[trigger] s.t.memory.taken.contains(q) implies base.taken.contains(q) by {}
    assert forall|q: int| #[trigger] s.t.memory.taken.contains(q) implies w.memory.taken.contains(q) && (
    s.counter <= q < s.counter + 8 || byte(w.memory, q) == byte(s.t.memory, q)) by {
        assert(base.taken.contains(q));
    }
}

/// Tables that are alike count alike.
pub proof fn alike_counts(o: Outside, t: Buckets, u: Buckets, length: int)
    requires
        alike(o, t, u),
        counted(t, length),
    ensures
        counted(u, length),
{
    alike_occupied(o, t, u);
}

/// From the copy to the bucket.
proof fn write_resizes(
    c: &EmitContext,
    code: Code,
    o: Outside,
    layout: HashtableLayout,
    ops: KeyHashOps,
    l: Machine,
    m: Machine,
    s: Write,
)
    requires
        write_check(c, layout, ops).stands_in(code),
        write_probe(c, layout, ops).stands_in(code),
        s.holds(o, layout, ops),
        acquires_entries(c, o, layout),
        holds_copy(o, write_copy(c, layout), l, m, s.t),
        values_copied(
            o,
            layout,
            made_in(
                c,
                o,
                layout,
                s.counter,
                s.t.memory,
                off_table(made(write_copy(c, layout), l, s.t)),
            ),
            s.t,
            made(write_copy(c, layout), l, s.t),
            s.t.capacity as int,
        ),
        m.memory == s.t.memory,
        m.results[2] == s.length,
        m.results[3] == s.t.capacity,
        l.at == behind_copy(c, layout),
    ensures
        l.comes_to(code, o, at_some_bucket(c, code, o, layout, ops, s)),
{
    let z = write_check(c, layout, ops);
    let u = made(write_copy(c, layout), l, s.t);
    let base = off_table(u);
    let goal = at_some_bucket(c, code, o, layout, ops, s);
    alike_counts(o, s.t, u, s.length);
    assert(l.results[2] == m.results[2] && l.results[3] == m.results[3]);
    assert(z.works_on(o, l, u, s.length));
    base_is_sound(o, layout, ops, s, u);
    assert(own_table(o, u, base));
    resizing_runs(code, o, z, l, u, s.length, s.f, base, s.counter);
    let half = resized_state(code, o, z, l, u, s.f, base, s.counter);
    assert forall|x: Machine| half(x) implies #[trigger] x.comes_to(code, o, goal) by {
        if starved(code, x) {
            arrives(x, code, o, goal);
        } else {
            write_probes(c, code, o, layout, ops, base, x, l, u, s);
        }
    }
    goes_on(l, code, o, half, goal);
}

/// The memory of a copy without the copy does for the receiver's.
proof fn base_is_sound(o: Outside, layout: HashtableLayout, ops: KeyHashOps, s: Write, u: Buckets)
    requires
        s.holds(o, layout, ops),
        spares_but(s.t.memory, u.memory, s.counter),
        none_taken(s.t.memory, u.entries as int, u.capacity * u.entry_size),
        none_taken(s.t.memory, u.states as int, u.capacity as int),
        sound(u.memory),
    ensures
        ({
            let base = off_table(u);
            &&& sound(base)
            &&& none_taken(base, u.entries as int, u.capacity * u.entry_size)
            &&& none_taken(base, u.states as int, u.capacity as int)
            &&& spares_but(s.t.memory, base, s.counter)
            &&& spares_but(base, u.memory, s.counter)
            &&& key_fns(o, ops, base, s.counter, s.f)
        }),
{
    let base = off_table(u);
    assert forall|q: int| #[trigger] s.t.memory.taken.contains(q) implies base.taken.contains(q) && (
    s.counter <= q < s.counter + 8 || byte(base, q) == byte(s.t.memory, q)) by {
        assert(u.memory.taken.contains(q));
        assert(!of_table(u, q));
    }
    assert forall|memory: Memory| #[trigger]
        spares_but(base, memory, s.counter) implies spares_but(s.t.memory, memory, s.counter) by {
        assert forall|q: int| #[trigger] s.t.memory.taken.contains(q) implies memory.taken.contains(q) && (
        s.counter <= q < s.counter + 8 || byte(memory, q) == byte(s.t.memory, q)) by {
            assert(base.taken.contains(q));
        }
    }
}

/// A write comes to the bucket that its key belongs to, in a table of its
/// own that has the receiver's keys.
proof fn write_comes_to_bucket(
    c: &EmitContext,
    code: Code,
    o: Outside,
    layout: HashtableLayout,
    ops: KeyHashOps,
    s: Write,
)
    requires
        acquires_entries(c, o, layout),
        value_type(layout.key_ty) == ops.key_basic_ty,
        begins_as(code, probed_code(c, layout, ops)),
        s.holds(o, layout, ops),
    ensures
        booted(code, s.t.memory).comes_to(code, o, at_some_bucket(c, code, o, layout, ops, s)),
{
    let cp = write_copy(c, layout);
    let goal = at_some_bucket(c, code, o, layout, ops, s);
    write_stands(c, code, layout, ops);
    assert(code.log[0usize as int].inst is Extract && code.log[1usize as int].inst is Extract);
    assert(code.log[2usize as int].inst is Extract && code.log[3usize as int].inst is Extract);
    let m0 = booted(code, s.t.memory);
    extracts(m0, code, o, LType::Table, 0, 0);
    let m1 = m0.step(code, o);
    extracts(m1, code, o, LType::Table, 0, 1);
    let m2 = m1.step(code, o);
    extracts(m2, code, o, LType::Table, 0, 2);
    let m3 = m2.step(code, o);
    extracts(m3, code, o, LType::Table, 0, 3);
    let m4 = m3.step(code, o);
    assert(cp.works_on(o, m4, s.t));
    copying_runs(c, code, o, cp, layout, write_entry(layout), m4, s.t);
    let half = copy_made(c, code, o, cp, layout, m4, s.t);
    assert forall|x: Machine| half(x) implies #[trigger] x.comes_to(code, o, goal) by {
        if starved(code, x) {
            arrives(x, code, o, goal);
        } else {
            write_resizes(c, code, o, layout, ops, x, m4, s);
        }
    }
    goes_on(m4, code, o, half, goal);
}

/// How long a write is up to the end of its copy.
pub proof fn copied_length(c: &EmitContext, layout: HashtableLayout)
    ensures
        copied_code(c, layout).log.len() == behind_copy(c, layout),
        copied_code(c, layout).blocks == 6,
{
    reveal(copied_code);
    copying_length(c, extract_code(start(), Val::Param(0)), layout, extracted(start()));
}

/// The front of a write is the code up to its probe.
proof fn front_is_resized(c: &EmitContext, layout: HashtableLayout, ops: KeyHashOps)
    ensures
        write_front_code(c, start(), layout, ops) == (
            resized_code(c, layout, ops),
            write_probe(c, layout, ops).table,
        ),
        resized_code(c, layout, ops).log.len() == behind_copy(c, layout) + 47,
        resized_code(c, layout, ops).blocks == 17,
        resized_code(c, layout, ops).cur == 8,
        insert_probe_code(
            resized_code(c, layout, ops),
            layout,
            write_probe(c, layout, ops).table,
            Val::Param(1),
            ops,
        ) == probed_code(c, layout, ops),
{
    copied_length(c, layout);
    assert(write_front_code(c, start(), layout, ops) == (
        resized_code(c, layout, ops),
        write_probe(c, layout, ops).table,
    )) by {
        reveal(copied_code);
        reveal(resized_code);
        assert(copied(extract_code(start(), Val::Param(0)), extracted(start())) == copied_table());
    }
    assert(resized_code(c, layout, ops).log.len() == behind_copy(c, layout) + 47 && resized_code(
        c,
        layout,
        ops,
    ).blocks == 17 && resized_code(c, layout, ops).cur == 8) by {
        reveal(resized_code);
    }
    reveal(probed_code);
}

/// Giving back a table as it is.
spec fn give_back(p: Code, table: TableSnapshot) -> Code {
    let q = table_struct_code(p, table);
    q.i(Inst::Ret(LType::Table, p.v(3)))
}

/// A table that is given back, instruction by instruction.
spec fn return_stands(code: Code, n: int, block: usize, table: TableSnapshot) -> bool {
    let at = |k: int| Val::At((n + k) as usize);
    let is = |k: int, inst: Inst| code.log[n + k] == Entry { block: block, inst: inst };
    &&& n + 5 <= code.log.len() <= usize::MAX
    &&& is(0, Inst::Insert(LType::Table, Val::Undef, LType::Ptr, table.entries_ptr, 0))
    &&& is(1, Inst::Insert(LType::Table, at(0), LType::Ptr, table.states_ptr, 1))
    &&& is(2, Inst::Insert(LType::Table, at(1), LType::I64, table.length, 2))
    &&& is(3, Inst::Insert(LType::Table, at(2), LType::I64, table.capacity, 3))
    &&& is(4, Inst::Ret(LType::Table, at(3)))
}

/// The function has given back this table.
spec fn gave_this(l: Machine, m: Machine, w: Buckets, length: int) -> bool {
    &&& l.returned is Some
    &&& l.returned_parts[0] == w.entries
    &&& l.returned_parts[1] == w.states
    &&& l.returned_parts[2] == length
    &&& l.returned_parts[3] == w.capacity
    &&& l.memory == m.memory
}

proof fn return_runs(
    c: &EmitContext,
    code: Code,
    o: Outside,
    m: Machine,
    block: usize,
    layout: HashtableLayout,
    ops: KeyHashOps,
    w: Buckets,
    length: int,
    goal: spec_fn(Machine) -> bool,
)
    requires
        return_stands(code, m.at as int, block, write_probe(c, layout, ops).table),
        m.returned is None,
        m.at >= behind_copy(c, layout) + 47,
        ({
            let n = behind_copy(c, layout);
            &&& m.results[2] == length
            &&& m.results[(n + 44) as usize] == w.entries
            &&& m.results[(n + 45) as usize] == w.states
            &&& m.results[(n + 46) as usize] == w.capacity
        }),
        forall|l: Machine| gave_this(l, m, w, length) ==> #[trigger] goal(l),
    ensures
        m.comes_to(code, o, goal),
{
    let table = write_probe(c, layout, ops).table;
    let at = |k: int| Val::At((m.at + k) as usize);
    inserts(m, code, o, LType::Table, Val::Undef, LType::Ptr, table.entries_ptr, 0);
    let m1 = m.step(code, o);
    inserts(m1, code, o, LType::Table, at(0), LType::Ptr, table.states_ptr, 1);
    let m2 = m1.step(code, o);
    inserts(m2, code, o, LType::Table, at(1), LType::I64, table.length, 2);
    let m3 = m2.step(code, o);
    inserts(m3, code, o, LType::Table, at(2), LType::I64, table.capacity, 3);
    let m4 = m3.step(code, o);
    ends(m4, code, o, LType::Table, at(3));
    let end = m4.step(code, o);
    assert(gave_this(end, m, w, length));
    arrives(end, code, o, goal);
}

/// The probe of a write, as its end sees it.
spec fn probe_results(c: &EmitContext, layout: HashtableLayout) -> InsertProbe {
    let n = behind_copy(c, layout);
    InsertProbe {
        e_ptr: Val::At((n + 60) as usize),
        insert_bb: 23,
        pidx: Val::At((n + 73) as usize),
        s_ptr: Val::At((n + 74) as usize),
        update_bb: 20,
    }
}

/// The filling of a `Set.insert` behind the code up to its probe.
spec fn set_filling(c: &EmitContext, p: Code, layout: HashtableLayout, ops: KeyHashOps) -> Filling {
    let table = write_probe(c, layout, ops).table;
    Filling {
        s: give_back(p.at(20), table).at(23),
        layout: layout,
        table: table,
        probe: probe_results(c, layout),
        key: Val::Param(1),
        value: None,
    }
}

/// A `Set.insert` is its front, its probe and its end.
proof fn set_insert_parts(c: &EmitContext, layout: HashtableLayout, ops: KeyHashOps)
    ensures
        set_insert_code(c, start(), layout, ops) == set_filling(
            c,
            probed_code(c, layout, ops),
            layout,
            ops,
        ).whole(c),
{
    front_is_resized(c, layout, ops);
    assert(insert_probe_at(resized_code(c, layout, ops)) == probe_results(c, layout));
}

/// A body that is made like a `Set.insert`, with any code in place of its
/// front and its probe.
spec fn set_end_stands(
    c: &EmitContext,
    code: Code,
    p: Code,
    layout: HashtableLayout,
    ops: KeyHashOps,
) -> bool {
    let n = behind_copy(c, layout);
    &&& begins_as(code, p)
    &&& return_stands(code, n as int + 76, 20, write_probe(c, layout, ops).table)
    &&& set_filling(c, p, layout, ops).stands_in(c, code)
    &&& code.log.len() > n + 81
    &&& code.log[n as int + 81].block == 23
}

/// The end of a `Set.insert` stands behind any code of its length.
proof fn set_end_is_recorded(c: &EmitContext, p: Code, layout: HashtableLayout, ops: KeyHashOps)
    requires
        p.log.len() == behind_copy(c, layout) + 76,
    ensures
        set_end_stands(c, set_filling(c, p, layout, ops).whole(c), p, layout, ops),
{
    let f = set_filling(c, p, layout, ops);
    let code = f.whole(c);
    let n = behind_copy(c, layout) as int;
    body_is_short(c, layout);
    filling_begins(c, f);
    assert(f.s.log.len() == n + 81);
    assert(p.log.is_prefix_of(f.s.log));
    log_begins_further(code.log, f.s.log, p.log);
    assert(p.edges =~= code.edges.subrange(0, p.edges.len() as int));
}

/// Acquiring an entry takes few instructions.
proof fn body_is_short(c: &EmitContext, layout: HashtableLayout)
    ensures
        behind_copy(c, layout) <= 64,
{
}

/// Where the blocks of the end of a `Set.insert` begin.
proof fn set_end_seeks(c: &EmitContext, code: Code, layout: HashtableLayout, ops: KeyHashOps)
    requires
        set_end_stands(c, code, probed_code(c, layout, ops), layout, ops),
    ensures
        seek(code.log, 20, 0) == behind_copy(c, layout) + 76,
        seek(code.log, 23, 0) == behind_copy(c, layout) + 81,
{
    let n = behind_copy(c, layout);
    write_stands(c, code, layout, ops);
    seek_finds(code.log, 20, 0, n + 76);
    assert forall|i: int| 0 <= i < n + 81 implies (#[trigger] code.log[i]).block != 23 by {
        if i >= n + 76 {
            assert(i == n + 76 || i == n + 77 || i == n + 78 || i == n + 79 || i == n + 80);
        }
    }
    seek_finds(code.log, 23, 0, n + 81);
}

/// How long the code up to the probe of a write is.
proof fn probed_length(c: &EmitContext, layout: HashtableLayout, ops: KeyHashOps)
    ensures
        probed_code(c, layout, ops).log.len() == behind_copy(c, layout) + 76,
{
    front_is_resized(c, layout, ops);
}

/// What a write must come to, from the bucket on.
proof fn found_again(o: Outside, s: Write, w: Buckets, x: Buckets, stop: nat)
    requires
        laid_out(o, w),
        all_held(w),
        settles(o, w, s.words(), stop),
        keeps_keys(o, s.t, w, s.f),
        ({
            let b = w.visited(s.words().hash, stop);
            if holds_key(o, w, s.words(), b) {
                x == w
            } else {
                &&& occupied_by(o, w, x.memory, b, s.key)
                &&& x == (Buckets { memory: x.memory, ..w })
            }
        }),
        (s.f.equal)(s.key, s.key),
    ensures
        in_table(o, x, s.words()),
        keeps_keys(o, s.t, x, s.f),
{
    let k = s.words();
    let b = w.visited(k.hash, stop);
    vstd::arithmetic::div_mod::lemma_mod_bound(k.hash + stop, w.capacity as int);
    if holds_key(o, w, k, b) {
        assert forall|e: nat| e <= stop implies w.state(#[trigger] w.visited(k.hash, e))
            != STATE_EMPTY by {
            if e < stop {
                assert(!stops(o, w, k, false, w.visited(k.hash, e)));
            }
        }
        assert(holds_key(o, w, k, w.visited(k.hash, stop)));
    } else {
        filling_is_local(o, w, x.memory, b, s.key);
        filling_makes_it_found(o, w, x, k, stop);
        assert forall|key: int|
            hash_agrees(s.f, key) && in_table(o, s.t, words_of(s.f, key)) implies #[trigger] in_table(
            o,
            x,
            words_of(s.f, key),
        ) by {
            assert(in_table(o, w, words_of(s.f, key)));
            filling_keeps_others(o, w, x, b, words_of(s.f, key));
        }
    }
}

/// The receiver of a write is as it was.
proof fn receiver_is_kept(
    o: Outside,
    layout: HashtableLayout,
    ops: KeyHashOps,
    s: Write,
    w: Buckets,
    end: Memory,
    b: int,
)
    requires
        s.holds(o, layout, ops),
        spares_but(s.t.memory, w.memory, s.counter),
        laid_out(o, w),
        0 <= b < w.capacity,
        none_taken(s.t.memory, w.entries as int, w.capacity * w.entry_size),
        none_taken(s.t.memory, w.states as int, w.capacity as int),
        forall|q: int| #[trigger]
            w.memory.taken.contains(q) ==> of_bucket(w, b, q) || byte(end, q) == byte(w.memory, q),
    ensures
        forall|q: int| #[trigger] of_table(s.t, q) ==> byte(end, q) == byte(s.t.memory, q),
{
    entry_address(w, b);
    assert forall|q: int| #[trigger] of_table(s.t, q) implies byte(end, q) == byte(
        s.t.memory,
        q,
    ) by {
        assert(s.t.memory.taken.contains(q));
        assert(w.memory.taken.contains(q));
        assert(!of_bucket(w, b, q));
    }
}

/// `Set.insert` gives back a set that has the item and every item of its
/// receiver, and leaves the receiver as it was. If the receiver held every
/// item once, so does the new set, and it is no longer where the item was
/// there.
pub proof fn insert_adds_the_item(
    c: &EmitContext,
    o: Outside,
    layout: HashtableLayout,
    ops: KeyHashOps,
    s: Write,
)
    requires
        acquires_entries(c, o, layout),
        layout.value_ty is None,
        value_type(layout.key_ty) == ops.key_basic_ty,
        s.holds(o, layout, ops),
    ensures
        ({
            let code = set_insert_code(c, start(), layout, ops);
            booted(code, s.t.memory).comes_to(code, o, gave_with_key(code, o, s))
        }),
{
    let p = probed_code(c, layout, ops);
    probed_length(c, layout, ops);
    set_insert_parts(c, layout, ops);
    set_end_is_recorded(c, p, layout, ops);
    insert_runs(c, set_insert_code(c, start(), layout, ops), o, layout, ops, s);
}

/// A body that is made like a `Set.insert` runs like one.
proof fn insert_runs(
    c: &EmitContext,
    code: Code,
    o: Outside,
    layout: HashtableLayout,
    ops: KeyHashOps,
    s: Write,
)
    requires
        acquires_entries(c, o, layout),
        layout.value_ty is None,
        value_type(layout.key_ty) == ops.key_basic_ty,
        s.holds(o, layout, ops),
        set_end_stands(c, code, probed_code(c, layout, ops), layout, ops),
    ensures
        booted(code, s.t.memory).comes_to(code, o, gave_with_key(code, o, s)),
{
    let goal = gave_with_key(code, o, s);
    probed_length(c, layout, ops);
    set_end_seeks(c, code, layout, ops);
    write_comes_to_bucket(c, code, o, layout, ops, s);
    let half = at_some_bucket(c, code, o, layout, ops, s);
    assert forall|l: Machine| half(l) implies #[trigger] l.comes_to(code, o, goal) by {
        if starved(code, l) {
            arrives(l, code, o, goal);
        } else {
            let (base, w, stop) = choose|base: Memory, w: Buckets, stop: nat| #[trigger]
                at_bucket(c, code, o, layout, ops, base, l, s, w, stop);
            set_insert_ends(c, code, o, probed_code(c, layout, ops), layout, ops, base, l, s, w, stop);
        }
    }
    goes_on(booted(code, s.t.memory), code, o, half, goal);
}

/// From the bucket to the end of a `Set.insert`.
proof fn set_insert_ends(
    c: &EmitContext,
    code: Code,
    o: Outside,
    p: Code,
    layout: HashtableLayout,
    ops: KeyHashOps,
    base: Memory,
    l: Machine,
    s: Write,
    w: Buckets,
    stop: nat,
)
    requires
        acquires_entries(c, o, layout),
        layout.value_ty is None,
        value_type(layout.key_ty) == ops.key_basic_ty,
        s.holds(o, layout, ops),
        p.log.len() == behind_copy(c, layout) + 76,
        set_end_stands(c, code, p, layout, ops),
        seek(code.log, 20, 0) == behind_copy(c, layout) + 76,
        seek(code.log, 23, 0) == behind_copy(c, layout) + 81,
        at_bucket(c, code, o, layout, ops, base, l, s, w, stop),
    ensures
        l.comes_to(code, o, gave_with_key(code, o, s)),
{
    let goal = gave_with_key(code, o, s);
    let k = s.words();
    let b = w.visited(k.hash, stop);
    body_is_short(c, layout);
    vstd::arithmetic::div_mod::lemma_mod_bound(k.hash + stop, w.capacity as int);
    if holds_key(o, w, k, b) {
        assert forall|x: Machine| gave_this(x, l, w, s.length) implies #[trigger] goal(x) by {
            assert(given_table(x, s.t) == w);
            found_again(o, s, w, w, stop);
            write_counts(o, s, w, w, stop);
            receiver_is_kept(o, layout, ops, s, w, w.memory, b);
        }
        return_runs(c, code, o, l, 20, layout, ops, w, s.length, goal);
    } else {
        let f = set_filling(c, p, layout, ops);
        let length = s.length as u64;
        assert(f.works_on(o, l, w, length, b, s.key));
        filling_runs(c, code, o, f, l, w, length, b, s.key);
        let half = gave_filled(c, o, f, l, w, length, b, s.key);
        assert forall|x: Machine| half(x) implies #[trigger] x.comes_to(code, o, goal) by {
            let given = given_table(x, s.t);
            assert(given == (Buckets { memory: x.memory, ..w }));
            found_again(o, s, w, given, stop);
            filling_is_local(o, w, x.memory, b, s.key);
            write_counts(o, s, w, given, stop);
            receiver_is_kept(o, layout, ops, s, w, x.memory, b);
            arrives(x, code, o, goal);
        }
        goes_on(l, code, o, half, goal);
    }
}

/// The function has given back a map in which a lookup of the key ends at
/// a copy of the value, with at most one more entry; every other key of the
/// receiver has a copy of its value. The receiver is as it was. Or an
/// allocation has failed.
pub open spec fn gave_with_value(
    c: &EmitContext,
    code: Code,
    o: Outside,
    layout: HashtableLayout,
    value_ty: IRType,
    s: Write,
    value: int,
) -> spec_fn(Machine) -> bool {
    unless_starved(
        code,
        |l: Machine|
            {
                let w = given_table(l, s.t);
                let ty = value_type(value_ty);
                &&& l.returned is Some
                &&& l.returned_parts[2] == s.length || l.returned_parts[2] == s.length + 1
                &&& is_table(o, l, w)
                &&& exists|b: int|
                    0 <= b < w.capacity && #[trigger] found_at(o, w, s.words(), b) && copied_value(
                        c,
                        o,
                        value_ty,
                        s.counter,
                        s.t.memory,
                        value,
                        l.memory,
                        value_in(o, w, layout, ty, b),
                    )
                &&& keeps_keys(o, s.t, w, s.f)
                &&& counts_right(o, s, w, l.returned_parts[2])
                &&& others_keep_values(
                    o,
                    s,
                    w,
                    layout,
                    ty,
                    copies_in(c, o, layout, s.counter, s.t.memory, l.memory),
                )
                &&& forall|q: int| #[trigger]
                    of_table(s.t, q) ==> byte(l.memory, q) == byte(s.t.memory, q)
            },
    )
}

/// A key other than that of a write is in the new map with a copy of the
/// value that it has in the receiver.
pub open spec fn others_keep_values(
    o: Outside,
    s: Write,
    w: Buckets,
    layout: HashtableLayout,
    ty: LType,
    copies: spec_fn(int, int) -> bool,
) -> bool {
    forall|key: int, v: int|
        hash_agrees(s.f, key) && keys_apart(s.f, s.key, key) && #[trigger] has_value(
            o,
            s.t,
            layout,
            ty,
            words_of(s.f, key),
            v,
        ) ==> has_copy(o, w, layout, ty, words_of(s.f, key), copies, v)
}

/// The values of other keys outlast a change of one bucket.
proof fn values_survive(
    o: Outside,
    s: Write,
    w: Buckets,
    x: Buckets,
    b: int,
    layout: HashtableLayout,
    value_ty: IRType,
    made: spec_fn(int, int) -> bool,
    copies: spec_fn(int, int) -> bool,
)
    requires
        layout.value_ty == Some(value_ty),
        laid_out(o, w),
        x == (Buckets { memory: x.memory, ..w }),
        layout.entry_size == w.entry_size,
        layout.key_size + byte_count(o, value_type(value_ty)) <= layout.entry_size,
        keeps_values(o, s.t, w, s.f, layout, made),
        forall|v: int, y: int| #[trigger] made(v, y) ==> copies(v, y),
        keeps_keys(o, s.t, x, s.f),
        differ_only_at(o, w, x, b),
        forall|i: int| 0 <= i < w.capacity && i != b ==> #[trigger] entry_kept(w, x, i),
        (s.f.equal)(s.key, x.key(o, b)),
    ensures
        others_keep_values(o, s, x, layout, value_type(value_ty), copies),
{
    let ty = value_type(value_ty);
    assert forall|key: int, v: int|
        hash_agrees(s.f, key) && keys_apart(s.f, s.key, key) && #[trigger] has_value(
            o,
            s.t,
            layout,
            ty,
            words_of(s.f, key),
            v,
        ) implies has_copy(o, x, layout, ty, words_of(s.f, key), copies, v) by {
        let k = words_of(s.f, key);
        assert(has_copy(o, w, layout, ty, k, made, v));
        assert forall|i: int| 0 <= i < x.capacity && #[trigger] holds_key(o, x, k, i) implies copies(
            v,
            value_in(o, x, layout, ty, i),
        ) by {
            assert(i != b);
            assert(x.state(i) == w.state(i) && x.key(o, i) == w.key(o, i));
            assert(holds_key(o, w, k, i));
            assert(entry_kept(w, x, i));
            assert(same_entry(w, i, x, i));
            same_entry_same_value(o, w, i, x, i, layout, ty);
            assert(made(v, value_in(o, w, layout, ty, i)));
        }
    }
}

/// A change of one bucket spares the memory that values were made in, and
/// what was put in is a copy.
proof fn put_is_copied(
    c: &EmitContext,
    o: Outside,
    layout: HashtableLayout,
    value_ty: IRType,
    base: Memory,
    s: Write,
    w: Buckets,
    end: Memory,
    b: int,
    x: int,
    y: int,
)
    requires
        laid_out(o, w),
        0 <= b < w.capacity,
        spares_but(s.t.memory, w.memory, s.counter),
        none_taken(s.t.memory, w.entries as int, w.capacity * w.entry_size),
        none_taken(s.t.memory, w.states as int, w.capacity as int),
        spares_but(base, w.memory, s.counter),
        none_taken(base, w.entries as int, w.capacity * w.entry_size),
        none_taken(base, w.states as int, w.capacity as int),
        off_bucket(w, b, w.memory, end),
        value_put(c, o, value_ty, w, b, x, end, y),
    ensures
        copied_value(c, o, value_ty, s.counter, s.t.memory, x, end, y),
        forall|v: int, z: int| #[trigger]
            made_in(c, o, layout, s.counter, s.t.memory, base)(v, z) ==> copies_in(
                c,
                o,
                layout,
                s.counter,
                s.t.memory,
                end,
            )(v, z),
{
    entry_address(w, b);
    assert((b + 1) * w.entry_size <= w.capacity * w.entry_size && 0 <= b * w.entry_size)
        by (nonlinear_arith)
        requires
            0 <= b < w.capacity,
            0 <= w.entry_size,
    ;
    assert(spares_but(base, end, s.counter)) by {
        assert forall|q: int| #[trigger] base.taken.contains(q) implies end.taken.contains(q) && (
        s.counter <= q < s.counter + 8 || byte(end, q) == byte(base, q)) by {
            assert(w.memory.taken.contains(q));
            assert(!of_bucket(w, b, q));
        }
    }
    made_are_copies(c, o, layout, s.counter, s.t.memory, base, end);
    let (m, n) = choose|m: Memory, n: Memory| #[trigger]
        clones(c, o, value_ty, m, x, n, y) && off_bucket(w, b, w.memory, m) && news_stay(m, n, end);
    assert(spares_but(s.t.memory, m, s.counter)) by {
        assert forall|q: int| #[trigger] s.t.memory.taken.contains(q) implies m.taken.contains(q) && (
        s.counter <= q < s.counter + 8 || byte(m, q) == byte(s.t.memory, q)) by {
            assert(w.memory.taken.contains(q));
            assert(!of_bucket(w, b, q));
        }
    }
    assert(clones(c, o, value_ty, m, x, n, y));
}

/// A new value over an old one: the old one is released, the new one
/// acquired and stored.
spec fn updated_code(
    c: &EmitContext,
    u: Code,
    layout: HashtableLayout,
    value_ty: IRType,
    entry: Val,
) -> (Code, Code, Code, Val, Code) {
    let g = u.i(gep(entry, num(layout.key_size)));
    let r = release_in_slot_code(c, g, value_ty, u.v(0));
    let (a, owned) = acquire_value_code(c, r, value_ty, Val::Param(2));
    (g, r, a, owned, a.i(Inst::Store(value_type(value_ty), owned, u.v(0))))
}

/// The update of a `Map.put` behind the code up to its probe.
spec fn map_updated(c: &EmitContext, p: Code, layout: HashtableLayout, value_ty: IRType) -> Code {
    updated_code(c, p.at(20), layout, value_ty, probe_results(c, layout).e_ptr).4
}

/// The filling of a `Map.put` behind the code up to its probe.
spec fn map_filling(
    c: &EmitContext,
    p: Code,
    layout: HashtableLayout,
    ops: KeyHashOps,
    value_ty: IRType,
) -> Filling {
    let table = write_probe(c, layout, ops).table;
    Filling {
        s: give_back(map_updated(c, p, layout, value_ty), table).at(23),
        layout: layout,
        table: table,
        probe: probe_results(c, layout),
        key: Val::Param(1),
        value: Some((value_ty, Val::Param(2))),
    }
}

/// A `Map.put` is its front, its probe and its end.
proof fn map_put_parts(c: &EmitContext, layout: HashtableLayout, ops: KeyHashOps, value_ty: IRType)
    ensures
        map_put_code(c, start(), layout, ops, value_ty) == map_filling(
            c,
            probed_code(c, layout, ops),
            layout,
            ops,
            value_ty,
        ).whole(c),
{
    front_is_resized(c, layout, ops);
    assert(insert_probe_at(resized_code(c, layout, ops)) == probe_results(c, layout));
}

/// What an update records.
proof fn update_shape(c: &EmitContext, u: Code, layout: HashtableLayout, value_ty: IRType, entry: Val)
    ensures
        ({
            let (g, r, a, owned, st) = updated_code(c, u, layout, value_ty, entry);
            &&& u.log.is_prefix_of(st.log)
            &&& g.log.is_prefix_of(r.log)
            &&& r.log.is_prefix_of(a.log)
            &&& a.log.is_prefix_of(st.log)
            &&& st.edges == u.edges && a.edges == u.edges && r.edges == u.edges
            &&& st.cur == u.cur && a.cur == u.cur && r.cur == u.cur
            &&& u.log.len() < g.log.len() <= r.log.len() <= a.log.len() < st.log.len() <= u.log.len()
                + 12
            &&& forall|i: int| u.log.len() <= i < st.log.len() ==> (#[trigger] st.log[i]).block == u.cur
        }),
{
    let (g, r, a, owned, st) = updated_code(c, u, layout, value_ty, entry);
    assert(u.log.is_prefix_of(g.log));
    assert(g.log.is_prefix_of(r.log));
    assert(r.log.is_prefix_of(a.log));
    assert(a.log.is_prefix_of(st.log));
    log_begins_further(st.log, a.log, r.log);
    log_begins_further(st.log, r.log, g.log);
    log_begins_further(st.log, g.log, u.log);
}

/// A body that is made like a `Map.put`, with any code in place of its
/// front and its probe.
spec fn map_end_stands(
    c: &EmitContext,
    code: Code,
    p: Code,
    layout: HashtableLayout,
    ops: KeyHashOps,
    value_ty: IRType,
) -> bool {
    let st = map_updated(c, p, layout, value_ty);
    let n = st.log.len() as int;
    &&& begins_as(code, p)
    &&& begins_as(code, st)
    &&& return_stands(code, n, 20, write_probe(c, layout, ops).table)
    &&& map_filling(c, p, layout, ops, value_ty).stands_in(c, code)
    &&& p.log.len() < n
    &&& code.log.len() > n + 5
    &&& code.log[n + 5].block == 23
    &&& forall|i: int| p.log.len() <= i < n ==> (#[trigger] code.log[i]).block == 20
}

/// The end of a `Map.put` stands behind any code of its length.
proof fn map_end_is_recorded(
    c: &EmitContext,
    p: Code,
    layout: HashtableLayout,
    ops: KeyHashOps,
    value_ty: IRType,
)
    requires
        p.log.len() == behind_copy(c, layout) + 76,
    ensures
        map_end_stands(
            c,
            map_filling(c, p, layout, ops, value_ty).whole(c),
            p,
            layout,
            ops,
            value_ty,
        ),
{
    let f = map_filling(c, p, layout, ops, value_ty);
    let code = f.whole(c);
    let st = map_updated(c, p, layout, value_ty);
    let n = st.log.len() as int;
    body_is_short(c, layout);
    update_shape(c, p.at(20), layout, value_ty, probe_results(c, layout).e_ptr);
    filling_begins(c, f);
    assert(f.s.log.len() == n + 5);
    assert(st.log.is_prefix_of(f.s.log));
    log_begins_further(code.log, f.s.log, st.log);
    log_begins_further(code.log, st.log, p.log);
    assert(p.edges =~= code.edges.subrange(0, p.edges.len() as int));
    assert(st.edges =~= code.edges.subrange(0, st.edges.len() as int));
}

/// Where the blocks of the end of a `Map.put` begin.
proof fn map_end_seeks(
    c: &EmitContext,
    code: Code,
    layout: HashtableLayout,
    ops: KeyHashOps,
    value_ty: IRType,
)
    requires
        map_end_stands(c, code, probed_code(c, layout, ops), layout, ops, value_ty),
    ensures
        seek(code.log, 20, 0) == behind_copy(c, layout) + 76,
        seek(code.log, 23, 0) == map_updated(c, probed_code(c, layout, ops), layout, value_ty).log.len()
            + 5,
{
    let p = probed_code(c, layout, ops);
    let n = map_updated(c, p, layout, value_ty).log.len();
    write_stands(c, code, layout, ops);
    seek_finds(code.log, 20, 0, p.log.len());
    assert forall|i: int| 0 <= i < n + 5 implies (#[trigger] code.log[i]).block != 23 by {
        if i >= n {
            assert(i == n || i == n + 1 || i == n + 2 || i == n + 3 || i == n + 4);
        }
    }
    seek_finds(code.log, 23, 0, n + 5);
}

/// Putting a new value over an old one changes no key and no state.
proof fn overwriting_is_local(o: Outside, w: Buckets, end: Memory, b: int)
    requires
        laid_out(o, w),
        all_held(w),
        0 <= b < w.capacity,
        grows_but(w.memory, end, w.entries + b * w.entry_size, w.entry_size as int),
        ({
            let p = w.entries + b * w.entry_size;
            let n = byte_count(o, w.key_ty);
            number(end, p, n) == number(w.memory, p, n)
        }),
    ensures
        ({
            let x = Buckets { memory: end, ..w };
            &&& forall|i: int| 0 <= i < w.capacity ==> #[trigger] x.state(i) == w.state(i)
            &&& forall|i: int| 0 <= i < w.capacity ==> #[trigger] x.key(o, i) == w.key(o, i)
            &&& forall|i: int| 0 <= i < w.capacity && i != b ==> #[trigger] entry_kept(w, x, i)
            &&& forall|q: int| #[trigger]
                w.memory.taken.contains(q) ==> of_bucket(w, b, q) || byte(end, q) == byte(w.memory, q)
        }),
{
    entry_address(w, b);
    let x = Buckets { memory: end, ..w };
    assert forall|i: int| 0 <= i < w.capacity implies #[trigger] x.state(i) == w.state(i) by {
        assert(w.memory.taken.contains(w.states + i));
    }
    assert forall|i: int| 0 <= i < w.capacity implies #[trigger] x.key(o, i) == w.key(o, i) by {
        entry_address(w, i);
        if i != b {
            entries_apart(w, i, b);
            let q = w.entries + i * w.entry_size;
            assert forall|j: int| 0 <= j < byte_count(o, w.key_ty) implies #[trigger] byte(end, q + j)
                == byte(w.memory, q + j) by {
                assert(w.memory.taken.contains(q + j));
            }
            number_of_bytes(end, q, w.memory, q, byte_count(o, w.key_ty));
        }
    }
    assert forall|i: int| 0 <= i < w.capacity && i != b implies #[trigger] entry_kept(w, x, i) by {
        entry_address(w, i);
        entries_apart(w, i, b);
        let q = w.entries + i * w.entry_size;
        assert forall|j: int| 0 <= j < w.entry_size implies #[trigger] byte(end, q + j) == byte(
            w.memory,
            q + j,
        ) by {
            assert(w.memory.taken.contains(q + j));
        }
    }
}

/// A table whose keys and states are those of another answers like it.
proof fn same_keys_same_answers(o: Outside, s: Write, w: Buckets, x: Buckets, stop: nat)
    requires
        laid_out(o, w),
        x == (Buckets { memory: x.memory, ..w }),
        forall|i: int| 0 <= i < w.capacity ==> #[trigger] x.state(i) == w.state(i),
        forall|i: int| 0 <= i < w.capacity ==> #[trigger] x.key(o, i) == w.key(o, i),
        keeps_keys(o, s.t, w, s.f),
        holds_key(o, w, s.words(), w.visited(s.words().hash, stop)),
        settles(o, w, s.words(), stop),
    ensures
        keeps_keys(o, s.t, x, s.f),
        found_at(o, x, s.words(), w.visited(s.words().hash, stop)),
{
    let k = s.words();
    let b = w.visited(k.hash, stop);
    vstd::arithmetic::div_mod::lemma_mod_bound(k.hash + stop, w.capacity as int);
    assert(differ_only_at(o, w, x, b));
    assert(holds_key(o, x, k, b));
    assert(x.visited(k.hash, stop) == b);
    assert forall|e: nat| e < stop implies !stops(o, x, k, false, #[trigger] x.visited(k.hash, e)) by {
        assert(x.visited(k.hash, e) == w.visited(k.hash, e));
        vstd::arithmetic::div_mod::lemma_mod_bound(k.hash + e, w.capacity as int);
        assert(!stops(o, w, k, false, w.visited(k.hash, e)));
    }
    assert forall|key: int|
        hash_agrees(s.f, key) && in_table(o, s.t, words_of(s.f, key)) implies #[trigger] in_table(
        o,
        x,
        words_of(s.f, key),
    ) by {
        let other = words_of(s.f, key);
        assert(in_table(o, w, other));
        let d = choose|d: nat|
            holds_key(o, w, other, #[trigger] w.visited(other.hash, d)) && forall|e: nat|
                e <= d ==> w.state(#[trigger] w.visited(other.hash, e)) != STATE_EMPTY;
        assert forall|e: nat| e <= d implies x.state(#[trigger] x.visited(other.hash, e))
            != STATE_EMPTY by {
            assert(x.visited(other.hash, e) == w.visited(other.hash, e));
            vstd::arithmetic::div_mod::lemma_mod_bound(other.hash + e, w.capacity as int);
        }
        vstd::arithmetic::div_mod::lemma_mod_bound(other.hash + d, w.capacity as int);
        assert(holds_key(o, x, other, x.visited(other.hash, d)));
    }
}

/// A value that is put in, and what releasing another does.
pub open spec fn sound_value(c: &EmitContext, o: Outside, value_ty: IRType) -> bool {
    &&& releases_harmlessly(c, o, value_ty)
    &&& 0 <= (o.values)(Val::Param(2)) < byte_limit(byte_count(o, value_type(value_ty)))
}

/// The machine puts a new value over an old one.
proof fn update_runs(
    c: &EmitContext,
    code: Code,
    o: Outside,
    u: Code,
    layout: HashtableLayout,
    value_ty: IRType,
    entry: Val,
    l: Machine,
    w: Buckets,
    b: int,
) -> (r: Machine)
    requires
        stands_at(code, u, updated_code(c, u, layout, value_ty, entry).4, l),
        u.defines(entry),
        read(o, l.results, entry) == w.entries + b * w.entry_size,
        acquires_entries(c, o, layout),
        layout.value_ty == Some(value_ty),
        layout.entry_size == w.entry_size,
        value_type(layout.key_ty) == w.key_ty,
        sound_value(c, o, value_ty),
        laid_out(o, w),
        all_held(w),
        l.memory == w.memory,
        0 <= b < w.capacity,
    ensures
        behind(code, o, u, updated_code(c, u, layout, value_ty, entry).4, l, r),
        ({
            let p = w.entries + b * w.entry_size;
            let n = byte_count(o, w.key_ty);
            &&& grows_but(w.memory, r.memory, p, w.entry_size as int)
            &&& number(r.memory, p, n) == number(w.memory, p, n)
            &&& value_put(
                c,
                o,
                value_ty,
                w,
                b,
                (o.values)(Val::Param(2)),
                r.memory,
                number(r.memory, p + layout.key_size, byte_count(o, value_type(value_ty))),
            )
        }),
{
    let (g, rel, a, owned, st) = updated_code(c, u, layout, value_ty, entry);
    let p = w.entries + b * w.entry_size;
    let n = byte_count(o, w.key_ty);
    let at = p + layout.key_size;
    let x = (o.values)(Val::Param(2));
    update_shape(c, u, layout, value_ty, entry);
    entry_address(w, b);
    log_begins_further(code.log, st.log, a.log);
    log_begins_further(code.log, a.log, rel.log);
    log_begins_further(code.log, rel.log, g.log);
    assert(begins_as(code, rel) && begins_as(code, a));
    assert(forall|i: int| u.log.len() <= i < st.log.len() ==> (#[trigger] code.log[i]).block == u.cur);
    assert(code.log[u.log.len() as int] == g.log[u.log.len() as int]);
    moves(l, code, o, entry, num(layout.key_size));
    let m1 = l.step(code, o);
    address_in_range(at);
    assert(read(o, m1.results, u.v(0)) == at);
    let m2 = release_in_slot_runs(c, code, o, g, m1, value_ty, u.v(0));
    let m3 = acquire_value_runs(c, code, o, rel, m2, value_ty, Val::Param(2));
    let y = read(o, m3.results, owned);
    grows_further(w.memory, m2.memory, m3.memory);
    entry_grows(o, w, w.memory, m3.memory, b);
    assert(read(o, m2.results, u.v(0)) == at);
    assert(read(o, m3.results, u.v(0)) == at);
    clone_fits(c, o, value_ty, m2.memory, x, m3.memory, y);
    assert(code.log[a.log.len() as int] == st.log[a.log.len() as int]);
    stores(m3, code, o, value_type(value_ty), owned, u.v(0));
    let end = m3.step(code, o);
    assert forall|j: int| 0 <= j < n implies #[trigger] byte(m3.memory, p + j) == byte(w.memory, p + j) by {
        assert(w.memory.taken.contains(p + j));
    }
    number_of_bytes(m3.memory, p, w.memory, p, n);
    entry_store(
        o,
        w,
        m3.memory,
        b,
        layout.key_size as int,
        y,
        byte_count(o, value_type(value_ty)),
    );
    number_of_bytes(end.memory, p, m3.memory, p, n);
    value_is_put(
        c,
        o,
        value_ty,
        w,
        b,
        x,
        y,
        m2.memory,
        m3.memory,
        end.memory,
        layout.key_size as int,
    );
    end
}

/// From the bucket to the end of a `Map.put`.
proof fn map_put_ends(
    c: &EmitContext,
    code: Code,
    o: Outside,
    p: Code,
    layout: HashtableLayout,
    ops: KeyHashOps,
    value_ty: IRType,
    base: Memory,
    l: Machine,
    s: Write,
    w: Buckets,
    stop: nat,
)
    requires
        acquires_entries(c, o, layout),
        layout.value_ty == Some(value_ty),
        value_type(layout.key_ty) == ops.key_basic_ty,
        s.holds(o, layout, ops),
        sound_value(c, o, value_ty),
        p.log.len() == behind_copy(c, layout) + 76,
        map_end_stands(c, code, p, layout, ops, value_ty),
        seek(code.log, 20, 0) == behind_copy(c, layout) + 76,
        seek(code.log, 23, 0) == map_updated(c, p, layout, value_ty).log.len() + 5,
        at_bucket(c, code, o, layout, ops, base, l, s, w, stop),
    ensures
        l.comes_to(
            code,
            o,
            gave_with_value(c, code, o, layout, value_ty, s, (o.values)(Val::Param(2))),
        ),
{
    let n = behind_copy(c, layout);
    let ty = value_type(value_ty);
    let value = (o.values)(Val::Param(2));
    let goal = gave_with_value(c, code, o, layout, value_ty, s, value);
    let made = made_in(c, o, layout, s.counter, s.t.memory, base);
    let k = s.words();
    let b = w.visited(k.hash, stop);
    body_is_short(c, layout);
    vstd::arithmetic::div_mod::lemma_mod_bound(k.hash + stop, w.capacity as int);
    entry_address(w, b);
    if holds_key(o, w, k, b) {
        let entry = probe_results(c, layout).e_ptr;
        let st = map_updated(c, p, layout, value_ty);
        update_shape(c, p.at(20), layout, value_ty, entry);
        let m2 = update_runs(c, code, o, p.at(20), layout, value_ty, entry, l, w, b);
        overwriting_is_local(o, w, m2.memory, b);
        let x = Buckets { memory: m2.memory, ..w };
        assert forall|y: Machine| gave_this(y, m2, x, s.length) implies #[trigger] goal(y) by {
            assert(given_table(y, s.t) == x);
            same_keys_same_answers(o, s, w, x, stop);
            assert(x.key(o, b) == w.key(o, b));
            write_counts(o, s, w, x, stop);
            put_is_copied(
                c,
                o,
                layout,
                value_ty,
                base,
                s,
                w,
                x.memory,
                b,
                value,
                value_in(o, x, layout, ty, b),
            );
            let copies = copies_in(c, o, layout, s.counter, s.t.memory, x.memory);
            values_survive(o, s, w, x, b, layout, value_ty, made, copies);
            receiver_is_kept(o, layout, ops, s, w, x.memory, b);
            assert(found_at(o, x, k, b));
        }
        assert(m2.results[2] == l.results[2]);
        assert(m2.results[(n + 44) as usize] == l.results[(n + 44) as usize]);
        assert(m2.results[(n + 45) as usize] == l.results[(n + 45) as usize]);
        assert(m2.results[(n + 46) as usize] == l.results[(n + 46) as usize]);
        return_runs(c, code, o, m2, 20, layout, ops, x, s.length, goal);
    } else {
        let f = map_filling(c, p, layout, ops, value_ty);
        let length = s.length as u64;
        assert(f.works_on(o, l, w, length, b, s.key));
        filling_runs(c, code, o, f, l, w, length, b, s.key);
        let half = gave_filled(c, o, f, l, w, length, b, s.key);
        assert forall|y: Machine| half(y) implies #[trigger] y.comes_to(code, o, goal) by {
            let given = given_table(y, s.t);
            assert(given == (Buckets { memory: y.memory, ..w }));
            found_again(o, s, w, given, stop);
            filling_is_local(o, w, y.memory, b, s.key);
            filled_is_found(o, w, given, k, stop);
            write_counts(o, s, w, given, stop);
            put_is_copied(
                c,
                o,
                layout,
                value_ty,
                base,
                s,
                w,
                y.memory,
                b,
                value,
                value_in(o, given, layout, ty, b),
            );
            let copies = copies_in(c, o, layout, s.counter, s.t.memory, y.memory);
            values_survive(o, s, w, given, b, layout, value_ty, made, copies);
            receiver_is_kept(o, layout, ops, s, w, y.memory, b);
            assert(found_at(o, given, k, b));
            arrives(y, code, o, goal);
        }
        goes_on(l, code, o, half, goal);
    }
}

/// `Map.put` gives back a map in which a lookup of the key ends at a copy
/// of the value, that has every key of its receiver, and every other key
/// with its value; and leaves the receiver as it was. If the receiver held
/// every key once, so does the new map: a key that was there is overwritten
/// and the length stays.
pub proof fn put_sets_the_value(
    c: &EmitContext,
    o: Outside,
    layout: HashtableLayout,
    ops: KeyHashOps,
    value_ty: IRType,
    s: Write,
)
    requires
        acquires_entries(c, o, layout),
        layout.value_ty == Some(value_ty),
        value_type(layout.key_ty) == ops.key_basic_ty,
        s.holds(o, layout, ops),
        sound_value(c, o, value_ty),
    ensures
        ({
            let code = map_put_code(c, start(), layout, ops, value_ty);
            let value = (o.values)(Val::Param(2));
            booted(code, s.t.memory).comes_to(
                code,
                o,
                gave_with_value(c, code, o, layout, value_ty, s, value),
            )
        }),
{
    let p = probed_code(c, layout, ops);
    probed_length(c, layout, ops);
    map_put_parts(c, layout, ops, value_ty);
    map_end_is_recorded(c, p, layout, ops, value_ty);
    put_runs(c, map_put_code(c, start(), layout, ops, value_ty), o, layout, ops, value_ty, s);
}

/// A body that is made like a `Map.put` runs like one.
proof fn put_runs(
    c: &EmitContext,
    code: Code,
    o: Outside,
    layout: HashtableLayout,
    ops: KeyHashOps,
    value_ty: IRType,
    s: Write,
)
    requires
        acquires_entries(c, o, layout),
        layout.value_ty == Some(value_ty),
        value_type(layout.key_ty) == ops.key_basic_ty,
        s.holds(o, layout, ops),
        sound_value(c, o, value_ty),
        map_end_stands(c, code, probed_code(c, layout, ops), layout, ops, value_ty),
    ensures
        booted(code, s.t.memory).comes_to(
            code,
            o,
            gave_with_value(c, code, o, layout, value_ty, s, (o.values)(Val::Param(2))),
        ),
{
    let value = (o.values)(Val::Param(2));
    let goal = gave_with_value(c, code, o, layout, value_ty, s, value);
    let p = probed_code(c, layout, ops);
    probed_length(c, layout, ops);
    map_end_seeks(c, code, layout, ops, value_ty);
    write_comes_to_bucket(c, code, o, layout, ops, s);
    let half = at_some_bucket(c, code, o, layout, ops, s);
    assert forall|l: Machine| half(l) implies #[trigger] l.comes_to(code, o, goal) by {
        if starved(code, l) {
            arrives(l, code, o, goal);
        } else {
            let (base, w, stop) = choose|base: Memory, w: Buckets, stop: nat| #[trigger]
                at_bucket(c, code, o, layout, ops, base, l, s, w, stop);
            map_put_ends(c, code, o, p, layout, ops, value_ty, base, l, s, w, stop);
        }
    }
    goes_on(booted(code, s.t.memory), code, o, half, goal);
}

} // verus!
