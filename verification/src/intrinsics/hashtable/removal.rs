//! What `remove` gives back, where acquiring a key keeps its word.

use vstd::prelude::*;
use crate::ctx::EmitContext;
use crate::intrinsics::acquiring::{
    behind, grows, grows_further, release_in_slot_runs, releases_harmlessly, stands_at,
};
use crate::intrinsics::element::release_in_slot_code;
use crate::intrinsics::hashtable::copying::{
    acquires_entries, alike, copies_in, copy_made, copying_runs, entry_kept, holds_copy, made,
    made_are_copies, made_in, off_table, spares_but, value_copied, values_copied,
};
use crate::intrinsics::hashtable::insertion::{
    behind_copy, copied_code, copied_code_stands, copied_length, copied_table, given_table, has_copy,
    has_value, is_table, key_is_called, same_entry_same_value, write_copies, write_copy, write_entry, Write,
};
use crate::intrinsics::hashtable::probing::{
    differ_only_at, first_stop, holds_key, in_table, probe_stops, probes_visit_every_bucket,
    read_probe_stands, removing_forgets, removing_keeps_others, stopped, stops, Buckets, KeyWords,
    Probe,
};
use crate::intrinsics::hashtable::proper::{
    alike_proper, held_is_in_table, held_somewhere, lawful, only_once, proper, proper_holds_once,
    removing_counts, removing_is_proper,
};
use crate::intrinsics::hashtable::read::{read_probe_at, read_probe_code, remove_code};
use crate::intrinsics::hashtable::rehashing::{of_table, same_entry, words_of};
use crate::intrinsics::hashtable::resizing::{alike_answers, alike_occupied, counted, occupied};
use crate::intrinsics::hashtable::util::{
    copied, extract_code, extracted, table_struct_code, HashtableLayout, KeyHashOps, TableSnapshot,
    STATE_EMPTY, STATE_OCCUPIED, STATE_TOMBSTONE,
};
use crate::intrinsics::hashtable::writing::{
    all_held, entry_address, laid_out, stored_elsewhere, value_in,
};
use crate::intrinsics::list_values::log_begins_further;
use crate::llvm::{gep, isub, num, start, BinOp, Code, Entry, Inst, LType, Val};
use crate::memory::{
    address_in_range, byte, none_taken, number_of_bytes, sound, starved, stored, unless_starved, Memory,
};
use crate::semantics::{
    arrives, beginning_stands, begins_as, begins_further, booted, byte_count, combines, ends,
    extracts, goes_on, inserts, moves, read, seek, seek_finds, stores, Machine, Outside,
};
use crate::types::value_type;

verus! {

/// A removal up to the end of its probe.
#[verifier::opaque]
spec fn sought_code(c: &EmitContext, layout: HashtableLayout, ops: KeyHashOps) -> Code {
    read_probe_code(copied_code(c, layout), layout, copied_table(), Val::Param(1), ops)
}

/// The probe of a removal.
spec fn remove_probe(c: &EmitContext, layout: HashtableLayout, ops: KeyHashOps) -> Probe {
    Probe {
        n: behind_copy(c, layout),
        block: 6,
        from: 5,
        layout: layout,
        table: copied_table(),
        key: Val::Param(1),
        ops: ops,
    }
}

/// Releasing the key and the value of an entry.
spec fn released_code(c: &EmitContext, found: Code, layout: HashtableLayout, entry: Val) -> (
    Code,
    Code,
) {
    let keyed = release_in_slot_code(c, found, layout.key_ty, entry);
    (
        keyed,
        match layout.value_ty {
            Some(value_ty) => release_in_slot_code(
                c,
                keyed.i(gep(entry, num(layout.key_size))),
                value_ty,
                keyed.v(0),
            ),
            None => keyed,
        },
    )
}

/// A removal from its probe on up to the release of the entry.
spec fn remove_released(c: &EmitContext, p: Code, layout: HashtableLayout) -> Code {
    let n = behind_copy(c, layout);
    released_code(c, p.at(9), layout, Val::At((n + 12) as usize)).1
}

/// A removal from its probe on.
spec fn remove_end(c: &EmitContext, p: Code, layout: HashtableLayout) -> Code {
    let n = behind_copy(c, layout);
    let released = remove_released(c, p, layout);
    let shorter = released.i(
        Inst::Store(LType::I8, num(STATE_TOMBSTONE), Val::At((n + 5) as usize)),
    ).i(isub(Val::At(2), num(1)));
    let gone = table_struct_code(shorter, TableSnapshot { length: released.v(1), ..copied_table() })
        .i(Inst::Ret(LType::Table, shorter.v(3)))
        .at(10);
    table_struct_code(gone, copied_table()).i(Inst::Ret(LType::Table, gone.v(3)))
}

/// A removal is its copy, its probe and its end.
proof fn remove_parts(c: &EmitContext, layout: HashtableLayout, ops: KeyHashOps)
    ensures
        remove_code(c, start(), layout, ops) == remove_end(c, sought_code(c, layout, ops), layout),
{
    let t = copied_code(c, layout);
    copied_length(c, layout);
    assert(copied(extract_code(start(), Val::Param(0)), extracted(start())) == copied_table());
    assert(read_probe_at(t).found_bb == 9 && read_probe_at(t).not_found_bb == 10);
    reveal(sought_code);
    reveal(copied_code);
}

/// What releasing an entry records.
proof fn released_shape(c: &EmitContext, found: Code, layout: HashtableLayout, entry: Val)
    ensures
        ({
            let (keyed, released) = released_code(c, found, layout, entry);
            &&& found.log.is_prefix_of(keyed.log)
            &&& keyed.log.is_prefix_of(released.log)
            &&& found.log.is_prefix_of(released.log)
            &&& keyed.edges == found.edges && released.edges == found.edges
            &&& keyed.cur == found.cur && released.cur == found.cur
            &&& released.log.len() <= found.log.len() + 11
            &&& forall|i: int|
                found.log.len() <= i < released.log.len() ==> (#[trigger] released.log[i]).block
                    == found.cur
        }),
{
    let (keyed, released) = released_code(c, found, layout, entry);
    assert(found.log.is_prefix_of(keyed.log));
    assert(keyed.log.is_prefix_of(released.log));
    log_begins_further(released.log, keyed.log, found.log);
}

/// The machine releases the key and the value of an entry.
proof fn release_runs(
    c: &EmitContext,
    code: Code,
    o: Outside,
    found: Code,
    layout: HashtableLayout,
    entry: Val,
    m: Machine,
) -> (l: Machine)
    requires
        stands_at(code, found, released_code(c, found, layout, entry).1, m),
        releases_entries(c, o, layout),
        sound(m.memory),
    ensures
        behind(code, o, found, released_code(c, found, layout, entry).1, m, l),
        grows(m.memory, l.memory),
{
    let (keyed, released) = released_code(c, found, layout, entry);
    released_shape(c, found, layout, entry);
    match layout.value_ty {
        Some(value_ty) => {
            let g = keyed.i(gep(entry, num(layout.key_size)));
            assert(g.log.is_prefix_of(released.log));
            log_begins_further(code.log, released.log, g.log);
            assert(keyed.log.is_prefix_of(g.log));
            log_begins_further(code.log, g.log, keyed.log);
            assert(code.log[keyed.log.len() as int] == g.log[keyed.log.len() as int]);
            assert(code.log[g.log.len() as int].block == g.cur) by {
                if g.log.len() < released.log.len() {
                    assert(code.log[g.log.len() as int] == released.log[g.log.len() as int]);
                }
            }
            let m1 = release_in_slot_runs(c, code, o, found, m, layout.key_ty, entry);
            moves(m1, code, o, entry, num(layout.key_size));
            let m2 = m1.step(code, o);
            let l = release_in_slot_runs(c, code, o, g, m2, value_ty, keyed.v(0));
            grows_further(m.memory, m1.memory, l.memory);
            l
        },
        None => release_in_slot_runs(c, code, o, found, m, layout.key_ty, entry),
    }
}

/// Releasing the entries of a table leaves alone whatever is taken.
pub open spec fn releases_entries(c: &EmitContext, o: Outside, layout: HashtableLayout) -> bool {
    &&& releases_harmlessly(c, o, layout.key_ty)
    &&& layout.value_ty matches Some(value_ty) ==> releases_harmlessly(c, o, value_ty)
}

/// A table that is given back, instruction by instruction.
spec fn giving_stands(code: Code, n: int, block: usize, length: Val) -> bool {
    let at = |k: int| Val::At((n + k) as usize);
    let is = |k: int, inst: Inst| code.log[n + k] == Entry { block: block, inst: inst };
    let table = copied_table();
    &&& n + 5 <= code.log.len() <= usize::MAX
    &&& is(0, Inst::Insert(LType::Table, Val::Undef, LType::Ptr, table.entries_ptr, 0))
    &&& is(1, Inst::Insert(LType::Table, at(0), LType::Ptr, table.states_ptr, 1))
    &&& is(2, Inst::Insert(LType::Table, at(1), LType::I64, length, 2))
    &&& is(3, Inst::Insert(LType::Table, at(2), LType::I64, table.capacity, 3))
    &&& is(4, Inst::Ret(LType::Table, at(3)))
}

/// The end of a removal behind code up to its probe, instruction by
/// instruction.
spec fn end_stands(c: &EmitContext, code: Code, p: Code, layout: HashtableLayout) -> bool {
    let n = behind_copy(c, layout) as int;
    let released = remove_released(c, p, layout);
    let r = released.log.len() as int;
    let is = |i: int, inst: Inst| code.log[i] == Entry { block: 9, inst: inst };
    &&& p.log.len() <= r <= n + 30
    &&& begins_as(code, released)
    &&& is(r, Inst::Store(LType::I8, num(STATE_TOMBSTONE), Val::At((n + 5) as usize)))
    &&& is(r + 1, isub(Val::At(2), num(1)))
    &&& giving_stands(code, r + 2, 9, Val::At((r + 1) as usize))
    &&& giving_stands(code, r + 7, 10, Val::At(2))
    &&& forall|i: int| p.log.len() <= i < r ==> (#[trigger] code.log[i]).block == 9
}

/// The end of a removal stands behind any code of its length.
proof fn remove_end_stands(c: &EmitContext, p: Code, layout: HashtableLayout)
    requires
        p.log.len() == behind_copy(c, layout) + 19,
    ensures
        begins_as(remove_end(c, p, layout), p),
        end_stands(c, remove_end(c, p, layout), p, layout),
{
    let code = remove_end(c, p, layout);
    let released = remove_released(c, p, layout);
    let n = behind_copy(c, layout);
    released_shape(c, p.at(9), layout, Val::At((n + 12) as usize));
    assert(n <= 64);
    assert(code.log.len() == released.log.len() + 12);
    assert(released.log.is_prefix_of(code.log));
    log_begins_further(code.log, released.log, p.log);
    assert(p.edges =~= code.edges.subrange(0, p.edges.len() as int));
}

/// The probe of a removal stands where it was recorded.
proof fn sought_code_stands(c: &EmitContext, whole: Code, layout: HashtableLayout, ops: KeyHashOps)
    requires
        begins_as(whole, sought_code(c, layout, ops)),
    ensures
        sought_code(c, layout, ops).log.len() == behind_copy(c, layout) + 19,
        remove_probe(c, layout, ops).stands_in(whole),
        write_copies(c, whole, layout),
        forall|i: int|
            0 <= i < behind_copy(c, layout) + 19 ==> (#[trigger] whole.log[i]).block != 9
                && whole.log[i].block != 10,
        forall|i: usize|
            i < 4 ==> #[trigger] whole.log[i as int] == (Entry {
                block: 0,
                inst: Inst::Extract(LType::Table, Val::Param(0), i),
            }),
        seek(whole.log, 0, 0) == 0,
        seek(whole.log, 5, 0) == behind_copy(c, layout),
{
    let t = copied_code(c, layout);
    let p = sought_code(c, layout, ops);
    assert(p == read_probe_code(t, layout, copied_table(), Val::Param(1), ops)) by {
        reveal(sought_code);
    }
    assert(begins_as(p, t)) by {
        beginning_stands(whole, p);
        assert(t.log =~= p.log.subrange(0, t.log.len() as int));
        assert(t.edges =~= p.edges.subrange(0, t.edges.len() as int));
    }
    begins_further(whole, p, t);
    copied_code_stands(c, whole, layout);
    read_probe_stands(t, whole, layout, copied_table(), Val::Param(1), ops);
    beginning_stands(whole, t);
    beginning_stands(whole, p);
    assert forall|i: usize| i < 4 implies #[trigger] whole.log[i as int] == (Entry {
        block: 0,
        inst: Inst::Extract(LType::Table, Val::Param(0), i),
    }) by {
        assert(whole.log[i as int] == t.log[i as int]);
    }
    assert(whole.log[0usize as int].block == 0);
    seek_finds(whole.log, 0, 0, 0);
    assert forall|i: int| 0 <= i < behind_copy(c, layout) implies (#[trigger] whole.log[i]).block
        != 5 by {
        assert(whole.log[i] == t.log[i]);
    }
    assert(p.log[behind_copy(c, layout) as int].block == 5);
    seek_finds(whole.log, 5, 0, behind_copy(c, layout));
}

/// How long the code up to the probe of a removal is.
proof fn sought_length(c: &EmitContext, layout: HashtableLayout, ops: KeyHashOps)
    ensures
        sought_code(c, layout, ops).log.len() == behind_copy(c, layout) + 19,
{
    copied_length(c, layout);
    reveal(sought_code);
}

/// Where the blocks of the end of a removal begin.
proof fn remove_end_seeks(c: &EmitContext, code: Code, layout: HashtableLayout, ops: KeyHashOps)
    requires
        begins_as(code, sought_code(c, layout, ops)),
        end_stands(c, code, sought_code(c, layout, ops), layout),
    ensures
        seek(code.log, 9, 0) == behind_copy(c, layout) + 19,
        seek(code.log, 10, 0) == remove_released(c, sought_code(c, layout, ops), layout).log.len() + 7,
{
    let n = behind_copy(c, layout);
    let r = remove_released(c, sought_code(c, layout, ops), layout).log.len();
    sought_code_stands(c, code, layout, ops);
    seek_finds(code.log, 9, 0, n + 19);
    assert forall|i: int| 0 <= i < r + 7 implies (#[trigger] code.log[i]).block != 10 by {
        if i >= r {
            assert(i == r || i == r + 1 || i == r + 2 || i == r + 3 || i == r + 4 || i == r + 5 || i
                == r + 6);
        }
    }
    seek_finds(code.log, 10, 0, r + 7);
}

/// No bucket holds both keys.
pub open spec fn held_apart(o: Outside, t: Buckets, a: KeyWords, b: KeyWords) -> bool {
    forall|i: int|
        0 <= i < t.capacity && #[trigger] holds_key(o, t, a, i) ==> !holds_key(o, t, b, i)
}

/// The function has given back a table without the key and with every
/// other key of the receiver, and one entry fewer if the key was there.
/// The receiver is as it was. Or an allocation has failed.
pub open spec fn gave_without_key(
    c: &EmitContext,
    code: Code,
    o: Outside,
    layout: HashtableLayout,
    s: Write,
) -> spec_fn(Machine) -> bool {
    unless_starved(
        code,
        |l: Machine|
            {
                let w = given_table(l, s.t);
                &&& l.returned is Some
                &&& l.returned_parts[2] == if in_table(o, s.t, s.words()) {
                    s.length - 1
                } else {
                    s.length
                }
                &&& is_table(o, l, w)
                &&& only_once(o, s.t, s.words()) ==> !in_table(o, w, s.words())
                &&& forall|other: KeyWords|
                    in_table(o, s.t, other) && held_apart(o, s.t, s.words(), other)
                        ==> #[trigger] in_table(o, w, other)
                &&& apart_keep_values(
                    o,
                    s,
                    w,
                    layout,
                    copies_in(c, o, layout, s.counter, s.t.memory, l.memory),
                )
                &&& removal_counts(o, s, w, l.returned_parts[2])
                &&& forall|q: int| #[trigger]
                    of_table(s.t, q) ==> byte(l.memory, q) == byte(s.t.memory, q)
            },
    )
}

/// A table counts its entries. If the receiver of a removal held every key
/// once, so does the new table, the key is gone, and every key that is there
/// was there before.
pub open spec fn removal_counts(o: Outside, s: Write, w: Buckets, length: int) -> bool {
    &&& counted(w, length)
    &&& lawful(s.f) && proper(o, s.t, s.f) ==> {
        &&& proper(o, w, s.f)
        &&& !in_table(o, w, s.words())
        &&& adds_none(o, s, w)
    }
}

/// Every key that is in a table is in the receiver.
pub open spec fn adds_none(o: Outside, s: Write, w: Buckets) -> bool {
    forall|key: int| #[trigger]
        in_table(o, w, words_of(s.f, key)) ==> in_table(o, s.t, words_of(s.f, key))
}

/// A table whose occupied buckets are those of a copy adds no key.
proof fn removal_adds_none(o: Outside, s: Write, u: Buckets, x: Buckets)
    requires
        lawful(s.f),
        proper(o, s.t, s.f),
        alike(o, s.t, u),
        x.capacity == u.capacity,
        0 < x.capacity,
        forall|j: int|
            0 <= j < x.capacity && #[trigger] x.state(j) == STATE_OCCUPIED ==> u.state(j)
                == STATE_OCCUPIED && u.key(o, j) == x.key(o, j),
    ensures
        adds_none(o, s, x),
{
    assert forall|key: int| #[trigger] in_table(o, x, words_of(s.f, key)) implies in_table(
        o,
        s.t,
        words_of(s.f, key),
    ) by {
        let k = words_of(s.f, key);
        let j = held_somewhere(o, x, k);
        assert(x.state(j) == STATE_OCCUPIED);
        assert(u.state(j) == s.t.state(j) && u.key(o, j) == s.t.key(o, j));
        assert(holds_key(o, s.t, k, j));
        held_is_in_table(o, s.t, s.f, key, j);
    }
}

/// What is left behind a removal counts right.
proof fn removed_counts(o: Outside, s: Write, u: Buckets, x: Buckets, b: int)
    requires
        laid_out(o, u),
        alike(o, s.t, u),
        counted(s.t, s.length),
        0 <= b < u.capacity,
        holds_key(o, u, s.words(), b),
        differ_only_at(o, u, x, b),
        x.state(b) == STATE_TOMBSTONE,
        only_once(o, s.t, s.words()) ==> !in_table(o, x, s.words()),
    ensures
        removal_counts(o, s, x, s.length - 1),
{
    alike_occupied(o, s.t, u);
    removing_counts(o, u, x, b, s.length);
    if lawful(s.f) && proper(o, s.t, s.f) {
        alike_proper(o, s.t, u, s.f);
        removing_is_proper(o, u, x, s.f, b);
        proper_holds_once(o, s.t, s.f, s.key);
        assert forall|j: int|
            0 <= j < x.capacity && #[trigger] x.state(j) == STATE_OCCUPIED implies u.state(j)
            == STATE_OCCUPIED && u.key(o, j) == x.key(o, j) by {
            if j != b {
                assert(u.state(j) == x.state(j));
            }
        }
        removal_adds_none(o, s, u, x);
    }
}

/// A key that shares no bucket with that of a removal is in the new map
/// with a copy of the value that it has in the receiver.
pub open spec fn apart_keep_values(
    o: Outside,
    s: Write,
    w: Buckets,
    layout: HashtableLayout,
    copies: spec_fn(int, int) -> bool,
) -> bool {
    layout.value_ty matches Some(value_ty) ==> forall|other: KeyWords, v: int|
        held_apart(o, s.t, s.words(), other) && #[trigger] has_value(
            o,
            s.t,
            layout,
            value_type(value_ty),
            other,
            v,
        ) ==> has_copy(o, w, layout, value_type(value_ty), other, copies, v)
}

/// The values of other keys outlast the removal of one.
proof fn values_outlast(
    o: Outside,
    s: Write,
    u: Buckets,
    x: Buckets,
    layout: HashtableLayout,
    made: spec_fn(int, int) -> bool,
    copies: spec_fn(int, int) -> bool,
)
    requires
        laid_out(o, u),
        x == (Buckets { memory: x.memory, ..u }),
        alike(o, s.t, u),
        values_copied(o, layout, made, s.t, u, s.t.capacity as int),
        forall|v: int, y: int| #[trigger] made(v, y) ==> copies(v, y),
        layout.entry_size == u.entry_size,
        layout.value_ty matches Some(ty) ==> layout.key_size + byte_count(o, value_type(ty))
            <= layout.entry_size,
        forall|i: int|
            0 <= i < u.capacity && #[trigger] x.state(i) == STATE_OCCUPIED ==> u.state(i)
                == STATE_OCCUPIED && x.key(o, i) == u.key(o, i) && entry_kept(u, x, i),
        forall|other: KeyWords|
            in_table(o, s.t, other) && held_apart(o, s.t, s.words(), other) ==> #[trigger] in_table(
                o,
                x,
                other,
            ),
    ensures
        apart_keep_values(o, s, x, layout, copies),
{
    if let Some(value_ty) = layout.value_ty {
        let ty = value_type(value_ty);
        assert forall|other: KeyWords, v: int|
            held_apart(o, s.t, s.words(), other) && #[trigger] has_value(
                o,
                s.t,
                layout,
                ty,
                other,
                v,
            ) implies has_copy(o, x, layout, ty, other, copies, v) by {
            assert(in_table(o, x, other));
            assert forall|i: int| 0 <= i < x.capacity && #[trigger] holds_key(o, x, other, i) implies copies(
                v,
                value_in(o, x, layout, ty, i),
            ) by {
                assert(x.state(i) == STATE_OCCUPIED);
                assert(u.state(i) == s.t.state(i) && u.key(o, i) == s.t.key(o, i));
                assert(holds_key(o, s.t, other, i));
                assert(same_entry(u, i, x, i));
                same_entry_same_value(o, u, i, x, i, layout, ty);
                assert(value_copied(o, layout, made, s.t, u, s.t.capacity as int, i));
                assert(made(v, value_in(o, u, layout, ty, i)));
            }
        }
    }
}

/// Giving back the table.
proof fn giving_runs(
    code: Code,
    o: Outside,
    m: Machine,
    block: usize,
    length: Val,
    goal: spec_fn(Machine) -> bool,
)
    requires
        giving_stands(code, m.at as int, block, length),
        m.returned is None,
        m.at >= 7,
        length matches Val::At(k) && k < m.at,
        forall|l: Machine|
            l.returned is Some && l.memory == m.memory && l.returned_parts[0] == m.results[5]
                && l.returned_parts[1] == m.results[6] && l.returned_parts[2] == read(
                o,
                m.results,
                length,
            ) && l.returned_parts[3] == m.results[3] ==> #[trigger] goal(l),
    ensures
        m.comes_to(code, o, goal),
{
    let table = copied_table();
    let at = |k: int| Val::At((m.at + k) as usize);
    inserts(m, code, o, LType::Table, Val::Undef, LType::Ptr, table.entries_ptr, 0);
    let m1 = m.step(code, o);
    inserts(m1, code, o, LType::Table, at(0), LType::Ptr, table.states_ptr, 1);
    let m2 = m1.step(code, o);
    inserts(m2, code, o, LType::Table, at(1), LType::I64, length, 2);
    let m3 = m2.step(code, o);
    inserts(m3, code, o, LType::Table, at(2), LType::I64, table.capacity, 3);
    let m4 = m3.step(code, o);
    ends(m4, code, o, LType::Table, at(3));
    arrives(m4.step(code, o), code, o, goal);
}

/// Marking a bucket as removed, after its entry is released, changes no
/// other bucket.
proof fn marking_is_local(o: Outside, u: Buckets, now: Memory, b: int)
    requires
        laid_out(o, u),
        all_held(u),
        grows(u.memory, now),
        0 <= b < u.capacity,
    ensures
        ({
            let end = stored(now, u.states + b, STATE_TOMBSTONE as int, 1);
            let x = Buckets { memory: end, ..u };
            &&& differ_only_at(o, u, x, b)
            &&& x.state(b) == STATE_TOMBSTONE
            &&& forall|i: int| 0 <= i < u.capacity && i != b ==> #[trigger] entry_kept(u, x, i)
            &&& forall|q: int| #[trigger]
                u.memory.taken.contains(q) && q != u.states + b ==> byte(end, q) == byte(u.memory, q)
        }),
{
    let end = stored(now, u.states + b, STATE_TOMBSTONE as int, 1);
    let x = Buckets { memory: end, ..u };
    stored_elsewhere(now, u.states + b, STATE_TOMBSTONE as int, 1);
    assert(x.state(b) == STATE_TOMBSTONE) by {
        reveal_with_fuel(stored, 2);
    }
    assert forall|i: int| 0 <= i < u.capacity && i != b implies #[trigger] x.state(i) == u.state(i) by {
        assert(u.memory.taken.contains(u.states + i));
    }
    assert forall|i: int| 0 <= i < u.capacity && i != b implies #[trigger] x.key(o, i) == u.key(
        o,
        i,
    ) by {
        entry_address(u, i);
        let p = u.entries + i * u.entry_size;
        assert forall|j: int| 0 <= j < byte_count(o, u.key_ty) implies #[trigger] byte(end, p + j) == byte(
            u.memory,
            p + j,
        ) by {
            assert(u.memory.taken.contains(p + j));
        }
        number_of_bytes(end, p, u.memory, p, byte_count(o, u.key_ty));
    }
    assert forall|i: int| 0 <= i < u.capacity && i != b implies #[trigger] entry_kept(u, x, i) by {
        entry_address(u, i);
        let p = u.entries + i * u.entry_size;
        assert forall|j: int| 0 <= j < u.entry_size implies #[trigger] byte(end, p + j) == byte(
            u.memory,
            p + j,
        ) by {
            assert(u.memory.taken.contains(p + j));
        }
    }
}

/// The setting of a removal: that of a write, and some bucket of the
/// receiver was never filled.
pub open spec fn removes(o: Outside, layout: HashtableLayout, ops: KeyHashOps, s: Write, empty: int) -> bool {
    &&& s.holds(o, layout, ops)
    &&& 0 <= empty < s.t.capacity
    &&& s.t.state(empty) == STATE_EMPTY
}

/// A key that is in a table that counts its entries is counted.
pub proof fn held_is_counted(o: Outside, s: Write, b: int)
    requires
        counted(s.t, s.length),
        0 <= b < s.t.capacity,
        holds_key(o, s.t, s.words(), b),
    ensures
        s.length >= 1,
{
    assert(occupied(s.t).contains(b));
    if occupied(s.t).len() == 0 {
        assert(occupied(s.t) =~= Set::empty());
    }
}

/// From the bucket to the end of a removal.
proof fn remove_ends(
    c: &EmitContext,
    code: Code,
    o: Outside,
    p: Code,
    layout: HashtableLayout,
    ops: KeyHashOps,
    l: Machine,
    u: Buckets,
    s: Write,
    empty: int,
    stop: nat,
)
    requires
        on_copy(c, o, layout, ops, l, u, s, empty),
        releases_entries(c, o, layout),
        p.log.len() == behind_copy(c, layout) + 19,
        end_stands(c, code, p, layout),
        seek(code.log, 9, 0) == behind_copy(c, layout) + 19,
        seek(code.log, 10, 0) == remove_released(c, p, layout).log.len() + 7,
        stops(o, u, s.words(), false, u.visited(s.words().hash, stop)),
        forall|e: nat|
            e < stop ==> !stops(o, u, s.words(), false, #[trigger] u.visited(s.words().hash, e)),
        ({
            let n = behind_copy(c, layout);
            let b = u.visited(s.words().hash, stop);
            &&& l.results[(n + 5) as usize] == u.states + b
            &&& if holds_key(o, u, s.words(), b) {
                &&& l.at == seek(code.log, 9, 0)
                &&& l.results[(n + 12) as usize] == u.entry(b)
            } else {
                l.at == seek(code.log, 10, 0)
            }
        }),
    ensures
        l.comes_to(code, o, gave_without_key(c, code, o, layout, s)),
{
    let key = s.words();
    let b = u.visited(key.hash, stop);
    vstd::arithmetic::div_mod::lemma_mod_bound(key.hash + stop, u.capacity as int);
    alike_turned(o, s.t, u);
    alike_answers(o, s.t, u, key);
    alike_answers(o, u, s.t, key);
    stopped_tells(o, u, key, stop);
    if holds_key(o, u, key, b) {
        remove_marks(c, code, o, p, layout, ops, l, u, s, empty, b);
    } else {
        remove_misses(c, code, o, p, layout, ops, l, u, s, empty);
    }
}

/// The machine of a removal works on a copy of the receiver.
spec fn on_copy(
    c: &EmitContext,
    o: Outside,
    layout: HashtableLayout,
    ops: KeyHashOps,
    l: Machine,
    u: Buckets,
    s: Write,
    empty: int,
) -> bool {
    &&& removes(o, layout, ops, s, empty)
    &&& alike(o, s.t, u)
    &&& values_copied(
        o,
        layout,
        made_in(c, o, layout, s.counter, s.t.memory, off_table(u)),
        s.t,
        u,
        s.t.capacity as int,
    )
    &&& layout.value_ty matches Some(ty) ==> layout.key_size + byte_count(o, value_type(ty))
        <= layout.entry_size
    &&& laid_out(o, u)
    &&& all_held(u)
    &&& u.memory == l.memory
    &&& none_taken(s.t.memory, u.states as int, u.capacity as int)
    &&& spares_but(s.t.memory, u.memory, s.counter)
    &&& l.returned is None
    &&& l.results[2] == s.length
    &&& l.results[3] == u.capacity
    &&& l.results[5] == u.entries
    &&& l.results[6] == u.states
    &&& u == (Buckets {
        memory: u.memory,
        entries: u.entries,
        states: u.states,
        capacity: u.capacity,
        ..s.t
    })
}

/// The key is there: its bucket is marked.
proof fn remove_marks(
    c: &EmitContext,
    code: Code,
    o: Outside,
    p: Code,
    layout: HashtableLayout,
    ops: KeyHashOps,
    l: Machine,
    u: Buckets,
    s: Write,
    empty: int,
    b: int,
)
    requires
        on_copy(c, o, layout, ops, l, u, s, empty),
        releases_entries(c, o, layout),
        p.log.len() == behind_copy(c, layout) + 19,
        end_stands(c, code, p, layout),
        l.at == behind_copy(c, layout) + 19,
        0 <= b < u.capacity,
        holds_key(o, u, s.words(), b),
        in_table(o, s.t, s.words()),
        l.results[(behind_copy(c, layout) + 5) as usize] == u.states + b,
    ensures
        l.comes_to(code, o, gave_without_key(c, code, o, layout, s)),
{
    let r = remove_released(c, p, layout).log.len();
    let length = Val::At((r + 1) as usize);
    let goal = gave_without_key(c, code, o, layout, s);
    assert(u.state(b) == s.t.state(b) && u.key(o, b) == s.t.key(o, b));
    held_is_counted(o, s, b);
    let (now, m3) = marking_runs(c, code, o, p, layout, l, u, s.length, b);
    marking_is_local(o, u, now, b);
    let x = Buckets { memory: m3.memory, ..u };
    marked_holds(o, s, u, x, b);
    assert(spares_but(off_table(u), x.memory, s.counter)) by {
        stored_elsewhere(now, u.states + b, STATE_TOMBSTONE as int, 1);
        assert forall|q: int| #[trigger] off_table(u).taken.contains(q) implies x.memory.taken.contains(q) && (
        s.counter <= q < s.counter + 8 || byte(x.memory, q) == byte(off_table(u), q)) by {
            assert(u.memory.taken.contains(q));
            assert(now.taken.contains(q));
            assert(!of_table(u, q));
        }
    }
    made_are_copies(c, o, layout, s.counter, s.t.memory, off_table(u), x.memory);
    values_outlast(
        o,
        s,
        u,
        x,
        layout,
        made_in(c, o, layout, s.counter, s.t.memory, off_table(u)),
        copies_in(c, o, layout, s.counter, s.t.memory, x.memory),
    );
    removed_counts(o, s, u, x, b);
    source_is_kept(o, layout, ops, s, u, x.memory);
    assert forall|y: Machine|
        y.returned is Some && y.memory == m3.memory && y.returned_parts[0] == m3.results[5]
            && y.returned_parts[1] == m3.results[6] && y.returned_parts[2] == read(
            o,
            m3.results,
            length,
        ) && y.returned_parts[3] == m3.results[3] implies #[trigger] goal(y) by {
        assert(given_table(y, s.t) == x);
    }
    giving_runs(code, o, m3, 9, length, goal);
}

/// The entry is released, the bucket marked and the length counted down.
proof fn marking_runs(
    c: &EmitContext,
    code: Code,
    o: Outside,
    p: Code,
    layout: HashtableLayout,
    l: Machine,
    u: Buckets,
    length: int,
    b: int,
) -> (r: (Memory, Machine))
    requires
        releases_entries(c, o, layout),
        p.log.len() == behind_copy(c, layout) + 19,
        end_stands(c, code, p, layout),
        l.at == behind_copy(c, layout) + 19,
        l.returned is None,
        l.results[2] == length,
        1 <= length <= u64::MAX,
        l.memory == u.memory,
        sound(u.memory),
        l.results[(behind_copy(c, layout) + 5) as usize] == u.states + b,
    ensures
        grows(u.memory, r.0),
        l.leads_to(code, o, r.1),
        r.1.at == remove_released(c, p, layout).log.len() + 2,
        r.1.returned is None,
        r.1.memory == stored(r.0, u.states + b, STATE_TOMBSTONE as int, 1),
        r.1.results[(remove_released(c, p, layout).log.len() + 1) as usize] == length - 1,
        r.1.results[3] == l.results[3],
        r.1.results[5] == l.results[5],
        r.1.results[6] == l.results[6],
{
    let n = behind_copy(c, layout);
    let entry = Val::At((n + 12) as usize);
    assert(remove_released(c, p, layout) == released_code(c, p.at(9), layout, entry).1);
    released_shape(c, p.at(9), layout, entry);
    let m1 = release_runs(c, code, o, p.at(9), layout, entry, l);
    assert(m1.results[(n + 5) as usize] == u.states + b);
    stores(m1, code, o, LType::I8, num(STATE_TOMBSTONE), Val::At((n + 5) as usize));
    let m2 = m1.step(code, o);
    assert(m2.results[2] == length);
    combines(m2, code, o, BinOp::Sub, LType::I64, Val::At(2), num(1));
    (m1.memory, m2.step(code, o))
}

/// The key is not there: the copy is given back.
proof fn remove_misses(
    c: &EmitContext,
    code: Code,
    o: Outside,
    p: Code,
    layout: HashtableLayout,
    ops: KeyHashOps,
    l: Machine,
    u: Buckets,
    s: Write,
    empty: int,
)
    requires
        on_copy(c, o, layout, ops, l, u, s, empty),
        end_stands(c, code, p, layout),
        l.at == remove_released(c, p, layout).log.len() + 7,
        !in_table(o, s.t, s.words()),
        !in_table(o, u, s.words()),
    ensures
        l.comes_to(code, o, gave_without_key(c, code, o, layout, s)),
{
    let goal = gave_without_key(c, code, o, layout, s);
    let key = s.words();
    assert forall|other: KeyWords|
        in_table(o, s.t, other) && held_apart(o, s.t, key, other) implies #[trigger] in_table(
        o,
        u,
        other,
    ) by {
        alike_answers(o, s.t, u, other);
    }
    assert forall|i: int| 0 <= i < u.capacity && #[trigger] u.state(i) == STATE_OCCUPIED implies entry_kept(
        u,
        u,
        i,
    ) by {}
    made_are_copies(c, o, layout, s.counter, s.t.memory, off_table(u), u.memory);
    values_outlast(
        o,
        s,
        u,
        u,
        layout,
        made_in(c, o, layout, s.counter, s.t.memory, off_table(u)),
        copies_in(c, o, layout, s.counter, s.t.memory, u.memory),
    );
    alike_occupied(o, s.t, u);
    if proper(o, s.t, s.f) {
        alike_proper(o, s.t, u, s.f);
        if lawful(s.f) {
            removal_adds_none(o, s, u, u);
        }
    }
    source_is_kept(o, layout, ops, s, u, u.memory);
    assert forall|y: Machine|
        y.returned is Some && y.memory == l.memory && y.returned_parts[0] == l.results[5]
            && y.returned_parts[1] == l.results[6] && y.returned_parts[2] == read(
            o,
            l.results,
            Val::At(2),
        ) && y.returned_parts[3] == l.results[3] implies #[trigger] goal(y) by {
        assert(given_table(y, s.t) == u);
    }
    giving_runs(code, o, l, 10, Val::At(2), goal);
}

/// Being alike goes both ways.
proof fn alike_turned(o: Outside, t: Buckets, u: Buckets)
    requires
        alike(o, t, u),
    ensures
        alike(o, u, t),
{
    assert forall|b: int| 0 <= b < u.capacity implies #[trigger] t.state(b) == u.state(b) by {
        assert(u.state(b) == t.state(b));
    }
    assert forall|b: int| 0 <= b < u.capacity implies #[trigger] t.key(o, b) == u.key(o, b) by {
        assert(u.key(o, b) == t.key(o, b));
    }
}

/// Where a lookup stops tells whether the key is there.
proof fn stopped_tells(o: Outside, u: Buckets, k: KeyWords, stop: nat)
    requires
        stops(o, u, k, false, u.visited(k.hash, stop)),
        forall|e: nat| e < stop ==> !stops(o, u, k, false, #[trigger] u.visited(k.hash, e)),
    ensures
        in_table(o, u, k) == holds_key(o, u, k, u.visited(k.hash, stop)),
{
    let b = u.visited(k.hash, stop);
    if holds_key(o, u, k, b) {
        assert forall|e: nat| e <= stop implies u.state(#[trigger] u.visited(k.hash, e))
            != STATE_EMPTY by {
            if e < stop {
                assert(!stops(o, u, k, false, u.visited(k.hash, e)));
            }
        }
        assert(holds_key(o, u, k, u.visited(k.hash, stop)));
    } else if in_table(o, u, k) {
        let d = choose|d: nat|
            holds_key(o, u, k, #[trigger] u.visited(k.hash, d)) && forall|e: nat|
                e <= d ==> u.state(#[trigger] u.visited(k.hash, e)) != STATE_EMPTY;
        if d < stop {
            assert(!stops(o, u, k, false, u.visited(k.hash, d)));
        } else {
            assert(u.state(u.visited(k.hash, stop)) != STATE_EMPTY);
        }
    }
}

/// A table of which one bucket is marked as removed.
proof fn marked_holds(o: Outside, s: Write, u: Buckets, x: Buckets, b: int)
    requires
        laid_out(o, s.t),
        laid_out(o, u),
        alike(o, s.t, u),
        0 <= b < u.capacity,
        holds_key(o, u, s.words(), b),
        differ_only_at(o, u, x, b),
        x.state(b) == STATE_TOMBSTONE,
    ensures
        only_once(o, s.t, s.words()) ==> !in_table(o, x, s.words()),
        forall|other: KeyWords|
            in_table(o, s.t, other) && held_apart(o, s.t, s.words(), other) ==> #[trigger] in_table(
                o,
                x,
                other,
            ),
{
    let key = s.words();
    assert(u.state(b) == s.t.state(b) && u.key(o, b) == s.t.key(o, b));
    if only_once(o, s.t, key) {
        assert forall|i: int| 0 <= i < u.capacity && i != b implies !#[trigger] holds_key(
            o,
            u,
            key,
            i,
        ) by {
            assert(u.state(i) == s.t.state(i) && u.key(o, i) == s.t.key(o, i));
            if holds_key(o, u, key, i) {
                assert(holds_key(o, s.t, key, i) && holds_key(o, s.t, key, b));
            }
        }
        removing_forgets(o, u, x, b, key);
    }
    assert forall|other: KeyWords|
        in_table(o, s.t, other) && held_apart(o, s.t, key, other) implies #[trigger] in_table(
        o,
        x,
        other,
    ) by {
        alike_answers(o, s.t, u, other);
        assert(holds_key(o, s.t, key, b));
        assert(!holds_key(o, s.t, other, b));
        removing_keeps_others(o, u, x, b, other);
    }
}

/// The receiver of a removal is as it was.
proof fn source_is_kept(
    o: Outside,
    layout: HashtableLayout,
    ops: KeyHashOps,
    s: Write,
    u: Buckets,
    end: Memory,
)
    requires
        s.holds(o, layout, ops),
        spares_but(s.t.memory, u.memory, s.counter),
        none_taken(s.t.memory, u.states as int, u.capacity as int),
        forall|q: int| #[trigger]
            u.memory.taken.contains(q) ==> u.states <= q < u.states + u.capacity || byte(end, q) == byte(
                u.memory,
                q,
            ),
    ensures
        forall|q: int| #[trigger] of_table(s.t, q) ==> byte(end, q) == byte(s.t.memory, q),
{
    assert forall|q: int| #[trigger] of_table(s.t, q) implies byte(end, q) == byte(
        s.t.memory,
        q,
    ) by {
        assert(s.t.memory.taken.contains(q));
        assert(u.memory.taken.contains(q));
    }
}

/// From the copy to the end of a removal.
proof fn remove_probes(
    c: &EmitContext,
    code: Code,
    o: Outside,
    p: Code,
    layout: HashtableLayout,
    ops: KeyHashOps,
    l: Machine,
    m: Machine,
    s: Write,
    empty: int,
)
    requires
        removes(o, layout, ops, s, empty),
        acquires_entries(c, o, layout),
        values_copied(
            o,
            layout,
            made_in(
                c,
                o,
                layout,
                s.counter,
                s.t.memory,
                off_table(made(write_copy(c, layout), l, s.t)),
            ),
            s.t,
            made(write_copy(c, layout), l, s.t),
            s.t.capacity as int,
        ),
        releases_entries(c, o, layout),
        remove_probe(c, layout, ops).stands_in(code),
        p.log.len() == behind_copy(c, layout) + 19,
        end_stands(c, code, p, layout),
        seek(code.log, 9, 0) == behind_copy(c, layout) + 19,
        seek(code.log, 10, 0) == remove_released(c, p, layout).log.len() + 7,
        holds_copy(o, write_copy(c, layout), l, m, s.t),
        m.memory == s.t.memory,
        m.results[2] == s.length,
        m.results[3] == s.t.capacity,
        l.at == behind_copy(c, layout),
    ensures
        l.comes_to(code, o, gave_without_key(c, code, o, layout, s)),
{
    let at = remove_probe(c, layout, ops);
    let u = made(write_copy(c, layout), l, s.t);
    let k = s.words();
    let goal = gave_without_key(c, code, o, layout, s);
    assert(l.results[2] == m.results[2] && l.results[3] == m.results[3]);
    key_is_called(o, ops, s, l.memory);
    assert(u.state(empty) == s.t.state(empty) && u.key(o, empty) == s.t.key(o, empty));
    let some = probes_visit_every_bucket(u, k.hash, empty);
    let stop = first_stop(o, u, k, false, 0, some);
    let b = u.visited(k.hash, stop);
    vstd::arithmetic::div_mod::lemma_mod_bound(k.hash + stop, u.capacity as int);
    address_in_range(u.states + b);
    assert(at.works_on(o, l, u, k));
    probe_stops(code, o, at, l, u, k, stop);
    let half = stopped(code, o, at, l, u, k, b);
    assert forall|x: Machine| half(x) implies #[trigger] x.comes_to(code, o, goal) by {
        assert(x.results[2] == l.results[2] && x.results[3] == l.results[3]);
        assert(x.results[5] == l.results[5] && x.results[6] == l.results[6]);
        remove_ends(c, code, o, p, layout, ops, x, u, s, empty, stop);
    }
    goes_on(l, code, o, half, goal);
}

/// `remove` gives back a table without the key, if the receiver had it
/// once, and with every key of the receiver that does not share its
/// bucket, each with its value, and leaves the receiver as it was.
pub proof fn remove_drops_the_key(
    c: &EmitContext,
    o: Outside,
    layout: HashtableLayout,
    ops: KeyHashOps,
    s: Write,
    empty: int,
)
    requires
        acquires_entries(c, o, layout),
        releases_entries(c, o, layout),
        value_type(layout.key_ty) == ops.key_basic_ty,
        removes(o, layout, ops, s, empty),
    ensures
        ({
            let code = remove_code(c, start(), layout, ops);
            booted(code, s.t.memory).comes_to(code, o, gave_without_key(c, code, o, layout, s))
        }),
{
    let p = sought_code(c, layout, ops);
    sought_length(c, layout, ops);
    remove_parts(c, layout, ops);
    remove_end_stands(c, p, layout);
    remove_runs(c, remove_code(c, start(), layout, ops), o, layout, ops, s, empty);
}

/// A body that is made like a removal runs like one.
proof fn remove_runs(
    c: &EmitContext,
    code: Code,
    o: Outside,
    layout: HashtableLayout,
    ops: KeyHashOps,
    s: Write,
    empty: int,
)
    requires
        acquires_entries(c, o, layout),
        releases_entries(c, o, layout),
        value_type(layout.key_ty) == ops.key_basic_ty,
        removes(o, layout, ops, s, empty),
        begins_as(code, sought_code(c, layout, ops)),
        end_stands(c, code, sought_code(c, layout, ops), layout),
    ensures
        booted(code, s.t.memory).comes_to(code, o, gave_without_key(c, code, o, layout, s)),
{
    let p = sought_code(c, layout, ops);
    remove_end_seeks(c, code, layout, ops);
    let cp = write_copy(c, layout);
    let goal = gave_without_key(c, code, o, layout, s);
    sought_code_stands(c, code, layout, ops);
    assert(code.log[0usize as int].inst is Extract && code.log[1usize as int].inst is Extract);
    assert(code.log[2usize as int].inst is Extract && code.log[3usize as int].inst is Extract);
    let m0 = booted(code, s.t.memory);
    extracts(m0, code, o, LType::Table, 0, 0);
    let m1 = m0.step(code, o);
    extracts(m1, code, o, LType::Table, 0, 1);
    let m2 = m1.step(code, o);
    extracts(m2, code, o, LType::Table, 0, 2);
    let m3 = m2.step(code, o);
    extracts(m3, code, o, LType::Table, 0, 3);
    let m4 = m3.step(code, o);
    assert(cp.works_on(o, m4, s.t));
    copying_runs(c, code, o, cp, layout, write_entry(layout), m4, s.t);
    let half = copy_made(c, code, o, cp, layout, m4, s.t);
    assert forall|x: Machine| half(x) implies #[trigger] x.comes_to(code, o, goal) by {
        if starved(code, x) {
            arrives(x, code, o, goal);
        } else {
            remove_probes(c, code, o, p, layout, ops, x, m4, s, empty);
        }
    }
    goes_on(m4, code, o, half, goal);
}

} // verus!
