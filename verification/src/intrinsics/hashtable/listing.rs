//! What `Set.from_list` gives back, where acquiring an item keeps its word.

use vstd::prelude::*;
use crate::ctx::EmitContext;
use crate::intrinsics::acquiring::grows_but;
use crate::intrinsics::hashtable::copying::{
    acquires_entries, alike, same_bytes, same_bytes_alike, spares_but,
};
use crate::intrinsics::hashtable::from_list::{insert_inline_code, set_from_list_code};
use crate::intrinsics::hashtable::insert::{insert_probe_at, insert_probe_code, InsertProbe};
use crate::intrinsics::hashtable::probing::{
    differ_only_at, filling_keeps_others, holds_key, in_table, key_calls, power_of_two,
    visited_is_a_bucket, Buckets,
};
use crate::intrinsics::hashtable::proper::{
    alike_proper, empty_is_proper, filling_is_proper, held_is_in_table, held_somewhere, keys_come_from, keys_reach,
    lawful, lawful_agrees, proper,
};
use crate::intrinsics::hashtable::rehashing::{key_fns, words_of, KeyFns};
use crate::intrinsics::hashtable::resize::{resize_code, resized};
use crate::intrinsics::hashtable::resizing::{
    alike_answers, alike_occupied, chosen, counted, has_resized, keeps_keys, occupied, own_table, resized_state,
    resizing_runs, resizing_stands, sizes_fit, Resizing,
};
use crate::intrinsics::hashtable::settling::{
    insert_probe_stands, settled, settled_at, settles, write_probe_settles, Settling,
};
use crate::intrinsics::hashtable::util::{
    empty_table_code, extract_code, extracted, table_struct_code, HashtableLayout, KeyHashOps,
    TableSnapshot, INITIAL_CAPACITY, STATE_EMPTY, STATE_OCCUPIED,
};
use crate::intrinsics::hashtable::writing::{
    entry_address, filling_is_local, key_put_runs, laid_out, occupied_by, state_is_written, Filling,
};
use crate::intrinsics::list_values::log_begins_further;
use crate::llvm::{
    a1, a3, call, gep, iadd, imul, itest, num, start, BinOp, Callee, Code, Entry, Inst, LType, Pred, Val,
};
use crate::memory::{
    Memory, address_in_range, all_taken, allocates, apart, byte, byte_limit, byte_limit_is_power, heap_calls, in_memory, malloc_call, memset_call, none_taken, number, number_of_bytes, sound, starved, store_is_read_back, store_spares_others, stored, stored_number, unless_starved, with_byte,
};
use crate::runtime::Rt;
use crate::semantics::{
    arguments, arrives, beginning_stands, begins_as, bit, booted, branches, byte_count, bytes_of, calls,
    combines, ends, extracts, finds_room, goes_on, incoming, incoming_finds, inserts, jumps, loads,
    moves, multiplies, read, seek, seek_finds, stores, table_part, takes, takes_out, tests, tidy,
    with_part, Machine, Outside,
};
use crate::types::value_type;

verus! {

/// The four parts of a table value lie in it, apart.
pub open spec fn table_fits(o: Outside) -> bool {
    let size = byte_count(o, LType::Table);
    let at = |k: usize| (o.offsets)(LType::Table, k);
    &&& size <= u64::MAX
    &&& forall|k: usize| k < 4 ==> 0 <= #[trigger] (o.offsets)(LType::Table, k)
        && (o.offsets)(LType::Table, k) + 8 <= size
    &&& forall|j: usize, k: usize|
        j < k < 4 ==> #[trigger] (o.offsets)(LType::Table, j) + 8 <= #[trigger] (o.offsets)(
            LType::Table,
            k,
        ) || (o.offsets)(LType::Table, k) + 8 <= (o.offsets)(LType::Table, j)
}

/// A number of some bytes is one.
proof fn number_is_small(memory: Memory, p: int, n: nat)
    ensures
        0 <= number(memory, p, n) < byte_limit(n),
    decreases n,
{
    if n > 0 {
        number_is_small(memory, p + 1, (n - 1) as nat);
    }
}

/// A part that is put into a table value is there, and the others stay.
proof fn part_is_put(o: Outside, x: int, v: int, k: usize, j: usize)
    requires
        table_fits(o),
        k < 4,
        j < 4,
        0 <= v <= u64::MAX,
    ensures
        table_part(o, with_part(o, x, v, k), j) == if j == k {
            v
        } else {
            table_part(o, x, j)
        },
        0 <= with_part(o, x, v, k) < byte_limit(byte_count(o, LType::Table)),
{
    let n = byte_count(o, LType::Table);
    let at = (o.offsets)(LType::Table, k);
    let p = (o.offsets)(LType::Table, j);
    let was = bytes_of(x, n);
    let now = stored(was, at, v, 8);
    let y = number(now, 0, n);
    let again = bytes_of(y, n);
    byte_limit_is_power(8);
    vstd::arithmetic::power2::lemma2_to64();
    number_is_small(now, 0, n);
    assert forall|i: int| 0 <= i < 8 implies #[trigger] byte(again, p + i) == byte(now, p + i) by {
        let blank = Memory { bytes: Map::empty(), taken: Set::empty(), blocks: Map::empty() };
        stored_number(blank, 0, now, 0, n, p + i);
    }
    number_of_bytes(again, p, now, p, 8);
    if j == k {
        store_is_read_back(was, at, v, 8);
    } else {
        assert forall|i: int| 0 <= i < 8 implies #[trigger] byte(now, p + i) == byte(was, p + i) by {
            store_spares_others(was, at, v, 8, p + i);
        }
        number_of_bytes(now, p, was, p, 8);
    }
}

/// A number is the table value of these parts.
pub open spec fn is_table_value(o: Outside, x: int, entries: int, states: int, length: int, capacity: int) -> bool {
    &&& table_part(o, x, 0) == entries
    &&& table_part(o, x, 1) == states
    &&& table_part(o, x, 2) == length
    &&& table_part(o, x, 3) == capacity
    &&& 0 <= x < byte_limit(byte_count(o, LType::Table))
}

/// Putting in the four parts one after the other makes a table value.
proof fn parts_make_it(o: Outside, x: int, entries: int, states: int, length: int, capacity: int)
    requires
        table_fits(o),
        0 <= entries <= u64::MAX,
        0 <= states <= u64::MAX,
        0 <= length <= u64::MAX,
        0 <= capacity <= u64::MAX,
    ensures
        is_table_value(
            o,
            with_part(
                o,
                with_part(o, with_part(o, with_part(o, x, entries, 0), states, 1), length, 2),
                capacity,
                3,
            ),
            entries,
            states,
            length,
            capacity,
        ),
{
    let a = with_part(o, x, entries, 0);
    let b = with_part(o, a, states, 1);
    let d = with_part(o, b, length, 2);
    part_is_put(o, x, entries, 0, 0);
    part_is_put(o, a, states, 1, 0);
    part_is_put(o, a, states, 1, 1);
    part_is_put(o, b, length, 2, 0);
    part_is_put(o, b, length, 2, 1);
    part_is_put(o, b, length, 2, 2);
    part_is_put(o, d, capacity, 3, 0);
    part_is_put(o, d, capacity, 3, 1);
    part_is_put(o, d, capacity, 3, 2);
    part_is_put(o, d, capacity, 3, 3);
}

/// The four instructions that make a table value, from place `n` on.
spec fn making_stands(code: Code, n: int, block: usize, t: TableSnapshot) -> bool {
    let at = |k: int| Val::At((n + k) as usize);
    let is = |k: int, inst: Inst| code.log[n + k] == Entry { block: block, inst: inst };
    &&& n + 4 < code.log.len() <= usize::MAX
    &&& is(0, Inst::Insert(LType::Table, Val::Undef, LType::Ptr, t.entries_ptr, 0))
    &&& is(1, Inst::Insert(LType::Table, at(0), LType::Ptr, t.states_ptr, 1))
    &&& is(2, Inst::Insert(LType::Table, at(1), LType::I64, t.length, 2))
    &&& is(3, Inst::Insert(LType::Table, at(2), LType::I64, t.capacity, 3))
    &&& code.log[n + 4].block == block
}

/// An operand is known before place `n`.
spec fn known_before(v: Val, n: int) -> bool {
    v matches Val::At(k) ==> k < n
}

/// The machine makes a table value.
proof fn making_runs(
    code: Code,
    o: Outside,
    m: Machine,
    block: usize,
    t: TableSnapshot,
    w: Buckets,
    length: int,
) -> (l: Machine)
    requires
        making_stands(code, m.at as int, block, t),
        table_fits(o),
        m.returned is None,
        known_before(t.entries_ptr, m.at as int) && read(o, m.results, t.entries_ptr) == w.entries,
        known_before(t.states_ptr, m.at as int) && read(o, m.results, t.states_ptr) == w.states,
        known_before(t.length, m.at as int) && read(o, m.results, t.length) == length,
        known_before(t.capacity, m.at as int) && read(o, m.results, t.capacity) == w.capacity,
        0 <= length <= u64::MAX,
    ensures
        m.leads_to(code, o, l),
        l.at == m.at + 4,
        l.returned is None,
        l.memory == m.memory,
        l.from == m.from,
        forall|i: usize| i < m.at ==> #[trigger] l.results[i] == m.results[i],
        is_table_value(
            o,
            l.results[(m.at + 3) as usize],
            w.entries as int,
            w.states as int,
            length,
            w.capacity as int,
        ),
{
    let at = |k: int| Val::At((m.at + k) as usize);
    inserts(m, code, o, LType::Table, Val::Undef, LType::Ptr, t.entries_ptr, 0);
    let m1 = m.step(code, o);
    inserts(m1, code, o, LType::Table, at(0), LType::Ptr, t.states_ptr, 1);
    let m2 = m1.step(code, o);
    inserts(m2, code, o, LType::Table, at(1), LType::I64, t.length, 2);
    let m3 = m2.step(code, o);
    inserts(m3, code, o, LType::Table, at(2), LType::I64, t.capacity, 3);
    let l = m3.step(code, o);
    parts_make_it(
        o,
        read(o, m.results, Val::Undef),
        w.entries as int,
        w.states as int,
        length,
        w.capacity as int,
    );
    l
}

/// `Set.from_list` up to the item and the set of a round.
spec fn listed_front(layout: HashtableLayout) -> Code {
    let s = start();
    let e = empty_table_code(
        s.i(Inst::Extract(LType::List, Val::Param(0), 0)).i(
            Inst::Extract(LType::List, Val::Param(0), 1),
        ),
        layout.entry_size,
    );
    e.i(Inst::Alloca(LType::Table))
        .i(Inst::Store(LType::Table, Val::At(9), Val::At(10)))
        .word("loop"@).word("body"@).word("done"@)
        .i(Inst::Br(1))
        .at(1)
        .i(Inst::Phi(LType::I64))
        .edge(Val::At(13), num(0), 0)
        .i(itest(Pred::Uge, Val::At(13), Val::At(1)))
        .i(Inst::CondBr(Val::At(14), 3, 2))
        .at(2)
        .i(imul(Val::At(13), num(layout.entry_size)))
        .i(gep(Val::At(0), Val::At(16)))
        .i(Inst::Load(value_type(layout.key_ty), Val::At(17)))
        .i(Inst::Load(LType::Table, Val::At(10)))
}

/// The set of a round, taken apart.
spec fn listed_table() -> TableSnapshot {
    TableSnapshot {
        entries_ptr: Val::At(20),
        states_ptr: Val::At(21),
        length: Val::At(22),
        capacity: Val::At(23),
    }
}

/// The set of a round with room for one more item.
spec fn roomy_table() -> TableSnapshot {
    TableSnapshot {
        entries_ptr: Val::At(68),
        states_ptr: Val::At(69),
        length: Val::At(22),
        capacity: Val::At(70),
    }
}

/// Where the probe of a round leads.
spec fn listed_probe() -> InsertProbe {
    InsertProbe {
        e_ptr: Val::At(84),
        insert_bb: 21,
        pidx: Val::At(97),
        s_ptr: Val::At(98),
        update_bb: 18,
    }
}

/// `Set.from_list` up to the load-factor check of a round.
#[verifier::opaque]
spec fn listed_resized(layout: HashtableLayout, ops: KeyHashOps) -> Code {
    resize_code(extract_code(listed_front(layout), Val::At(19)), layout, listed_table(), ops)
}

/// `Set.from_list` up to the probe of a round.
#[verifier::opaque]
spec fn listed_probed(layout: HashtableLayout, ops: KeyHashOps) -> Code {
    insert_probe_code(listed_resized(layout, ops), layout, roomy_table(), Val::At(18), ops)
}

/// The filling of a round, behind the code up to its probe.
spec fn listed_filling(p: Code, layout: HashtableLayout) -> Filling {
    Filling {
        s: table_struct_code(p
            .word("insert_merge"@).at(18), roomy_table()).i(Inst::Br(22)).at(21),
        layout: layout,
        table: roomy_table(),
        probe: listed_probe(),
        key: Val::At(18),
        value: None,
    }
}

/// The end of `Set.from_list`, behind the code up to the probe.
spec fn listed_end(c: &EmitContext, p: Code, layout: HashtableLayout) -> Code {
    let f = listed_filling(p, layout);
    let filled = f.filled(c);
    let counted = filled.i(Inst::Store(LType::I8, num(STATE_OCCUPIED), Val::At(98))).i(
        iadd(Val::At(22), num(1)),
    );
    let longer = TableSnapshot { length: filled.v(1), ..roomy_table() };
    let joined = table_struct_code(counted, longer).i(Inst::Br(22)).at(22);
    let n = joined.i(Inst::Phi(LType::Table))
        .edge(joined.v(0), Val::At(103), 18)
        .edge(joined.v(0), counted.v(3), 21);
    let done = n.i(Inst::Store(LType::Table, joined.v(0), Val::At(10)))
        .i(iadd(Val::At(13), num(1)))
        .edge(Val::At(13), n.v(1), 22)
        .i(Inst::Br(1))
        .at(3);
    done.i(Inst::Load(LType::Table, Val::At(10))).i(Inst::Ret(LType::Table, done.v(0)))
}

/// How long the code up to the probe of a round is.
proof fn listed_lengths(layout: HashtableLayout, ops: KeyHashOps)
    ensures
        listed_front(layout).log.len() == 20,
        listed_front(layout).blocks == 4,
        listed_front(layout).cur == 2,
        listed_resized(layout, ops).log.len() == 71,
        listed_resized(layout, ops).blocks == 15,
        listed_resized(layout, ops).cur == 6,
        listed_probed(layout, ops).log.len() == 100,
        listed_probed(layout, ops).blocks == 22,
{
    assert(listed_resized(layout, ops).log.len() == 71 && listed_resized(layout, ops).blocks == 15
        && listed_resized(layout, ops).cur == 6) by {
        reveal(listed_resized);
    }
    reveal(listed_probed);
}

/// `Set.from_list` is its front, its check, its probe and its end.
#[verifier::spinoff_prover]
#[verifier::rlimit(80)]
proof fn listed_parts(c: &EmitContext, layout: HashtableLayout, ops: KeyHashOps)
    ensures
        set_from_list_code(c, start(), layout, ops) == listed_end(
            c,
            listed_probed(layout, ops),
            layout,
        ),
{
    listed_lengths(layout, ops);
    let b = listed_front(layout);
    let e = extract_code(b, Val::At(19));
    let r = listed_resized(layout, ops);
    let p = listed_probed(layout, ops);
    assert(r == resize_code(e, layout, extracted(b), ops)) by {
        reveal(listed_resized);
        assert(extracted(b) == listed_table());
    }
    assert(resized(e, extracted(b)) == roomy_table());
    assert(p == insert_probe_code(r, layout, roomy_table(), Val::At(18), ops)) by {
        reveal(listed_probed);
    }
    assert(insert_probe_at(r) == listed_probe());
    reveal(insert_inline_code);
    let f = listed_filling(p, layout);
    assert(set_from_list_code(c, start(), layout, ops) == listed_end(c, p, layout));
}

/// The check adds edges only to its own phis.
proof fn listed_edges(layout: HashtableLayout, ops: KeyHashOps)
    ensures
        ({
            let p = listed_probed(layout, ops);
            &&& p.edges.len() > 0
            &&& p.edges[0].phi == Val::At(13) && p.edges[0].value == num(0) && p.edges[0].from == 0
            &&& forall|j: int|
                1 <= j < p.edges.len() ==> ((#[trigger] p.edges[j]).phi matches Val::At(q) && 20 <= q < 100)
        }),
{
    let r = listed_resized(layout, ops);
    let p = listed_probed(layout, ops);
    listed_lengths(layout, ops);
    assert(r.edges.len() > 0 && r.edges[0].phi == Val::At(13) && r.edges[0].value == num(0)
        && r.edges[0].from == 0 && forall|j: int|
        1 <= j < r.edges.len() ==> ((#[trigger] r.edges[j]).phi matches Val::At(q) && 20 <= q < 100)) by {
        reveal(listed_resized);
    }
    assert(p.edges.len() > 0 && p.edges[0] == r.edges[0] && forall|j: int|
        1 <= j < p.edges.len() ==> ((#[trigger] p.edges[j]).phi matches Val::At(q) && 20 <= q < 100)) by {
        reveal(listed_probed);
        assert forall|j: int| 1 <= j < p.edges.len() implies ((#[trigger] p.edges[j]).phi matches Val::At(q)
            && 20 <= q < 100) by {
            if j < r.edges.len() {
                assert(p.edges[j] == r.edges[j]);
            }
        }
    }
}

/// The body is that of `Set.from_list`; `n` is the place behind the filled
/// key.
spec fn listing_stands(c: &EmitContext, code: Code, layout: HashtableLayout, ops: KeyHashOps, n: int) -> bool {
    let at = |k: int| Val::At(k as usize);
    let is = |k: int, block: usize, inst: Inst| code.log[k] == Entry { block: block, inst: inst };
    let f = listed_filling(listed_probed(layout, ops), layout);
    let longer = TableSnapshot { length: at(n + 1), ..roomy_table() };
    &&& 107 <= n && n + 13 <= code.log.len() <= usize::MAX
    &&& is(0, 0, Inst::Extract(LType::List, Val::Param(0), 0))
    &&& is(1, 0, Inst::Extract(LType::List, Val::Param(0), 1))
    &&& is(2, 0, imul(num(INITIAL_CAPACITY), num(layout.entry_size)))
    &&& is(3, 0, call(Rt::Malloc, a1(at(2))))
    &&& is(4, 0, call(Rt::Malloc, a1(num(INITIAL_CAPACITY))))
    &&& is(5, 0, call(Rt::Memset, a3(at(4), num(0), num(INITIAL_CAPACITY))))
    &&& making_stands(
        code,
        6,
        0,
        TableSnapshot {
            entries_ptr: at(3),
            states_ptr: at(4),
            length: num(0),
            capacity: num(INITIAL_CAPACITY),
        },
    )
    &&& is(10, 0, Inst::Alloca(LType::Table))
    &&& is(11, 0, Inst::Store(LType::Table, at(9), at(10)))
    &&& is(12, 0, Inst::Br(1))
    &&& is(13, 1, Inst::Phi(LType::I64))
    &&& is(14, 1, itest(Pred::Uge, at(13), at(1)))
    &&& is(15, 1, Inst::CondBr(at(14), 3, 2))
    &&& is(16, 2, imul(at(13), num(layout.entry_size)))
    &&& is(17, 2, gep(at(0), at(16)))
    &&& is(18, 2, Inst::Load(value_type(layout.key_ty), at(17)))
    &&& is(19, 2, Inst::Load(LType::Table, at(10)))
    &&& is(20, 2, Inst::Extract(LType::Table, at(19), 0))
    &&& is(21, 2, Inst::Extract(LType::Table, at(19), 1))
    &&& is(22, 2, Inst::Extract(LType::Table, at(19), 2))
    &&& is(23, 2, Inst::Extract(LType::Table, at(19), 3))
    &&& code.log[24].block == 2
    &&& listed_check(layout, ops).stands_in(code)
    &&& listed_search(layout, ops).stands_in(code)
    &&& making_stands(code, 100, 18, roomy_table())
    &&& is(104, 18, Inst::Br(22))
    &&& begins_as(code, f.keyed(c))
    &&& f.s.log.len() == 105
    &&& f.keyed(c).log.len() == n
    &&& is(n, 21, Inst::Store(LType::I8, num(STATE_OCCUPIED), at(98)))
    &&& is(n + 1, 21, iadd(at(22), num(1)))
    &&& making_stands(code, n + 2, 21, longer)
    &&& is(n + 6, 21, Inst::Br(22))
    &&& is(n + 7, 22, Inst::Phi(LType::Table))
    &&& is(n + 8, 22, Inst::Store(LType::Table, at(n + 7), at(10)))
    &&& is(n + 9, 22, iadd(at(13), num(1)))
    &&& is(n + 10, 22, Inst::Br(1))
    &&& is(n + 11, 3, Inst::Load(LType::Table, at(10)))
    &&& is(n + 12, 3, Inst::Ret(LType::Table, at(n + 11)))
    &&& incoming(code.edges, at(13), 0) == Some(num(0))
    &&& incoming(code.edges, at(13), 22) == Some(at(n + 9))
    &&& incoming(code.edges, at(n + 7), 18) == Some(at(103))
    &&& incoming(code.edges, at(n + 7), 21) == Some(at(n + 5))
    &&& seek(code.log, 0, 0) == 0
    &&& seek(code.log, 1, 0) == 13
    &&& seek(code.log, 2, 0) == 16
    &&& seek(code.log, 3, 0) == n + 11
    &&& seek(code.log, 18, 0) == 100
    &&& seek(code.log, 21, 0) == 105
    &&& seek(code.log, 22, 0) == n + 7
}

/// The load-factor check of a round.
spec fn listed_check(layout: HashtableLayout, ops: KeyHashOps) -> Resizing {
    Resizing {
        n: 24,
        block: 4,
        from: 2,
        entry_size: layout.entry_size,
        table: listed_table(),
        ops: ops,
    }
}

/// The probe of a round.
spec fn listed_search(layout: HashtableLayout, ops: KeyHashOps) -> Settling {
    Settling {
        n: 71,
        block: 15,
        from: 6,
        layout: layout,
        table: roomy_table(),
        key: Val::At(18),
        ops: ops,
    }
}

/// What comes before the end of `Set.from_list`.
proof fn listed_begins(layout: HashtableLayout, ops: KeyHashOps, whole: Code)
    requires
        begins_as(whole, listed_probed(layout, ops)),
    ensures
        begins_as(whole, listed_front(layout)),
        begins_as(whole, extract_code(listed_front(layout), Val::At(19))),
        listed_check(layout, ops).stands_in(whole),
        listed_search(layout, ops).stands_in(whole),
        tidy(listed_probed(layout, ops)),
        whole.log[24].block == 2,
        forall|i: int|
            0 <= i < 100 ==> (#[trigger] whole.log[i]).block != 18 && whole.log[i].block != 21
                && whole.log[i].block != 22 && whole.log[i].block != 3,
{
    let b = listed_front(layout);
    let e = extract_code(b, Val::At(19));
    let r = listed_resized(layout, ops);
    let p = listed_probed(layout, ops);
    listed_lengths(layout, ops);
    beginning_stands(whole, p);
    assert(tidy(e));
    assert(begins_as(p, r) && p.log[71].block == 6) by {
        reveal(listed_probed);
        assert(r.log =~= p.log.subrange(0, 71));
        assert(r.edges =~= p.edges.subrange(0, r.edges.len() as int));
    }
    assert(begins_as(r, e) && r.log[24].block == 2) by {
        reveal(listed_resized);
        assert(e.log =~= r.log.subrange(0, 24));
        assert(e.edges =~= r.edges.subrange(0, e.edges.len() as int));
    }
    crate::semantics::begins_further(whole, p, r);
    crate::semantics::begins_further(whole, r, e);
    beginning_stands(whole, r);
    beginning_stands(whole, e);
    assert(begins_as(e, b)) by {
        assert(b.log =~= e.log.subrange(0, 20));
        assert(b.edges =~= e.edges.subrange(0, b.edges.len() as int));
    }
    crate::semantics::begins_further(whole, e, b);
    assert(whole.log[71] == p.log[71]);
    assert(whole.log[24] == r.log[24]);
    assert(r == resize_code(e, layout, listed_table(), ops)) by {
        reveal(listed_resized);
    }
    resizing_stands(e, whole, layout, listed_table(), ops);
    assert(p == insert_probe_code(r, layout, roomy_table(), Val::At(18), ops)) by {
        reveal(listed_probed);
    }
    insert_probe_stands(r, whole, layout, roomy_table(), Val::At(18), ops);
    listed_blocks(layout, ops);
    assert forall|i: int| 0 <= i < 100 implies (#[trigger] whole.log[i]).block != 18 && whole.log[i].block != 21
        && whole.log[i].block != 22 && whole.log[i].block != 3 by {
        assert(whole.log[i] == p.log[i]);
    }
}

/// The blocks that the front, the check and the probe record in.
proof fn listed_blocks(layout: HashtableLayout, ops: KeyHashOps)
    ensures
        forall|i: int|
            0 <= i < 100 ==> (#[trigger] listed_probed(layout, ops).log[i]).block < 22 && listed_probed(
                layout,
                ops,
            ).log[i].block != 3 && listed_probed(layout, ops).log[i].block != 18 && listed_probed(
                layout,
                ops,
            ).log[i].block != 21,
{
    let r = listed_resized(layout, ops);
    let p = listed_probed(layout, ops);
    listed_lengths(layout, ops);
    assert(forall|i: int| 0 <= i < 71 ==> (#[trigger] r.log[i]).block < 15 && r.log[i].block != 3) by {
        reveal(listed_resized);
    }
    assert forall|i: int| 0 <= i < 100 implies (#[trigger] p.log[i]).block < 22 && p.log[i].block != 3
        && p.log[i].block != 18 && p.log[i].block != 21 by {
        reveal(listed_probed);
        if i < 71 {
            assert(p.log[i] == r.log[i]);
        }
    }
}

/// What `Set.from_list` records.
#[verifier::spinoff_prover]
#[verifier::rlimit(80)]
proof fn listing_is_recorded(c: &EmitContext, p: Code, layout: HashtableLayout, ops: KeyHashOps) -> (n: int)
    requires
        p == listed_probed(layout, ops),
        p.log.len() == 100,
        p.blocks == 22,
        p.edges.len() > 0,
        p.edges[0].phi == Val::At(13) && p.edges[0].value == num(0) && p.edges[0].from == 0,
        forall|j: int|
            1 <= j < p.edges.len() ==> ((#[trigger] p.edges[j]).phi matches Val::At(q) && 20 <= q < 100),
    ensures
        listing_stands(c, listed_end(c, p, layout), layout, ops, n),
{
    let code = listed_end(c, p, layout);
    let f = listed_filling(p, layout);
    let keyed = f.keyed(c);
    let k = f.owned_key(c).0;
    let pl = f.placed();
    let n = keyed.log.len() as int;
    let e = p.edges.len() as int;
    assert(f.s.log.len() == 105);
    assert(p.log.is_prefix_of(f.s.log));
    assert(f.s.log.is_prefix_of(pl.log));
    assert(pl.log.is_prefix_of(k.log));
    assert(k.log.is_prefix_of(keyed.log));
    assert(keyed.log.is_prefix_of(code.log));
    log_begins_further(code.log, keyed.log, k.log);
    log_begins_further(code.log, k.log, pl.log);
    log_begins_further(code.log, pl.log, f.s.log);
    log_begins_further(code.log, f.s.log, p.log);
    assert(code.log.len() == n + 13);
    assert(code.edges.len() == e + 3);
    assert(p.edges =~= code.edges.subrange(0, e));
    assert(f.s.edges == p.edges && keyed.edges == p.edges);
    assert(begins_as(code, p));
    listed_begins(layout, ops, code);
    beginning_stands(code, extract_code(listed_front(layout), Val::At(19)));
    beginning_stands(code, p);
    assert forall|i: int| 105 <= i < n + 7 implies (#[trigger] code.log[i]).block == 21 by {
        if i < n {
            assert(code.log[i] == keyed.log[i]);
            if i < k.log.len() {
                assert(keyed.log[i] == k.log[i]);
            }
        }
    }
    seek_finds(code.log, 0, 0, 0);
    seek_finds(code.log, 1, 0, 13);
    seek_finds(code.log, 2, 0, 16);
    seek_finds(code.log, 3, 0, (n + 11) as nat);
    seek_finds(code.log, 18, 0, 100);
    seek_finds(code.log, 21, 0, 105);
    seek_finds(code.log, 22, 0, (n + 7) as nat);
    incoming_finds(code.edges, Val::At(13), 0, 0);
    incoming_finds(code.edges, Val::At((n + 7) as usize), 18, e);
    incoming_finds(code.edges, Val::At((n + 7) as usize), 21, e + 1);
    incoming_finds(code.edges, Val::At(13), 22, e + 2);
    n
}

/// A list of items and the memory that it lies in, the stack slot that the
/// growing set lies in, and what `hash` and `eq` of the items compute.
pub struct Listing {
    pub memory: Memory,
    pub buf: u64,
    pub items: Seq<int>,
    pub slot: u64,
    pub f: KeyFns,
}

/// Equal to one of the first `n` items.
pub open spec fn is_item(f: KeyFns, items: Seq<int>, n: int, key: int) -> bool {
    exists|j: int| 0 <= j < n && (f.equal)(key, #[trigger] items[j])
}

/// A set has the first `n` items and nothing else.
pub open spec fn has_items(o: Outside, t: Buckets, f: KeyFns, items: Seq<int>, n: int) -> bool {
    forall|key: int| #[trigger] in_table(o, t, words_of(f, key)) == is_item(f, items, n, key)
}

impl Listing {
    /// The memory without the slot.
    pub open spec fn off_slot(self, o: Outside) -> Memory {
        let n = byte_count(o, LType::Table);
        Memory {
            taken: self.memory.taken.filter(|q: int| !(self.slot <= q < self.slot + n)),
            ..self.memory
        }
    }

    /// Whatever was taken is as it was, but for the slot.
    pub open spec fn keeps(self, o: Outside, now: Memory) -> bool {
        let n = byte_count(o, LType::Table);
        forall|q: int| #[trigger]
            self.memory.taken.contains(q) ==> now.taken.contains(q) && (self.slot <= q < self.slot + n
                || byte(now, q) == byte(self.memory, q))
    }

    /// The list lies in memory, apart from the slot; `hash` and `eq` are
    /// lawful and mind neither the slot nor what is newly taken; and the
    /// sizes that are computed from the list are words.
    pub open spec fn holds(self, o: Outside, layout: HashtableLayout, ops: KeyHashOps) -> bool {
        let n = byte_count(o, LType::Table);
        let size = layout.entry_size;
        &&& heap_calls(o)
        &&& lawful(self.f)
        &&& table_fits(o)
        &&& sound(self.memory)
        &&& in_memory(self.slot as int, n as int)
        &&& all_taken(self.memory, self.slot as int, n as int)
        &&& (o.values)(Val::At(10)) as u64 == self.slot
        &&& (o.parts)(0, 0) == self.buf
        &&& (o.parts)(0, 1) == self.items.len()
        &&& in_memory(self.buf as int, self.items.len() * size)
        &&& all_taken(self.memory, self.buf as int, self.items.len() * size)
        &&& self.buf + self.items.len() * size <= self.slot || self.slot + n <= self.buf
        &&& forall|i: int|
            0 <= i < self.items.len() ==> number(
                self.memory,
                self.buf + i * size,
                byte_count(o, value_type(layout.key_ty)),
            ) == #[trigger] self.items[i]
        &&& key_fns(o, ops, self.off_slot(o), -8, self.f)
        &&& 0 < size
        &&& byte_count(o, value_type(layout.key_ty)) <= size
        &&& 6 * (8 + 3 * self.items.len()) * size <= u64::MAX
    }
}

/// A set of the first `i` items, which counts them.
pub open spec fn is_set_of(
    o: Outside,
    s: Listing,
    t: Buckets,
    length: int,
    layout: HashtableLayout,
    i: int,
) -> bool {
    &&& laid_out(o, t)
    &&& power_of_two(t.capacity)
    &&& t.entry_size == layout.entry_size
    &&& t.key_ty == value_type(layout.key_ty)
    &&& proper(o, t, s.f)
    &&& occupied(t).finite() && occupied(t).len() == length
    &&& has_items(o, t, s.f, s.items, i)
    &&& s.keeps(o, t.memory)
}

/// The function has given back a set of the items; or an allocation has
/// failed.
pub open spec fn gave_set(code: Code, o: Outside, s: Listing, layout: HashtableLayout) -> spec_fn(
    Machine,
) -> bool {
    unless_starved(
        code,
        |l: Machine|
            exists|t: Buckets, length: int|
                {
                    &&& l.returned matches Some(x) && is_table_value(
                        o,
                        x,
                        t.entries as int,
                        t.states as int,
                        length,
                        t.capacity as int,
                    )
                    &&& t.memory == l.memory
                    &&& #[trigger] is_set_of(o, s, t, length, layout, s.items.len() as int)
                },
    )
}

/// A table of whose keys another holds all and no others has the same
/// answers.
proof fn same_answers(o: Outside, t: Buckets, w: Buckets, s: Listing, i: int)
    requires
        lawful(s.f),
        0 < t.capacity,
        0 < w.capacity,
        proper(o, t, s.f),
        keeps_keys(o, t, w, s.f),
        keys_come_from(o, t, w),
        has_items(o, t, s.f, s.items, i),
    ensures
        has_items(o, w, s.f, s.items, i),
{
    assert forall|key: int| #[trigger] in_table(o, w, words_of(s.f, key)) == is_item(
        s.f,
        s.items,
        i,
        key,
    ) by {
        let k = words_of(s.f, key);
        lawful_agrees(s.f, key);
        assert(in_table(o, t, k) == is_item(s.f, s.items, i, key));
        if in_table(o, w, k) {
            let j = held_somewhere(o, w, k);
            assert(w.state(j) == STATE_OCCUPIED);
            let b = choose|b: int|
                0 <= b < t.capacity && #[trigger] t.state(b) == STATE_OCCUPIED && t.key(o, b) == w.key(
                    o,
                    j,
                );
            assert(holds_key(o, t, k, b));
            held_is_in_table(o, t, s.f, key, b);
        }
    }
}

/// An item that the set has already changes nothing.
proof fn found_content(o: Outside, w: Buckets, s: Listing, i: int, b: int)
    requires
        lawful(s.f),
        proper(o, w, s.f),
        0 <= i < s.items.len(),
        0 <= b < w.capacity,
        holds_key(o, w, words_of(s.f, s.items[i]), b),
        has_items(o, w, s.f, s.items, i),
    ensures
        has_items(o, w, s.f, s.items, i + 1),
{
    assert forall|key: int| #[trigger] in_table(o, w, words_of(s.f, key)) == is_item(
        s.f,
        s.items,
        i + 1,
        key,
    ) by {
        assert(in_table(o, w, words_of(s.f, key)) == is_item(s.f, s.items, i, key));
        if (s.f.equal)(key, s.items[i]) {
            assert((s.f.equal)(s.items[i], w.key(o, b)));
            assert((s.f.equal)(key, w.key(o, b)));
            assert(holds_key(o, w, words_of(s.f, key), b));
            held_is_in_table(o, w, s.f, key, b);
        }
    }
}

/// An item that the set has not is added, and counted.
proof fn added_content(o: Outside, w: Buckets, x: Buckets, s: Listing, i: int, stop: nat)
    requires
        lawful(s.f),
        proper(o, w, s.f),
        0 <= i < s.items.len(),
        0 < w.capacity,
        settles(o, w, words_of(s.f, s.items[i]), stop),
        ({
            let b = w.visited((s.f.hash)(s.items[i]), stop);
            &&& !holds_key(o, w, words_of(s.f, s.items[i]), b)
            &&& differ_only_at(o, w, x, b)
            &&& x.state(b) == STATE_OCCUPIED
            &&& x.key(o, b) == s.items[i]
        }),
        has_items(o, w, s.f, s.items, i),
        occupied(w).finite(),
    ensures
        proper(o, x, s.f),
        has_items(o, x, s.f, s.items, i + 1),
        occupied(x).finite(),
        occupied(x).len() == occupied(w).len() + 1,
{
    let b = w.visited((s.f.hash)(s.items[i]), stop);
    visited_is_a_bucket(w, (s.f.hash)(s.items[i]), stop);
    filling_is_proper(o, w, x, s.f, s.items[i], stop);
    assert(occupied(x) =~= occupied(w).insert(b)) by {
        assert forall|j: int| #[trigger] occupied(x).contains(j) == occupied(w).insert(b).contains(j) by {
            if 0 <= j < w.capacity && j != b {
                assert(x.state(j) == w.state(j));
            }
        }
    }
    assert forall|key: int| #[trigger] in_table(o, x, words_of(s.f, key)) == is_item(
        s.f,
        s.items,
        i + 1,
        key,
    ) by {
        let k = words_of(s.f, key);
        assert(in_table(o, w, k) == is_item(s.f, s.items, i, key));
        if (s.f.equal)(key, s.items[i]) {
            assert(holds_key(o, x, k, b));
            held_is_in_table(o, x, s.f, key, b);
        }
        if in_table(o, w, k) {
            filling_keeps_others(o, w, x, b, k);
        }
        if in_table(o, x, k) {
            let j = held_somewhere(o, x, k);
            if j != b {
                assert(x.state(j) == w.state(j) && x.key(o, j) == w.key(o, j));
                assert(holds_key(o, w, k, j));
                held_is_in_table(o, w, s.f, key, j);
            }
        }
    }
}

/// What holds at the head of the loop, before item `i`.
spec fn at_head(
    o: Outside,
    s: Listing,
    layout: HashtableLayout,
    l: Machine,
    t: Buckets,
    length: int,
    i: int,
) -> bool {
    &&& l.at == 14
    &&& l.returned is None
    &&& l.results[0] == s.buf
    &&& l.results[1] == s.items.len()
    &&& l.results[10] == s.slot
    &&& l.results[13] == i
    &&& 0 <= i <= s.items.len()
    &&& length <= i
    &&& t.capacity <= 8 + 3 * i
    &&& l.memory == t.memory
    &&& own_table(o, t, s.memory)
    &&& is_set_of(o, s, t, length, layout, i)
    &&& is_table_value(
        o,
        number(l.memory, s.slot as int, byte_count(o, LType::Table)),
        t.entries as int,
        t.states as int,
        length,
        t.capacity as int,
    )
}

/// The same table, after its value has been put into the slot.
proof fn slot_is_filled(
    o: Outside,
    s: Listing,
    layout: HashtableLayout,
    ops: KeyHashOps,
    x: Buckets,
    value: int,
    length: int,
    i: int,
)
    requires
        s.holds(o, layout, ops),
        own_table(o, x, s.memory),
        is_set_of(o, s, x, length, layout, i),
        0 <= value < byte_limit(byte_count(o, LType::Table)),
    ensures
        ({
            let now = stored(x.memory, s.slot as int, value, byte_count(o, LType::Table));
            let t = Buckets { memory: now, ..x };
            &&& own_table(o, t, s.memory)
            &&& is_set_of(o, s, t, length, layout, i)
            &&& number(now, s.slot as int, byte_count(o, LType::Table)) == value
        }),
{
    let n = byte_count(o, LType::Table);
    let now = stored(x.memory, s.slot as int, value, n);
    let t = Buckets { memory: now, ..x };
    store_is_read_back(x.memory, s.slot as int, value, n);
    assert forall|q: int| 0 <= q <= u64::MAX && !(s.slot <= q < s.slot + n) implies #[trigger] byte(now, q)
        == byte(x.memory, q) by {
        store_spares_others(x.memory, s.slot as int, value, n, q);
    }
    assert(now.taken == x.memory.taken && now.blocks == x.memory.blocks) by {
        store_keeps_taken(x.memory, s.slot as int, value, n);
    }
    assert(0 < x.capacity * x.entry_size) by (nonlinear_arith)
        requires
            0 < x.capacity,
            0 < x.entry_size,
    ;
    apart(s.memory, x.entries as int, x.capacity * x.entry_size, s.slot as int, n as int);
    apart(s.memory, x.states as int, x.capacity as int, s.slot as int, n as int);
    assert(same_bytes(x, t));
    same_bytes_alike(o, x, t);
    alike_proper(o, x, t, s.f);
    alike_occupied(o, x, t);
    assert forall|key: int| #[trigger] in_table(o, t, words_of(s.f, key)) == is_item(s.f, s.items, i, key) by {
        alike_answers(o, x, t, words_of(s.f, key));
        same_bytes_alike(o, t, x);
        alike_answers(o, t, x, words_of(s.f, key));
        assert(in_table(o, x, words_of(s.f, key)) == is_item(s.f, s.items, i, key));
    }
}

/// A store takes nothing.
proof fn store_keeps_taken(memory: Memory, p: int, x: int, n: nat)
    ensures
        stored(memory, p, x, n).taken == memory.taken,
        stored(memory, p, x, n).blocks == memory.blocks,
    decreases n,
{
    if n > 0 {
        store_keeps_taken(with_byte(memory, p, (x % 0x100) as u8), p + 1, x / 0x100, (n - 1) as nat);
    }
}

/// A round ends: the set goes into the slot, and the next item is up.
#[verifier::spinoff_prover]
#[verifier::rlimit(60)]
proof fn round_ends(
    c: &EmitContext,
    code: Code,
    o: Outside,
    layout: HashtableLayout,
    ops: KeyHashOps,
    n: int,
    s: Listing,
    l: Machine,
    x: Buckets,
    value: int,
    length: int,
    i: int,
) -> (r: (Machine, Buckets))
    requires
        listing_stands(c, code, layout, ops, n),
        s.holds(o, layout, ops),
        l.at == n + 7,
        l.returned is None,
        l.from == 18 && read(o, l.entered, Val::At(103)) == value || l.from == 21 && read(
            o,
            l.entered,
            Val::At((n + 5) as usize),
        ) == value,
        is_table_value(o, value, x.entries as int, x.states as int, length, x.capacity as int),
        l.results[0] == s.buf,
        l.results[1] == s.items.len(),
        l.results[10] == s.slot,
        l.results[13] == i,
        l.memory == x.memory,
        own_table(o, x, s.memory),
        is_set_of(o, s, x, length, layout, i + 1),
        0 <= i < s.items.len() <= u64::MAX,
        length <= i + 1,
        x.capacity <= 8 + 3 * (i + 1),
    ensures
        l.leads_to(code, o, r.0),
        at_head(o, s, layout, r.0, r.1, length, i + 1),
{
    let at = |k: int| Val::At((n + k) as usize);
    takes(l, code, o, LType::Table, if l.from == 18 { Val::At(103) } else { at(5) });
    let m1 = l.step(code, o);
    assert(m1.results[(n + 7) as usize] == value);
    stores(m1, code, o, LType::Table, at(7), Val::At(10));
    let m2 = m1.step(code, o);
    combines(m2, code, o, BinOp::Add, LType::I64, Val::At(13), num(1));
    let m3 = m2.step(code, o);
    assert(m3.results[(n + 9) as usize] == i + 1);
    jumps(m3, code, o, 1);
    let m4 = m3.step(code, o);
    takes(m4, code, o, LType::I64, at(9));
    let m5 = m4.step(code, o);
    slot_is_filled(o, s, layout, ops, x, value, length, i + 1);
    let t = Buckets { memory: m5.memory, ..x };
    (m5, t)
}

/// The machine has settled at a bucket of a set that has room, for item
/// `i`.
spec fn at_place(
    o: Outside,
    s: Listing,
    layout: HashtableLayout,
    l: Machine,
    w: Buckets,
    length: int,
    i: int,
) -> bool {
    &&& l.returned is None
    &&& l.results[0] == s.buf
    &&& l.results[1] == s.items.len()
    &&& l.results[10] == s.slot
    &&& l.results[13] == i
    &&& l.results[18] == s.items[i]
    &&& l.results[22] == length
    &&& l.results[68] == w.entries
    &&& l.results[69] == w.states
    &&& l.results[70] == w.capacity
    &&& 0 <= i < s.items.len() <= u64::MAX
    &&& 0 <= length <= i
    &&& w.capacity <= 8 + 3 * (i + 1)
    &&& l.memory == w.memory
    &&& own_table(o, w, s.memory)
    &&& is_set_of(o, s, w, length, layout, i)
}

/// The item is there already: the set goes on as it is.
#[verifier::spinoff_prover]
#[verifier::rlimit(60)]
proof fn round_finds(
    c: &EmitContext,
    code: Code,
    o: Outside,
    layout: HashtableLayout,
    ops: KeyHashOps,
    n: int,
    s: Listing,
    l: Machine,
    w: Buckets,
    length: int,
    i: int,
    b: int,
) -> (r: (Machine, Buckets))
    requires
        listing_stands(c, code, layout, ops, n),
        s.holds(o, layout, ops),
        at_place(o, s, layout, l, w, length, i),
        l.at == 100,
        0 <= b < w.capacity,
        holds_key(o, w, words_of(s.f, s.items[i]), b),
    ensures
        l.leads_to(code, o, r.0),
        at_head(o, s, layout, r.0, r.1, length, i + 1),
{
    let m1 = making_runs(code, o, l, 18, roomy_table(), w, length);
    jumps(m1, code, o, 22);
    let m2 = m1.step(code, o);
    found_content(o, w, s, i, b);
    round_ends(c, code, o, layout, ops, n, s, m2, w, m1.results[103], length, i)
}

/// Filling a bucket of a set of one's own keeps everything else.
proof fn own_is_filled(o: Outside, s: Listing, w: Buckets, now: Memory, after: Memory, b: int, key: int)
    requires
        own_table(o, w, s.memory),
        s.keeps(o, w.memory),
        0 <= b < w.capacity,
        occupied_by(o, w, after, b, key),
        grows_but(w.memory, now, w.entries + b * w.entry_size, w.entry_size as int),
        after.taken == now.taken,
        after.blocks == now.blocks,
    ensures
        own_table(o, Buckets { memory: after, ..w }, s.memory),
        s.keeps(o, after),
{
    entry_address(w, b);
    assert((b + 1) * w.entry_size <= w.capacity * w.entry_size && 0 <= b * w.entry_size) by (nonlinear_arith)
        requires
            0 <= b < w.capacity,
            0 <= w.entry_size,
    ;
    assert forall|q: int| #[trigger] s.memory.taken.contains(q) implies after.taken.contains(q) && (s.slot
        <= q < s.slot + byte_count(o, LType::Table) || byte(after, q) == byte(s.memory, q)) by {
        assert(w.memory.taken.contains(q));
    }
    let x = Buckets { memory: after, ..w };
    assert forall|q: int| w.memory.taken.contains(q) implies #[trigger] after.taken.contains(q) by {}
    assert(all_taken(after, w.entries as int, w.capacity * w.entry_size));
    assert(all_taken(after, w.states as int, w.capacity as int));
    assert(now.blocks.contains_pair(w.entries as int, w.capacity * w.entry_size));
    assert(now.blocks.contains_pair(w.states as int, w.capacity as int));
    assert(sound(after));
    assert(laid_out(o, x));
}

/// The item is new: it goes into its bucket and is counted.
#[verifier::spinoff_prover]
#[verifier::rlimit(80)]
proof fn round_adds(
    c: &EmitContext,
    code: Code,
    o: Outside,
    layout: HashtableLayout,
    ops: KeyHashOps,
    n: int,
    s: Listing,
    l: Machine,
    w: Buckets,
    length: int,
    i: int,
    stop: nat,
) -> (r: (Machine, Buckets))
    requires
        listing_stands(c, code, layout, ops, n),
        s.holds(o, layout, ops),
        acquires_entries(c, o, layout),
        at_place(o, s, layout, l, w, length, i),
        l.at == 105,
        settles(o, w, words_of(s.f, s.items[i]), stop),
        ({
            let b = w.visited((s.f.hash)(s.items[i]), stop);
            &&& !holds_key(o, w, words_of(s.f, s.items[i]), b)
            &&& l.results[97] == b
            &&& l.results[98] == w.states + b
        }),
    ensures
        l.leads_to(code, o, r.0),
        at_head(o, s, layout, r.0, r.1, length + 1, i + 1),
{
    let f = listed_filling(listed_probed(layout, ops), layout);
    let key = s.items[i];
    let b = w.visited((s.f.hash)(key), stop);
    visited_is_a_bucket(w, (s.f.hash)(key), stop);
    number_is_small(s.memory, s.buf + i * layout.entry_size, byte_count(o, w.key_ty));
    assert(f.works_on(o, l, w, length as u64, b, key));
    let m1 = key_put_runs(c, code, o, f, l, w, length as u64, b, key);
    stores(m1, code, o, LType::I8, num(STATE_OCCUPIED), Val::At(98));
    let m2 = m1.step(code, o);
    assert(m1.results[98] == w.states + b);
    state_is_written(o, w, m1.memory, b, key);
    let after = stored(m1.memory, w.states + b, STATE_OCCUPIED as int, 1);
    assert(m2.memory == after);
    store_keeps_taken(m1.memory, w.states + b, STATE_OCCUPIED as int, 1);
    let x = Buckets { memory: after, ..w };
    filling_is_local(o, w, after, b, key);
    own_is_filled(o, s, w, m1.memory, after, b, key);
    added_content(o, w, x, s, i, stop);
    combines(m2, code, o, BinOp::Add, LType::I64, Val::At(22), num(1));
    let m3 = m2.step(code, o);
    assert(m2.results[22] == length);
    assert(m3.results[(n + 1) as usize] == length + 1);
    let longer = TableSnapshot { length: Val::At((n + 1) as usize), ..roomy_table() };
    assert(m3.results[68] == w.entries && m3.results[69] == w.states && m3.results[70] == w.capacity) by {
        assert(m1.results[68] == l.results[68]);
        assert(m1.results[69] == l.results[69]);
        assert(m1.results[70] == l.results[70]);
    }
    let m4 = making_runs(code, o, m3, 21, longer, x, length + 1);
    jumps(m4, code, o, 22);
    let m5 = m4.step(code, o);
    assert(m5.results[0] == s.buf && m5.results[1] == s.items.len() && m5.results[10] == s.slot
        && m5.results[13] == i) by {
        assert(m1.results[0] == l.results[0]);
        assert(m1.results[1] == l.results[1]);
        assert(m1.results[10] == l.results[10]);
        assert(m1.results[13] == l.results[13]);
        assert(m4.results[0] == m3.results[0]);
        assert(m4.results[1] == m3.results[1]);
        assert(m4.results[10] == m3.results[10]);
        assert(m4.results[13] == m3.results[13]);
    }
    round_ends(
        c,
        code,
        o,
        layout,
        ops,
        n,
        s,
        m5,
        x,
        m4.results[(n + 5) as usize],
        length + 1,
        i,
    )
}

/// `hash` and `eq` of the items in a memory that keeps what was taken.
proof fn item_is_called(o: Outside, layout: HashtableLayout, ops: KeyHashOps, s: Listing, memory: Memory, key: int)
    requires
        s.holds(o, layout, ops),
        s.keeps(o, memory),
    ensures
        key_calls(o, ops, memory, words_of(s.f, key)),
{
    let k = words_of(s.f, key);
    assert(spares_but(s.off_slot(o), memory, -8));
    let one = seq![k.key];
    assert(one.len() == 1 && one[0] == k.key);
    assert forall|other: int|
        (o.calls)(Callee::Function(ops.eq_fn), seq![k.key, other], memory) == (
            bit(#[trigger] (k.equal)(other)) as int,
            memory,
        ) by {
        let two = seq![k.key, other];
        assert(two.len() == 2 && two[0] == k.key && two[1] == other);
    }
}

/// What a round starts from, as the load-factor check sees it: whatever
/// was taken at first, with the slot as it is now.
spec fn round_base(s: Listing, now: Memory) -> Memory {
    Memory { taken: s.memory.taken, ..now }
}

/// The functions of the items do not mind the slot.
proof fn slot_is_not_minded(o: Outside, layout: HashtableLayout, ops: KeyHashOps, s: Listing, now: Memory)
    requires
        s.holds(o, layout, ops),
        s.keeps(o, now),
    ensures
        key_fns(o, ops, round_base(s, now), -8, s.f),
{
    let base = round_base(s, now);
    let off = s.off_slot(o);
    assert forall|memory: Memory| #[trigger] spares_but(base, memory, -8) implies spares_but(off, memory, -8) by {
        assert forall|q: int| #[trigger] off.taken.contains(q) implies memory.taken.contains(q) && (-8 <= q
            < 0 || byte(memory, q) == byte(off, q)) by {
            assert(base.taken.contains(q));
            assert(s.memory.taken.contains(q));
        }
    }
}

/// A memory that spares what a round starts from keeps what was taken.
proof fn round_keeps(o: Outside, s: Listing, now: Memory, later: Memory)
    requires
        s.keeps(o, now),
        sound(s.memory),
        spares_but(round_base(s, now), later, -8),
    ensures
        s.keeps(o, later),
{
    let base = round_base(s, now);
    assert forall|q: int| #[trigger] s.memory.taken.contains(q) implies later.taken.contains(q) && (s.slot
        <= q < s.slot + byte_count(o, LType::Table) || byte(later, q) == byte(s.memory, q)) by {
        assert(base.taken.contains(q));
    }
}

/// The state at the head of a later round.
spec fn at_some_head(o: Outside, s: Listing, layout: HashtableLayout, i: int) -> spec_fn(Machine) -> bool {
    |l: Machine|
        exists|t: Buckets, length: int| #[trigger] at_head(o, s, layout, l, t, length, i)
}

/// From the check of a round to the next round.
proof fn round_probes(
    c: &EmitContext,
    code: Code,
    o: Outside,
    layout: HashtableLayout,
    ops: KeyHashOps,
    n: int,
    s: Listing,
    l: Machine,
    w: Buckets,
    length: int,
    i: int,
)
    requires
        listing_stands(c, code, layout, ops, n),
        s.holds(o, layout, ops),
        acquires_entries(c, o, layout),
        value_type(layout.key_ty) == ops.key_basic_ty,
        at_place(o, s, layout, l, w, length, i),
        l.at == 71,
        exists|b: int| 0 <= b < w.capacity && #[trigger] w.state(b) != STATE_OCCUPIED,
    ensures
        l.comes_to(code, o, at_some_head(o, s, layout, i + 1)),
{
    let p = listed_search(layout, ops);
    let k = words_of(s.f, s.items[i]);
    let goal = at_some_head(o, s, layout, i + 1);
    item_is_called(o, layout, ops, s, l.memory, s.items[i]);
    assert(p.works_on(o, l, w, k));
    write_probe_settles(code, o, p, l, w, k);
    let half = settled(code, o, p, l, w, k);
    assert forall|x: Machine| half(x) implies #[trigger] x.comes_to(code, o, goal) by {
        let stop = choose|d: nat| #[trigger] settled_at(code, o, p, l, w, k, x, d);
        let b = w.visited(k.hash, stop);
        visited_is_a_bucket(w, k.hash, stop);
        address_in_range(w.states + b);
        assert(at_place(o, s, layout, x, w, length, i)) by {
            assert(x.results[0] == l.results[0]);
            assert(x.results[1] == l.results[1]);
            assert(x.results[10] == l.results[10]);
            assert(x.results[13] == l.results[13]);
            assert(x.results[18] == l.results[18]);
            assert(x.results[22] == l.results[22]);
            assert(x.results[68] == l.results[68]);
            assert(x.results[69] == l.results[69]);
            assert(x.results[70] == l.results[70]);
        }
        if holds_key(o, w, k, b) {
            let r = round_finds(c, code, o, layout, ops, n, s, x, w, length, i, b);
            assert(at_head(o, s, layout, r.0, r.1, length, i + 1));
            arrives(r.0, code, o, goal);
        } else {
            let r = round_adds(c, code, o, layout, ops, n, s, x, w, length, i, stop);
            assert(at_head(o, s, layout, r.0, r.1, length + 1, i + 1));
            arrives(r.0, code, o, goal);
        }
    }
    goes_on(l, code, o, half, goal);
}

/// The item of a round, where it lies in the list.
proof fn item_is_read(o: Outside, layout: HashtableLayout, ops: KeyHashOps, s: Listing, now: Memory, i: int)
    requires
        s.holds(o, layout, ops),
        s.keeps(o, now),
        0 <= i < s.items.len(),
    ensures
        number(now, s.buf + i * layout.entry_size, byte_count(o, value_type(layout.key_ty)))
            == s.items[i],
        0 <= i * layout.entry_size,
        s.buf + i * layout.entry_size <= u64::MAX,
{
    let size = layout.entry_size;
    let n = byte_count(o, value_type(layout.key_ty));
    assert((i + 1) * size <= s.items.len() * size && 0 <= i * size && (i + 1) * size == i * size + size)
        by (nonlinear_arith)
        requires
            0 <= i < s.items.len(),
            0 < size,
    ;
    let p = s.buf + i * size;
    assert forall|j: int| 0 <= j < n implies #[trigger] byte(now, p + j) == byte(s.memory, p + j) by {
        assert(s.memory.taken.contains(p + j));
    }
    number_of_bytes(now, p, s.memory, p, n);
}

/// The sizes that the check of a round computes with.
proof fn round_fits(o: Outside, layout: HashtableLayout, ops: KeyHashOps, s: Listing, t: Buckets, length: int, i: int)
    requires
        s.holds(o, layout, ops),
        t.entry_size == layout.entry_size,
        0 <= length <= i < s.items.len(),
        t.capacity <= 8 + 3 * i,
    ensures
        sizes_fit(t, length),
{
    let k = 8 + 3 * s.items.len();
    let size = layout.entry_size;
    assert(6 * k <= 6 * k * size) by (nonlinear_arith)
        requires
            0 < size,
            0 <= k,
    ;
    assert(2 * t.capacity * size <= 6 * k * size) by (nonlinear_arith)
        requires
            0 < size,
            t.capacity <= k,
            0 <= k,
    ;
}

/// A round up to its check.
#[verifier::spinoff_prover]
#[verifier::rlimit(60)]
proof fn round_begins(
    c: &EmitContext,
    code: Code,
    o: Outside,
    layout: HashtableLayout,
    ops: KeyHashOps,
    n: int,
    s: Listing,
    l: Machine,
    t: Buckets,
    length: int,
    i: int,
) -> (r: Machine)
    requires
        listing_stands(c, code, layout, ops, n),
        s.holds(o, layout, ops),
        at_head(o, s, layout, l, t, length, i),
        i < s.items.len() <= u64::MAX,
    ensures
        l.leads_to(code, o, r),
        r.at == 24,
        r.returned is None,
        r.memory == l.memory,
        r.results[0] == s.buf,
        r.results[1] == s.items.len(),
        r.results[10] == s.slot,
        r.results[13] == i,
        r.results[18] == s.items[i],
        r.results[20] == t.entries,
        r.results[21] == t.states,
        r.results[22] == length,
        r.results[23] == t.capacity,
{
    item_is_read(o, layout, ops, s, l.memory, i);
    tests(l, code, o, Pred::Uge, LType::I64, Val::At(13), Val::At(1));
    let m1 = l.step(code, o);
    branches(m1, code, o, Val::At(14), 3, 2);
    let m2 = m1.step(code, o);
    assert(m2.at == 16);
    multiplies(m2, code, o, Val::At(13), num(layout.entry_size));
    let m3 = m2.step(code, o);
    moves(m3, code, o, Val::At(0), Val::At(16));
    let m4 = m3.step(code, o);
    address_in_range(s.buf + i * layout.entry_size);
    assert(m4.results[17] == s.buf + i * layout.entry_size);
    loads(m4, code, o, value_type(layout.key_ty), Val::At(17));
    let m5 = m4.step(code, o);
    loads(m5, code, o, LType::Table, Val::At(10));
    let m6 = m5.step(code, o);
    takes_out(m6, code, o, 19, 0);
    let m7 = m6.step(code, o);
    takes_out(m7, code, o, 19, 1);
    let m8 = m7.step(code, o);
    takes_out(m8, code, o, 19, 2);
    let m9 = m8.step(code, o);
    takes_out(m9, code, o, 19, 3);
    m9.step(code, o)
}

/// A round comes to the next one, unless an allocation fails.
#[verifier::spinoff_prover]
#[verifier::rlimit(60)]
proof fn round_runs(
    c: &EmitContext,
    code: Code,
    o: Outside,
    layout: HashtableLayout,
    ops: KeyHashOps,
    n: int,
    s: Listing,
    l: Machine,
    t: Buckets,
    length: int,
    i: int,
)
    requires
        listing_stands(c, code, layout, ops, n),
        s.holds(o, layout, ops),
        acquires_entries(c, o, layout),
        value_type(layout.key_ty) == ops.key_basic_ty,
        at_head(o, s, layout, l, t, length, i),
        i < s.items.len() <= u64::MAX,
    ensures
        l.comes_to(code, o, unless_starved(code, at_some_head(o, s, layout, i + 1))),
{
    let goal = unless_starved(code, at_some_head(o, s, layout, i + 1));
    let m = round_begins(c, code, o, layout, ops, n, s, l, t, length, i);
    let z = listed_check(layout, ops);
    let base = round_base(s, m.memory);
    slot_is_not_minded(o, layout, ops, s, m.memory);
    round_fits(o, layout, ops, s, t, length, i);
    assert(z.works_on(o, m, t, length));
    assert(own_table(o, t, base));
    assert(spares_but(base, t.memory, -8));
    resizing_runs(code, o, z, m, t, length, s.f, base, -8);
    let half = resized_state(code, o, z, m, t, s.f, base, -8);
    assert forall|x: Machine| half(x) implies #[trigger] x.comes_to(code, o, goal) by {
        if starved(code, x) {
            arrives(x, code, o, goal);
        } else {
            let w = chosen(z, x, t);
            assert(has_resized(o, z, x, m, t, s.f, base, -8));
            round_keeps(o, s, m.memory, x.memory);
            assert(alike(o, t, t));
            keys_reach(o, t, t, w);
            same_answers(o, t, w, s, i);
            assert(base.taken == s.memory.taken);
            assert(none_taken(s.memory, w.entries as int, w.capacity * w.entry_size));
            assert(none_taken(s.memory, w.states as int, w.capacity as int));
            assert(all_taken(w.memory, w.entries as int, w.capacity * w.entry_size));
            assert(all_taken(w.memory, w.states as int, w.capacity as int));
            assert(own_table(o, w, s.memory));
            assert(at_place(o, s, layout, x, w, length, i)) by {
                assert(x.results[0] == m.results[0]);
                assert(x.results[1] == m.results[1]);
                assert(x.results[10] == m.results[10]);
                assert(x.results[13] == m.results[13]);
                assert(x.results[18] == m.results[18]);
                assert(x.results[22] == m.results[22]);
            }
            round_probes(c, code, o, layout, ops, n, s, x, w, length, i);
            let next = at_some_head(o, s, layout, i + 1);
            assert forall|y: Machine| next(y) implies #[trigger] y.comes_to(code, o, goal) by {
                arrives(y, code, o, goal);
            }
            goes_on(x, code, o, next, goal);
        }
    }
    goes_on(m, code, o, half, goal);
}

/// From the head of a round to the end.
proof fn rounds_run(
    c: &EmitContext,
    code: Code,
    o: Outside,
    layout: HashtableLayout,
    ops: KeyHashOps,
    n: int,
    s: Listing,
    l: Machine,
    t: Buckets,
    length: int,
    i: int,
)
    requires
        listing_stands(c, code, layout, ops, n),
        s.holds(o, layout, ops),
        acquires_entries(c, o, layout),
        value_type(layout.key_ty) == ops.key_basic_ty,
        at_head(o, s, layout, l, t, length, i),
        s.items.len() <= u64::MAX,
    ensures
        l.comes_to(code, o, gave_set(code, o, s, layout)),
    decreases s.items.len() - i,
{
    let goal = gave_set(code, o, s, layout);
    if i < s.items.len() {
        round_runs(c, code, o, layout, ops, n, s, l, t, length, i);
        let half = unless_starved(code, at_some_head(o, s, layout, i + 1));
        assert forall|x: Machine| half(x) implies #[trigger] x.comes_to(code, o, goal) by {
            if starved(code, x) {
                arrives(x, code, o, goal);
            } else {
                let (u, k) = choose|u: Buckets, k: int| #[trigger] at_head(o, s, layout, x, u, k, i + 1);
                rounds_run(c, code, o, layout, ops, n, s, x, u, k, i + 1);
            }
        }
        goes_on(l, code, o, half, goal);
    } else {
        tests(l, code, o, Pred::Uge, LType::I64, Val::At(13), Val::At(1));
        let m1 = l.step(code, o);
        branches(m1, code, o, Val::At(14), 3, 2);
        let m2 = m1.step(code, o);
        loads(m2, code, o, LType::Table, Val::At(10));
        let m3 = m2.step(code, o);
        ends(m3, code, o, LType::Table, Val::At((n + 11) as usize));
        let m4 = m3.step(code, o);
        assert(is_set_of(o, s, t, length, layout, s.items.len() as int));
        arrives(m4, code, o, goal);
    }
}

/// Nothing is in an empty table.
proof fn empty_has_nothing(o: Outside, s: Listing, t: Buckets)
    requires
        0 < t.capacity,
        forall|b: int| 0 <= b < t.capacity ==> #[trigger] t.state(b) == STATE_EMPTY,
    ensures
        proper(o, t, s.f),
        has_items(o, t, s.f, s.items, 0),
        occupied(t).finite(),
        occupied(t).len() == 0,
{
    empty_is_proper(o, t, s.f);
    assert(occupied(t) =~= Set::empty());
    assert forall|key: int| #[trigger] in_table(o, t, words_of(s.f, key)) == is_item(s.f, s.items, 0, key) by {
        if in_table(o, t, words_of(s.f, key)) {
            let b = held_somewhere(o, t, words_of(s.f, key));
        }
    }
}

/// `Set.from_list` gives back a proper set that has the items of the list
/// and nothing else, each once, and counts them; whatever was taken before
/// is as it was, but for the function's own stack slot. So it is unless an
/// allocation fails.
#[verifier::spinoff_prover]
#[verifier::rlimit(80)]
pub proof fn from_list_has_the_items(
    c: &EmitContext,
    o: Outside,
    layout: HashtableLayout,
    ops: KeyHashOps,
    s: Listing,
)
    requires
        s.holds(o, layout, ops),
        acquires_entries(c, o, layout),
        value_type(layout.key_ty) == ops.key_basic_ty,
        s.items.len() <= u64::MAX,
    ensures
        ({
            let code = set_from_list_code(c, start(), layout, ops);
            booted(code, s.memory).comes_to(code, o, gave_set(code, o, s, layout))
        }),
{
    let code = set_from_list_code(c, start(), layout, ops);
    let goal = gave_set(code, o, s, layout);
    listed_parts(c, layout, ops);
    listed_lengths(layout, ops);
    listed_edges(layout, ops);
    let n = listing_is_recorded(c, listed_probed(layout, ops), layout, ops);
    let size = 8 * layout.entry_size as int;
    assert(0 < size <= u64::MAX) by {
        let k = 8 + 3 * s.items.len();
        let e = layout.entry_size;
        assert(8 * e <= 6 * k * e) by (nonlinear_arith)
            requires
                0 < e,
                8 <= k,
        ;
    }
    let m0 = booted(code, s.memory);
    extracts(m0, code, o, LType::List, 0, 0);
    let m1 = m0.step(code, o);
    extracts(m1, code, o, LType::List, 0, 1);
    let m2 = m1.step(code, o);
    multiplies(m2, code, o, num(INITIAL_CAPACITY), num(layout.entry_size));
    let m3 = m2.step(code, o);
    assert(arguments(o, m3.results, a1(Val::At(2))) =~= seq![size]) by {
        reveal_with_fuel(arguments, 2);
    }
    calls(m3, code, o, Callee::Runtime(Rt::Malloc), a1(Val::At(2)));
    let m4 = m3.step(code, o);
    malloc_call(o, m3.memory, size);
    let e = m4.results[3];
    if e == 0 {
        assert(starved(code, m4));
        arrives(m4, code, o, goal);
    } else {
        assert(arguments(o, m4.results, a1(num(INITIAL_CAPACITY))) =~= seq![8int]) by {
            reveal_with_fuel(arguments, 2);
        }
        calls(m4, code, o, Callee::Runtime(Rt::Malloc), a1(num(INITIAL_CAPACITY)));
        let m5 = m4.step(code, o);
        malloc_call(o, m4.memory, 8);
        let st = m5.results[4];
        if st == 0 {
            assert(starved(code, m5));
            arrives(m5, code, o, goal);
        } else {
            listing_starts(c, code, o, layout, ops, n, s, m4.memory, m5);
        }
    }
}

/// From the two buffers of the empty set on.
#[verifier::spinoff_prover]
#[verifier::rlimit(80)]
proof fn listing_starts(
    c: &EmitContext,
    code: Code,
    o: Outside,
    layout: HashtableLayout,
    ops: KeyHashOps,
    n: int,
    s: Listing,
    first: Memory,
    m5: Machine,
)
    requires
        listing_stands(c, code, layout, ops, n),
        s.holds(o, layout, ops),
        acquires_entries(c, o, layout),
        value_type(layout.key_ty) == ops.key_basic_ty,
        s.items.len() <= u64::MAX,
        m5.at == 5,
        m5.returned is None,
        m5.results[0] == s.buf,
        m5.results[1] == s.items.len(),
        m5.results[3] != 0,
        m5.results[4] != 0,
        8 * layout.entry_size <= u64::MAX,
        allocates(s.memory, 8 * layout.entry_size, m5.results[3], first),
        allocates(first, 8, m5.results[4], m5.memory),
    ensures
        m5.comes_to(code, o, gave_set(code, o, s, layout)),
{
    let e = m5.results[3];
    let st = m5.results[4];
    let size = 8 * layout.entry_size as int;
    apart(first, st, 8, e, size);
    assert(arguments(o, m5.results, a3(Val::At(4), num(0), num(INITIAL_CAPACITY))) =~= seq![st, 0, 8]) by {
        reveal_with_fuel(arguments, 4);
    }
    calls(m5, code, o, Callee::Runtime(Rt::Memset), a3(Val::At(4), num(0), num(INITIAL_CAPACITY)));
    let m6 = m5.step(code, o);
    memset_call(o, m5.memory, st, 8);
    let t = Buckets {
        memory: m6.memory,
        entries: e as u64,
        states: st as u64,
        capacity: 8,
        entry_size: layout.entry_size,
        key_ty: value_type(layout.key_ty),
    };
    assert(power_of_two(t.capacity)) by {
        vstd::arithmetic::power2::lemma2_to64();
        assert(8 == vstd::arithmetic::power2::pow2(3));
    }
    assert(own_table(o, t, s.memory)) by {
        assert forall|q: int| #[trigger] s.memory.taken.contains(q) implies !(st <= q < st + 8) by {
            assert(first.taken.contains(q));
        }
        assert forall|q: int| e <= q < e + size implies #[trigger] m6.memory.taken.contains(q) by {
            assert(first.taken.contains(q));
        }
        assert(m6.memory.blocks.contains_pair(e, size));
    }
    assert(s.keeps(o, m6.memory)) by {
        assert forall|q: int| #[trigger] s.memory.taken.contains(q) implies m6.memory.taken.contains(q) && byte(
            m6.memory,
            q,
        ) == byte(s.memory, q) by {
            assert(first.taken.contains(q));
            assert(m5.memory.taken.contains(q));
        }
    }
    assert forall|b: int| 0 <= b < t.capacity implies #[trigger] t.state(b) == STATE_EMPTY by {
        assert(byte(m6.memory, st + b) == 0);
    }
    empty_has_nothing(o, s, t);
    let empty = TableSnapshot {
        entries_ptr: Val::At(3),
        states_ptr: Val::At(4),
        length: num(0),
        capacity: num(INITIAL_CAPACITY),
    };
    let m10 = making_runs(code, o, m6, 0, empty, t, 0);
    let value = m10.results[9];
    assert(m10.results[0] == m6.results[0] && m10.results[1] == m6.results[1]);
    finds_room(m10, code, o, LType::Table);
    let m11 = m10.step(code, o);
    stores(m11, code, o, LType::Table, Val::At(9), Val::At(10));
    let m12 = m11.step(code, o);
    slot_is_filled(o, s, layout, ops, t, value, 0, 0);
    jumps(m12, code, o, 1);
    let m13 = m12.step(code, o);
    takes(m13, code, o, LType::I64, num(0));
    let m14 = m13.step(code, o);
    let u = Buckets { memory: m14.memory, ..t };
    assert(at_head(o, s, layout, m14, u, 0, 0));
    rounds_run(c, code, o, layout, ops, n, s, m14, u, 0, 0);
}

} // verus!
