//! Value semantics of tables: a method that gives back a changed table
//! writes only to memory of its own, whatever the keys and values are.

use vstd::prelude::*;
use crate::ctx::EmitContext;
use crate::emit::enums::enum_value_code;
use crate::intrinsics::element::{
    acquire_in_slot_code, acquire_value_code, release_in_slot_code, Walk,
};
use crate::intrinsics::hashtable::cursor::{
    handed_code, next_code, packed_code, scan_code, CursorOption,
};
use crate::intrinsics::hashtable::insert::{
    fill_code, insert_probe_at, insert_probe_code, map_put_code, set_insert_code, write_front_code,
    InsertProbe,
};
use crate::intrinsics::hashtable::lifecycle::identity_code;
use crate::intrinsics::hashtable::read::{
    has_q_code, map_get_code, read_probe_at, read_probe_code, remove_code, OPTION_NONE, OPTION_SOME,
};
use crate::intrinsics::hashtable::resize::{rehash_code, resize_code, resized};
use crate::intrinsics::hashtable::util::{
    copied, copy_buffers_code, entry_pointer_code, extract_code, extracted, occupied_begin,
    occupied_end, table_struct_code, walk_entries_code, HashtableLayout, KeyHashOps, TableSnapshot,
    STATE_OCCUPIED, STATE_TOMBSTONE,
};
use crate::intrinsics::value_semantics::{
    acquire_in_slot_is_clean, acquire_value_is_clean, clean, clean_further, enum_value_is_clean, owns,
    place_is_owned, reading_is_clean, release_in_slot_is_clean,
};
use crate::ir::{IRSymbol, IRType, IRVariantTag};
use crate::llvm::{
    a1, a3, call, gep, iadd, imul, isub, itest, num, start, Code, Inst, LType, Pred, Val,
};
use crate::ownership::{
    goes_on_from, instruction_writes, made_stays, writes_its_own, writing_goes_on,
};
use crate::runtime::Rt;
use crate::types::value_type;

verus! {

/// Every edge belongs to a phi that is recorded.
spec fn settled(s: Code) -> bool {
    forall|j: int|
        0 <= j < s.edges.len() ==> match (#[trigger] s.edges[j]).phi {
            Val::At(p) => p < s.log.len(),
            _ => false,
        }
}

/// The walk over a copy writes only to the copy and its counter.
proof fn walk_entries_is_clean(
    c: &EmitContext,
    s: Code,
    layout: HashtableLayout,
    entries: Val,
    states: Val,
    capacity: Val,
)
    requires
        writes_its_own(s),
        owns(s, entries),
        s.room(64),
    ensures
        ({
            let t = walk_entries_code(c, s, Walk::Acquire, layout, entries, states, capacity);
            &&& clean(t, s)
            &&& t.edges == s.edges
            &&& t.log.len() <= s.log.len() + 30
        }),
{
    let b = occupied_begin(s, states, capacity);
    assert(goes_on_from(b, s));
    writing_goes_on(s, b);
    let e = entry_pointer_code(b, entries, s.v(2), layout.entry_size);
    reading_is_clean(b, e);
    clean_further(s, b, e);
    assert(e.log[b.log.len() as int + 1].inst == gep(entries, b.v(0)));
    place_is_owned(s, e, entries, b.v(0), b.log.len() + 1);
    acquire_in_slot_is_clean(c, e, layout.key_ty, b.v(1));
    let keyed = acquire_in_slot_code(c, e, layout.key_ty, b.v(1));
    clean_further(s, e, keyed);
    let body = match layout.value_ty {
        Some(value_ty) => {
            let v = keyed.i(gep(b.v(1), num(layout.key_size)));
            reading_is_clean(keyed, v);
            made_stays(e, keyed, b.v(1));
            place_is_owned(keyed, v, b.v(1), num(layout.key_size), keyed.log.len());
            acquire_in_slot_is_clean(c, v, value_ty, keyed.v(0));
            let w = acquire_in_slot_code(c, v, value_ty, keyed.v(0));
            clean_further(keyed, v, w);
            clean_further(s, keyed, w);
            w
        },
        None => keyed,
    };
    let end = occupied_end(s, body);
    assert(goes_on_from(end, body));
    writing_goes_on(body, end);
    clean_further(s, body, end);
}

/// Copying a table's buffers writes only to the copies.
proof fn copy_buffers_is_clean(c: &EmitContext, s: Code, layout: HashtableLayout, src: TableSnapshot)
    requires
        writes_its_own(s),
        s.room(80),
    ensures
        ({
            let t = copy_buffers_code(c, s, Walk::Acquire, layout, src);
            &&& clean(t, s)
            &&& owns(t, s.v(1))
            &&& owns(t, s.v(2))
            &&& t.edges == s.edges
            &&& t.log.len() <= s.log.len() + 35
        }),
{
    let b = s.i(imul(src.capacity, num(layout.entry_size)))
        .i(call(Rt::Malloc, a1(s.v(0))))
        .i(call(Rt::Malloc, a1(src.capacity)))
        .i(call(Rt::Memcpy, a3(s.v(1), src.entries_ptr, s.v(0))))
        .i(call(Rt::Memcpy, a3(s.v(2), src.states_ptr, src.capacity)));
    assert(goes_on_from(b, s));
    assert(owns(b, s.v(1)));
    assert(owns(b, s.v(2)));
    writing_goes_on(s, b);
    walk_entries_is_clean(c, b, layout, s.v(1), s.v(2), src.capacity);
    let t = copy_buffers_code(c, s, Walk::Acquire, layout, src);
    made_stays(b, t, s.v(1));
    made_stays(b, t, s.v(2));
    clean_further(s, b, t);
}

/// Moving entries writes only to the table that they are moved to.
proof fn rehash_is_clean(
    s: Code,
    layout: HashtableLayout,
    old_table: TableSnapshot,
    new_table: TableSnapshot,
    ops: KeyHashOps,
)
    requires
        writes_its_own(s),
        s.room(32),
        owns(s, new_table.entries_ptr),
        owns(s, new_table.states_ptr),
        settled(s),
    ensures
        clean(rehash_code(s, layout, old_table, new_table, ops), s),
        settled(rehash_code(s, layout, old_table, new_table, ops)),
        rehash_code(s, layout, old_table, new_table, ops).log.len() == s.log.len() + 30,
{
    let t = rehash_code(s, layout, old_table, new_table, ops);
    let n = s.log.len();
    assert(t.log.len() == n + 30 && t.edges.len() == s.edges.len() + 4);
    assert(goes_on_from(t, s));
    assert(t.log[n as int + 16].inst == gep(new_table.states_ptr, s.v(15)));
    place_is_owned(s, t, new_table.states_ptr, s.v(15), n + 16);
    assert(t.log[n as int + 24].inst == gep(new_table.entries_ptr, s.v(23)));
    place_is_owned(s, t, new_table.entries_ptr, s.v(23), n + 24);
    writing_goes_on(s, t);
    assert forall|j: int| 0 <= j < t.edges.len() implies match (#[trigger] t.edges[j]).phi {
        Val::At(p) => p < t.log.len(),
        _ => false,
    } by {
        if j < s.edges.len() {
            assert(t.edges[j] == s.edges[j]);
        }
    }
}

/// Growing a table of one's own writes only to tables of one's own.
proof fn resize_is_clean(s: Code, layout: HashtableLayout, table: TableSnapshot, ops: KeyHashOps)
    requires
        writes_its_own(s),
        s.room(64),
        owns(s, table.entries_ptr),
        owns(s, table.states_ptr),
        settled(s),
    ensures
        ({
            let t = resize_code(s, layout, table, ops);
            &&& clean(t, s)
            &&& owns(t, resized(s, table).entries_ptr)
            &&& owns(t, resized(s, table).states_ptr)
            &&& t.log.len() == s.log.len() + 47
        }),
{
    let fresh = TableSnapshot {
        entries_ptr: s.v(7),
        states_ptr: s.v(8),
        length: table.length,
        capacity: s.v(5),
    };
    let g = s.word("need_resize"@).word("no_resize"@).word("after_resize"@)
        .i(iadd(table.length, num(1)))
        .i(imul(s.v(0), num(4)))
        .i(imul(table.capacity, num(3)))
        .i(itest(Pred::Ugt, s.v(1), s.v(2)))
        .i(Inst::CondBr(s.v(3), s.b(0), s.b(1)))
        .at(s.b(0))
        .i(imul(table.capacity, num(2)))
        .i(imul(s.v(5), num(layout.entry_size)))
        .i(call(Rt::Malloc, a1(s.v(6))))
        .i(call(Rt::Malloc, a1(s.v(5))))
        .i(call(Rt::Memset, a3(s.v(8), num(0), s.v(5))));
    assert(goes_on_from(g, s));
    assert(owns(g, s.v(7)));
    assert(owns(g, s.v(8)));
    writing_goes_on(s, g);
    assert(settled(g)) by {
        assert(g.edges == s.edges);
    }
    rehash_is_clean(g, layout, table, fresh, ops);
    let r = rehash_code(g, layout, table, fresh, ops);
    clean_further(s, g, r);
    made_stays(g, r, s.v(7));
    made_stays(g, r, s.v(8));
    made_stays(s, r, table.entries_ptr);
    made_stays(s, r, table.states_ptr);
    joining_is_clean(s, r, table, fresh);
    let t = resize_code(s, layout, table, ops);
    assert(t == joined_code(s, r, table, fresh));
    clean_further(s, r, t);
}

/// The end of a load-factor check.
spec fn joined_code(s: Code, r: Code, table: TableSnapshot, fresh: TableSnapshot) -> Code {
    r.i(call(Rt::Free, a1(table.entries_ptr)))
        .i(call(Rt::Free, a1(table.states_ptr)))
        .i(Inst::Br(s.b(2)))
        .at(s.b(1))
        .i(Inst::Br(s.b(2)))
        .at(s.b(2))
        .i(Inst::Phi(LType::Ptr))
        .edge(r.v(4), fresh.entries_ptr, r.cur)
        .edge(r.v(4), table.entries_ptr, s.b(1))
        .i(Inst::Phi(LType::Ptr))
        .edge(r.v(5), fresh.states_ptr, r.cur)
        .edge(r.v(5), table.states_ptr, s.b(1))
        .i(Inst::Phi(LType::I64))
        .edge(r.v(6), fresh.capacity, r.cur)
        .edge(r.v(6), table.capacity, s.b(1))
}

/// Both tables that a load-factor check chooses from are one's own.
proof fn joining_is_clean(s: Code, r: Code, table: TableSnapshot, fresh: TableSnapshot)
    requires
        writes_its_own(r),
        r.room(8),
        settled(r),
        owns(r, table.entries_ptr),
        owns(r, table.states_ptr),
        owns(r, fresh.entries_ptr),
        owns(r, fresh.states_ptr),
    ensures
        ({
            let t = joined_code(s, r, table, fresh);
            &&& clean(t, r)
            &&& owns(t, r.v(4))
            &&& owns(t, r.v(5))
            &&& t.log.len() == r.log.len() + 7
        }),
{
    let t = joined_code(s, r, table, fresh);
    let e = r.edges.len() as int;
    assert(t.edges.len() == e + 6);
    assert forall|j: int| 0 <= j < e implies #[trigger] t.edges[j] == r.edges[j] by {}
    assert(goes_on_from(t, r));
    made_stays(r, t, table.entries_ptr);
    made_stays(r, t, table.states_ptr);
    made_stays(r, t, fresh.entries_ptr);
    made_stays(r, t, fresh.states_ptr);
    writing_goes_on(r, t);
    assert(owns(t, r.v(4))) by {
        assert forall|j: int| 0 <= j < t.edges.len() && (#[trigger] t.edges[j]).phi == r.v(4) implies (
        t.edges[j].value == fresh.entries_ptr || t.edges[j].value == table.entries_ptr) by {}
    }
    assert(owns(t, r.v(5))) by {
        assert forall|j: int| 0 <= j < t.edges.len() && (#[trigger] t.edges[j]).phi == r.v(5) implies (
        t.edges[j].value == fresh.states_ptr || t.edges[j].value == table.states_ptr) by {}
    }
}

/// Probing writes nothing, and leads to places in the table.
proof fn insert_probe_is_clean(
    s: Code,
    layout: HashtableLayout,
    table: TableSnapshot,
    key: Val,
    ops: KeyHashOps,
)
    requires
        writes_its_own(s),
        s.room(32),
        owns(s, table.entries_ptr),
        owns(s, table.states_ptr),
    ensures
        ({
            let t = insert_probe_code(s, layout, table, key, ops);
            &&& clean(t, s)
            &&& owns(t, insert_probe_at(s).e_ptr)
            &&& owns(t, insert_probe_at(s).s_ptr)
            &&& t.log.len() == s.log.len() + 29
        }),
{
    let t = insert_probe_code(s, layout, table, key, ops);
    let n = s.log.len();
    assert(goes_on_from(t, s));
    reading_is_clean(s, t);
    assert(t.log[n as int + 27].inst == gep(table.states_ptr, s.v(26)));
    place_is_owned(s, t, table.states_ptr, s.v(26), n + 27);
    assert(t.log[n as int + 13].inst == gep(table.entries_ptr, s.v(12)));
    place_is_owned(s, t, table.entries_ptr, s.v(12), n + 13);
}

/// The same of a probe that only reads.
proof fn read_probe_is_clean(
    s: Code,
    layout: HashtableLayout,
    table: TableSnapshot,
    key: Val,
    ops: KeyHashOps,
)
    requires
        writes_its_own(s),
        s.room(24),
        owns(s, table.entries_ptr),
        owns(s, table.states_ptr),
    ensures
        ({
            let t = read_probe_code(s, layout, table, key, ops);
            &&& clean(t, s)
            &&& owns(t, read_probe_at(s).e_ptr)
            &&& owns(t, read_probe_at(s).s_ptr)
            &&& t.log.len() == s.log.len() + 19
        }),
{
    let t = read_probe_code(s, layout, table, key, ops);
    let n = s.log.len();
    assert(goes_on_from(t, s));
    reading_is_clean(s, t);
    assert(t.log[n as int + 5].inst == gep(table.states_ptr, s.v(4)));
    place_is_owned(s, t, table.states_ptr, s.v(4), n + 5);
    assert(t.log[n as int + 12].inst == gep(table.entries_ptr, s.v(11)));
    place_is_owned(s, t, table.entries_ptr, s.v(11), n + 12);
}

/// Filling a bucket of one's own writes only there.
proof fn fill_is_clean(
    c: &EmitContext,
    s: Code,
    layout: HashtableLayout,
    table: TableSnapshot,
    probe: InsertProbe,
    key: Val,
    value: Option<(IRType, Val)>,
)
    requires
        writes_its_own(s),
        s.room(24),
        owns(s, table.entries_ptr),
        owns(s, probe.s_ptr),
    ensures
        clean(fill_code(c, s, layout, table, probe, key, value).0, s),
{
    let e = entry_pointer_code(s, table.entries_ptr, probe.pidx, layout.entry_size);
    reading_is_clean(s, e);
    assert(e.log[s.log.len() as int + 1].inst == gep(table.entries_ptr, s.v(0)));
    place_is_owned(s, e, table.entries_ptr, s.v(0), s.log.len() + 1);
    acquire_value_is_clean(c, e, layout.key_ty, key);
    let (k, owned_key) = acquire_value_code(c, e, layout.key_ty, key);
    made_stays(e, k, s.v(1));
    instruction_writes(k, Inst::Store(value_type(layout.key_ty), owned_key, s.v(1)));
    let keyed = k.i(Inst::Store(value_type(layout.key_ty), owned_key, s.v(1)));
    clean_further(s, e, k);
    clean_further(s, k, keyed);
    let filled = match value {
        Some((value_ty, x)) => {
            let g = keyed.i(gep(s.v(1), num(layout.key_size)));
            reading_is_clean(keyed, g);
            made_stays(k, keyed, s.v(1));
            place_is_owned(keyed, g, s.v(1), num(layout.key_size), keyed.log.len());
            acquire_value_is_clean(c, g, value_ty, x);
            let (v, owned) = acquire_value_code(c, g, value_ty, x);
            made_stays(g, v, keyed.v(0));
            instruction_writes(v, Inst::Store(value_type(value_ty), owned, keyed.v(0)));
            let w = v.i(Inst::Store(value_type(value_ty), owned, keyed.v(0)));
            clean_further(keyed, g, v);
            clean_further(keyed, v, w);
            clean_further(s, keyed, w);
            w
        },
        None => keyed,
    };
    made_stays(s, filled, probe.s_ptr);
    let mark = Inst::Store(LType::I8, num(STATE_OCCUPIED), probe.s_ptr);
    instruction_writes(filled, mark);
    let marked = filled.i(mark);
    instruction_writes(marked, iadd(table.length, num(1)));
    clean_further(s, filled, marked);
    clean_further(s, marked, marked.i(iadd(table.length, num(1))));
}

/// Giving back a table writes nothing.
proof fn give_back_is_clean(s: Code, table: TableSnapshot)
    requires
        writes_its_own(s),
    ensures
        clean(table_struct_code(s, table).i(Inst::Ret(LType::Table, s.v(3))), s),
        table_struct_code(s, table).i(Inst::Ret(LType::Table, s.v(3))).log.len() == s.log.len() + 5,
{
    reading_is_clean(s, table_struct_code(s, table).i(Inst::Ret(LType::Table, s.v(3))));
}

/// The front of a write: the receiver is copied and the copy grown.
proof fn write_front_is_clean(c: &EmitContext, layout: HashtableLayout, ops: KeyHashOps)
    ensures
        ({
            let (r, table) = write_front_code(c, start(), layout, ops);
            &&& writes_its_own(r)
            &&& owns(r, table.entries_ptr)
            &&& owns(r, table.states_ptr)
            &&& r.log.len() <= 90
        }),
{
    let s = start();
    let e = extract_code(s, Val::Param(0));
    reading_is_clean(s, e);
    copy_buffers_is_clean(c, e, layout, extracted(s));
    let t = copy_buffers_code(c, e, Walk::Acquire, layout, extracted(s));
    assert(settled(t));
    resize_is_clean(t, layout, copied(e, extracted(s)), ops);
}

/// `Set.insert` writes only to memory of its own.
pub proof fn insert_writes_its_own(c: &EmitContext, layout: HashtableLayout, ops: KeyHashOps)
    ensures
        writes_its_own(set_insert_code(c, start(), layout, ops)),
{
    write_front_is_clean(c, layout, ops);
    let (r, table) = write_front_code(c, start(), layout, ops);
    insert_ends_clean(c, r, table, layout, ops);
}

proof fn insert_ends_clean(
    c: &EmitContext,
    r: Code,
    table: TableSnapshot,
    layout: HashtableLayout,
    ops: KeyHashOps,
)
    requires
        writes_its_own(r),
        owns(r, table.entries_ptr),
        owns(r, table.states_ptr),
        r.log.len() <= 90,
    ensures
        ({
            let probe = insert_probe_at(r);
            let p = insert_probe_code(r, layout, table, Val::Param(1), ops).at(probe.update_bb);
            let already = table_struct_code(p, table)
                .i(Inst::Ret(LType::Table, p.v(3)))
                .at(probe.insert_bb);
            let (filled, longer) = fill_code(c, already, layout, table, probe, Val::Param(1), None);
            writes_its_own(table_struct_code(filled, longer).i(Inst::Ret(LType::Table, filled.v(3))))
        }),
{
    let probe = insert_probe_at(r);
    insert_probe_is_clean(r, layout, table, Val::Param(1), ops);
    let p = insert_probe_code(r, layout, table, Val::Param(1), ops).at(probe.update_bb);
    assert(clean(p, r));
    give_back_is_clean(p, table);
    let already = table_struct_code(p, table).i(Inst::Ret(LType::Table, p.v(3))).at(probe.insert_bb);
    assert(clean(already, p));
    made_stays(r, p, table.entries_ptr);
    made_stays(p, already, table.entries_ptr);
    made_stays(p, already, probe.s_ptr);
    fill_is_clean(c, already, layout, table, probe, Val::Param(1), None);
    let (filled, longer) = fill_code(c, already, layout, table, probe, Val::Param(1), None);
    give_back_is_clean(filled, longer);
}

/// `Map.put` writes only to memory of its own.
pub proof fn put_writes_its_own(
    c: &EmitContext,
    layout: HashtableLayout,
    ops: KeyHashOps,
    value_ty: IRType,
)
    ensures
        writes_its_own(map_put_code(c, start(), layout, ops, value_ty)),
{
    write_front_is_clean(c, layout, ops);
    let (r, table) = write_front_code(c, start(), layout, ops);
    put_ends_clean(c, r, table, layout, ops, value_ty);
}

proof fn put_ends_clean(
    c: &EmitContext,
    r: Code,
    table: TableSnapshot,
    layout: HashtableLayout,
    ops: KeyHashOps,
    value_ty: IRType,
)
    requires
        writes_its_own(r),
        owns(r, table.entries_ptr),
        owns(r, table.states_ptr),
        r.log.len() <= 90,
    ensures
        ({
            let probe = insert_probe_at(r);
            let p = insert_probe_code(r, layout, table, Val::Param(1), ops).at(probe.update_bb);
            let released = release_in_slot_code(
                c,
                p.i(gep(probe.e_ptr, num(layout.key_size))),
                value_ty,
                p.v(0),
            );
            let (acquired, owned) = acquire_value_code(c, released, value_ty, Val::Param(2));
            let replaced = acquired.i(Inst::Store(value_type(value_ty), owned, p.v(0)));
            let updated = table_struct_code(replaced, table)
                .i(Inst::Ret(LType::Table, replaced.v(3)))
                .at(probe.insert_bb);
            let (filled, longer) = fill_code(
                c,
                updated,
                layout,
                table,
                probe,
                Val::Param(1),
                Some((value_ty, Val::Param(2))),
            );
            writes_its_own(table_struct_code(filled, longer).i(Inst::Ret(LType::Table, filled.v(3))))
        }),
{
    let probe = insert_probe_at(r);
    insert_probe_is_clean(r, layout, table, Val::Param(1), ops);
    let p = insert_probe_code(r, layout, table, Val::Param(1), ops).at(probe.update_bb);
    assert(clean(p, r));
    assert(owns(p, probe.e_ptr) && owns(p, probe.s_ptr));
    made_stays(r, p, table.entries_ptr);
    let g = p.i(gep(probe.e_ptr, num(layout.key_size)));
    reading_is_clean(p, g);
    place_is_owned(p, g, probe.e_ptr, num(layout.key_size), p.log.len());
    release_in_slot_is_clean(c, g, value_ty, p.v(0));
    let released = release_in_slot_code(c, g, value_ty, p.v(0));
    acquire_value_is_clean(c, released, value_ty, Val::Param(2));
    let (acquired, owned) = acquire_value_code(c, released, value_ty, Val::Param(2));
    clean_further(g, released, acquired);
    made_stays(g, acquired, p.v(0));
    let store = Inst::Store(value_type(value_ty), owned, p.v(0));
    instruction_writes(acquired, store);
    let replaced = acquired.i(store);
    clean_further(g, acquired, replaced);
    clean_further(p, g, replaced);
    give_back_is_clean(replaced, table);
    let updated = table_struct_code(replaced, table)
        .i(Inst::Ret(LType::Table, replaced.v(3)))
        .at(probe.insert_bb);
    assert(clean(updated, replaced));
    clean_further(p, replaced, updated);
    made_stays(p, updated, table.entries_ptr);
    made_stays(p, updated, probe.s_ptr);
    let value = Some((value_ty, Val::Param(2)));
    fill_is_clean(c, updated, layout, table, probe, Val::Param(1), value);
    let (filled, longer) = fill_code(c, updated, layout, table, probe, Val::Param(1), value);
    give_back_is_clean(filled, longer);
}

/// `Map.from_map` and `Set.from_set` write only to memory of their own.
pub proof fn identity_writes_its_own(c: &EmitContext, layout: HashtableLayout)
    ensures
        writes_its_own(identity_code(c, start(), layout)),
{
    let s = start();
    let e = extract_code(s, Val::Param(0));
    reading_is_clean(s, e);
    copy_buffers_is_clean(c, e, layout, extracted(s));
    let t = copy_buffers_code(c, e, Walk::Acquire, layout, extracted(s));
    give_back_is_clean(t, copied(e, extracted(s)));
}

/// `remove` writes only to memory of its own.
pub proof fn remove_writes_its_own(c: &EmitContext, layout: HashtableLayout, ops: KeyHashOps)
    ensures
        writes_its_own(remove_code(c, start(), layout, ops)),
{
    let s = start();
    let e = extract_code(s, Val::Param(0));
    reading_is_clean(s, e);
    copy_buffers_is_clean(c, e, layout, extracted(s));
    let t = copy_buffers_code(c, e, Walk::Acquire, layout, extracted(s));
    remove_ends_clean(c, t, copied(e, extracted(s)), layout, ops);
}

proof fn remove_ends_clean(
    c: &EmitContext,
    t: Code,
    table: TableSnapshot,
    layout: HashtableLayout,
    ops: KeyHashOps,
)
    requires
        writes_its_own(t),
        owns(t, table.entries_ptr),
        owns(t, table.states_ptr),
        t.log.len() <= 60,
    ensures
        ({
            let probe = read_probe_at(t);
            let found = read_probe_code(t, layout, table, Val::Param(1), ops).at(probe.found_bb);
            let keyed = release_in_slot_code(c, found, layout.key_ty, probe.e_ptr);
            let released = match layout.value_ty {
                Some(value_ty) => release_in_slot_code(
                    c,
                    keyed.i(gep(probe.e_ptr, num(layout.key_size))),
                    value_ty,
                    keyed.v(0),
                ),
                None => keyed,
            };
            let shorter = released.i(
                Inst::Store(LType::I8, num(STATE_TOMBSTONE), probe.s_ptr),
            ).i(isub(table.length, num(1)));
            let gone = table_struct_code(
                shorter,
                TableSnapshot { length: released.v(1), ..table },
            )
                .i(Inst::Ret(LType::Table, shorter.v(3)))
                .at(probe.not_found_bb);
            writes_its_own(table_struct_code(gone, table).i(Inst::Ret(LType::Table, gone.v(3))))
        }),
{
    let probe = read_probe_at(t);
    read_probe_is_clean(t, layout, table, Val::Param(1), ops);
    let found = read_probe_code(t, layout, table, Val::Param(1), ops).at(probe.found_bb);
    assert(clean(found, t));
    assert(owns(found, probe.s_ptr));
    release_in_slot_is_clean(c, found, layout.key_ty, probe.e_ptr);
    let keyed = release_in_slot_code(c, found, layout.key_ty, probe.e_ptr);
    let released = match layout.value_ty {
        Some(value_ty) => {
            let g = keyed.i(gep(probe.e_ptr, num(layout.key_size)));
            reading_is_clean(keyed, g);
            release_in_slot_is_clean(c, g, value_ty, keyed.v(0));
            let w = release_in_slot_code(c, g, value_ty, keyed.v(0));
            clean_further(found, keyed, g);
            clean_further(found, g, w);
            w
        },
        None => keyed,
    };
    made_stays(found, released, probe.s_ptr);
    let mark = Inst::Store(LType::I8, num(STATE_TOMBSTONE), probe.s_ptr);
    instruction_writes(released, mark);
    let marked = released.i(mark);
    instruction_writes(marked, isub(table.length, num(1)));
    let shorter = marked.i(isub(table.length, num(1)));
    let less = TableSnapshot { length: released.v(1), ..table };
    give_back_is_clean(shorter, less);
    let gone = table_struct_code(shorter, less)
        .i(Inst::Ret(LType::Table, shorter.v(3)))
        .at(probe.not_found_bb);
    assert(writes_its_own(gone));
    give_back_is_clean(gone, table);
}

/// `has?` writes nothing.
pub proof fn has_writes_its_own(layout: HashtableLayout, ops: KeyHashOps)
    ensures
        writes_its_own(has_q_code(start(), layout, ops)),
{
    reading_is_clean(start(), has_q_code(start(), layout, ops));
}

/// `Map.get` writes only memory of its own.
pub proof fn map_get_writes_its_own(
    c: &EmitContext,
    layout: HashtableLayout,
    ops: KeyHashOps,
    value_ty: IRType,
    option: IRSymbol,
)
    ensures
        writes_its_own(map_get_code(c, start(), layout, ops, value_ty, option)),
{
    let s = start();
    let t = extract_code(s, Val::Param(0));
    let probe = read_probe_at(t);
    let found = read_probe_code(t, layout, extracted(s), Val::Param(1), ops).at(probe.found_bb);
    let ok = found.i(gep(probe.e_ptr, num(layout.key_size))).i(
        Inst::Load(value_type(value_ty), found.v(0)),
    );
    reading_is_clean(s, ok);
    acquire_value_is_clean(c, ok, value_ty, found.v(1));
    let (a, owned) = acquire_value_code(c, ok, value_ty, found.v(1));
    wrapping_is_clean(
        c,
        a,
        option,
        IRVariantTag(OPTION_SOME),
        IRVariantTag(OPTION_NONE),
        owned,
        probe.not_found_bb,
    );
}

/// Giving back `Some` of a value, and `None` in another block, writes only
/// memory of its own.
proof fn wrapping_is_clean(
    c: &EmitContext,
    a: Code,
    option: IRSymbol,
    some_tag: IRVariantTag,
    none_tag: IRVariantTag,
    value: Val,
    other: usize,
)
    requires
        writes_its_own(a),
        a.room(64),
    ensures
        ({
            let (w, some) = enum_value_code(c, a, option, some_tag, seq![value]);
            let (n, none) = enum_value_code(
                c,
                w.i(Inst::Ret(LType::Enum(option), some)).at(other),
                option,
                none_tag,
                seq![],
            );
            writes_its_own(n.i(Inst::Ret(LType::Enum(option), none)))
        }),
{
    enum_value_is_clean(c, a, option, some_tag, seq![value]);
    let (w, some) = enum_value_code(c, a, option, some_tag, seq![value]);
    let r = w.i(Inst::Ret(LType::Enum(option), some)).at(other);
    reading_is_clean(w, r);
    enum_value_is_clean(c, r, option, none_tag, seq![]);
    let (n, none) = enum_value_code(c, r, option, none_tag, seq![]);
    reading_is_clean(n, n.i(Inst::Ret(LType::Enum(option), none)));
}

/// `next` writes only memory of its own.
pub proof fn next_writes_its_own(c: &EmitContext, layout: HashtableLayout, option: CursorOption)
    ensures
        writes_its_own(next_code(c, start(), layout, option)),
{
    let s = start();
    let scan = scan_code(s, layout);
    let packed = packed_code(c, s, layout, option);
    let h = handed_code(c, s, layout, option);
    reading_is_clean(s, scan);
    assert(goes_on_from(packed, scan));
    reading_is_clean(scan, packed);
    wrapping_is_clean(c, packed, option.symbol, option.some, option.none, h.code.v(2), 5);
}

} // verus!
