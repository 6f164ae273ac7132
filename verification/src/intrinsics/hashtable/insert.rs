//! The write-side probe and the methods on it: `Map.put` overwrites or
//! inserts a pair, `Set.insert` is its single-payload twin.

use vstd::prelude::*;
use crate::ctx::EmitContext;
use crate::intrinsics::element::{
    acquire_value, acquire_value_code, release_in_slot, release_in_slot_code, Walk,
};
use crate::intrinsics::hashtable::resize::{emit_resize_if_needed, resize_code, resized};
use crate::intrinsics::hashtable::util::{
    advance_slot, build_table_struct, clone_table_buffers, copied, copy_buffers_code, entry_pointer,
    entry_pointer_code, extract_code, extract_table_fields, extracted, table_struct_code, value_slot,
    HashtableLayout, KeyHashOps, TableSnapshot, STATE_EMPTY, STATE_OCCUPIED,
};
use crate::ir::IRType;
use crate::llvm::{
    a1, a2, call_fn, gep, iadd, iand, itest, itest8, imul, isub, num, Body, Code, Inst, LType, Pred, Val,
};
use crate::types::{value_basic_type, value_type};

verus! {

/// Where a write-side probe leads: `update_bb` for a key that is there,
/// `insert_bb` for a free bucket. `pidx` and `s_ptr` are the bucket and
/// its state byte; `e_ptr` is its entry and holds in `update_bb`.
#[derive(Clone, Copy, Debug, PartialEq, Eq, Structural)]
pub struct InsertProbe {
    pub e_ptr: Val,
    pub insert_bb: usize,
    pub pidx: Val,
    pub s_ptr: Val,
    pub update_bb: usize,
}

/// The probe that begins at `s`.
pub open spec fn insert_probe_at(s: Code) -> InsertProbe {
    InsertProbe {
        e_ptr: s.v(13),
        insert_bb: s.b(6),
        pidx: s.v(26),
        s_ptr: s.v(27),
        update_bb: s.b(3),
    }
}

/// What stands for no bucket.
pub const NO_BUCKET: u64 = 0xFFFF_FFFF_FFFF_FFFF;

/// The write-side probe. Its blocks are probe, check, compare, update,
/// settle, advance and insert. It goes on past removed buckets, of which it
/// remembers the first, to the key, to a bucket that was never filled, or
/// once round the table. Where the key is not there, the remembered bucket
/// is the one to fill, or else the one that was never filled.
pub open spec fn insert_probe_code(
    s: Code,
    layout: HashtableLayout,
    table: TableSnapshot,
    key: Val,
    ops: KeyHashOps,
) -> Code {
    s.i(call_fn(ops.hash_fn, a1(key)))
        .i(isub(table.capacity, num(1)))
        .i(iand(s.v(0), s.v(1)))
        .word("probe_loop"@)
        .word("check_occ"@)
        .word("compare_key"@)
        .word("update"@)
        .word("settle"@)
        .word("advance"@)
        .word("insert"@)
        .i(Inst::Br(s.b(0)))
        .at(s.b(0))
        .i(Inst::Phi(LType::I64))
        .edge(s.v(4), s.v(2), s.cur)
        .i(Inst::Phi(LType::I64))
        .edge(s.v(5), num(NO_BUCKET), s.cur)
        .i(gep(table.states_ptr, s.v(4)))
        .i(Inst::Load(LType::I8, s.v(6)))
        .i(itest8(Pred::Eq, s.v(7), num(STATE_EMPTY)))
        .i(Inst::CondBr(s.v(8), s.b(4), s.b(1)))
        .at(s.b(1))
        .i(itest8(Pred::Eq, s.v(7), num(STATE_OCCUPIED)))
        .i(Inst::CondBr(s.v(10), s.b(2), s.b(5)))
        .at(s.b(2))
        .i(imul(s.v(4), num(layout.entry_size)))
        .i(gep(table.entries_ptr, s.v(12)))
        .i(Inst::Load(ops.key_basic_ty, s.v(13)))
        .i(call_fn(ops.eq_fn, a2(key, s.v(14))))
        .i(Inst::CondBr(s.v(15), s.b(3), s.b(5)))
        .at(s.b(5))
        .i(itest(Pred::Eq, s.v(5), num(NO_BUCKET)))
        .i(Inst::Select(LType::I64, s.v(17), s.v(4), s.v(5)))
        .i(Inst::Select(LType::I64, s.v(10), s.v(5), s.v(18)))
        .i(iadd(s.v(4), num(1)))
        .i(iand(s.v(20), s.v(1)))
        .edge(s.v(4), s.v(21), s.b(5))
        .edge(s.v(5), s.v(19), s.b(5))
        .i(itest(Pred::Eq, s.v(21), s.v(2)))
        .i(Inst::CondBr(s.v(22), s.b(4), s.b(0)))
        .at(s.b(4))
        .i(Inst::Phi(LType::I64))
        .edge(s.v(24), s.v(5), s.b(0))
        .edge(s.v(24), s.v(19), s.b(5))
        .i(itest(Pred::Eq, s.v(24), num(NO_BUCKET)))
        .i(Inst::Select(LType::I64, s.v(25), s.v(4), s.v(24)))
        .i(gep(table.states_ptr, s.v(26)))
        .i(Inst::Br(s.b(6)))
}

/// Emits the write-side probe. The caller goes on in the update and the
/// insert block.
pub fn emit_insert_probe(
    f: &mut Body,
    layout: HashtableLayout,
    table: TableSnapshot,
    key: Val,
    ops: KeyHashOps,
) -> (r: InsertProbe)
    ensures
        final(f)@ == insert_probe_code(old(f)@, layout, table, key, ops),
        r == insert_probe_at(old(f)@),
{
    let entry_block = f.cur;
    let hash = f.ins(call_fn(ops.hash_fn, a1(key)));
    let mask = f.ins(isub(table.capacity, num(1)));
    let start = f.ins(iand(hash, mask));
    let probe_bb = f.block("probe_loop");
    let check_bb = f.block("check_occ");
    let compare_bb = f.block("compare_key");
    let update_bb = f.block("update");
    let settle_bb = f.block("settle");
    let advance_bb = f.block("advance");
    let insert_bb = f.block("insert");
    f.ins(Inst::Br(probe_bb));

    f.at(probe_bb);
    let visited = f.ins(Inst::Phi(LType::I64));
    f.edge(visited, start, entry_block);
    let spare = f.ins(Inst::Phi(LType::I64));
    f.edge(spare, num(NO_BUCKET), entry_block);
    let visited_ptr = f.ins(gep(table.states_ptr, visited));
    let state = f.ins(Inst::Load(LType::I8, visited_ptr));
    let is_empty = f.ins(itest8(Pred::Eq, state, num(STATE_EMPTY)));
    f.ins(Inst::CondBr(is_empty, settle_bb, check_bb));

    f.at(check_bb);
    let is_occ = f.ins(itest8(Pred::Eq, state, num(STATE_OCCUPIED)));
    f.ins(Inst::CondBr(is_occ, compare_bb, advance_bb));

    f.at(compare_bb);
    let e_ptr = entry_pointer(f, table.entries_ptr, visited, layout.entry_size);
    let existing = f.ins(Inst::Load(ops.key_basic_ty, e_ptr));
    let equal = f.ins(call_fn(ops.eq_fn, a2(key, existing)));
    f.ins(Inst::CondBr(equal, update_bb, advance_bb));

    f.at(advance_bb);
    let none_yet = f.ins(itest(Pred::Eq, spare, num(NO_BUCKET)));
    let removed = f.ins(Inst::Select(LType::I64, none_yet, visited, spare));
    let kept = f.ins(Inst::Select(LType::I64, is_occ, spare, removed));
    let wrapped = advance_slot(f, visited, mask);
    f.edge(visited, wrapped, advance_bb);
    f.edge(spare, kept, advance_bb);
    let all_seen = f.ins(itest(Pred::Eq, wrapped, start));
    f.ins(Inst::CondBr(all_seen, settle_bb, probe_bb));

    f.at(settle_bb);
    let spot = f.ins(Inst::Phi(LType::I64));
    f.edge(spot, spare, probe_bb);
    f.edge(spot, kept, advance_bb);
    let none_spare = f.ins(itest(Pred::Eq, spot, num(NO_BUCKET)));
    let pidx = f.ins(Inst::Select(LType::I64, none_spare, visited, spot));
    let s_ptr = f.ins(gep(table.states_ptr, pidx));
    f.ins(Inst::Br(insert_bb));
    InsertProbe { e_ptr, insert_bb, pidx, s_ptr, update_bb }
}

/// What a free bucket gets: the acquired key and, in a `Map`, the
/// acquired value behind it, then the occupied state, and one more live
/// entry.
pub open spec fn fill_code(
    c: &EmitContext,
    s: Code,
    layout: HashtableLayout,
    table: TableSnapshot,
    probe: InsertProbe,
    key: Val,
    value: Option<(IRType, Val)>,
) -> (Code, TableSnapshot) {
    let e = entry_pointer_code(s, table.entries_ptr, probe.pidx, layout.entry_size);
    let (k, owned_key) = acquire_value_code(c, e, layout.key_ty, key);
    let keyed = k.i(Inst::Store(value_type(layout.key_ty), owned_key, s.v(1)));
    let filled = match value {
        Some((value_ty, value)) => {
            let (v, owned) = acquire_value_code(
                c,
                keyed.i(gep(s.v(1), num(layout.key_size))),
                value_ty,
                value,
            );
            v.i(Inst::Store(value_type(value_ty), owned, keyed.v(0)))
        },
        None => keyed,
    };
    (
        filled.i(Inst::Store(LType::I8, num(STATE_OCCUPIED), probe.s_ptr)).i(
            iadd(table.length, num(1)),
        ),
        TableSnapshot { length: filled.v(1), ..table },
    )
}

/// Fills the free bucket that a probe stopped at.
pub fn fill_bucket(
    c: &EmitContext,
    f: &mut Body,
    layout: HashtableLayout,
    table: TableSnapshot,
    probe: InsertProbe,
    key: Val,
    value: Option<(IRType, Val)>,
) -> (r: TableSnapshot)
    ensures
        (final(f)@, r) == fill_code(c, old(f)@, layout, table, probe, key, value),
{
    let ins_ptr = entry_pointer(f, table.entries_ptr, probe.pidx, layout.entry_size);
    let owned_key = acquire_value(c, f, layout.key_ty, key);
    f.ins(Inst::Store(value_basic_type(layout.key_ty), owned_key, ins_ptr));
    match value {
        Some((value_ty, value)) => {
            let val_ptr = value_slot(f, ins_ptr, layout.key_size);
            let owned = acquire_value(c, f, value_ty, value);
            f.ins(Inst::Store(value_basic_type(value_ty), owned, val_ptr));
        },
        None => {},
    }
    f.ins(Inst::Store(LType::I8, num(STATE_OCCUPIED), probe.s_ptr));
    let new_len = f.ins(iadd(table.length, num(1)));
    TableSnapshot { length: new_len, ..table }
}

/// The common front of the write methods: take the receiver apart, copy
/// it, and grow the copy where it has to grow.
pub open spec fn write_front_code(
    c: &EmitContext,
    s: Code,
    layout: HashtableLayout,
    ops: KeyHashOps,
) -> (Code, TableSnapshot) {
    let e = extract_code(s, Val::Param(0));
    let table = copied(e, extracted(s));
    let t = copy_buffers_code(c, e, Walk::Acquire, layout, extracted(s));
    (resize_code(t, layout, table, ops), resized(t, table))
}

fn write_front(c: &EmitContext, f: &mut Body, layout: HashtableLayout, ops: KeyHashOps) -> (r:
    TableSnapshot)
    ensures
        (final(f)@, r) == write_front_code(c, old(f)@, layout, ops),
{
    let receiver = extract_table_fields(f, Val::Param(0));
    let table = clone_table_buffers(c, f, layout, receiver);
    emit_resize_if_needed(f, layout, table, ops)
}

/// `Map.put`: a key that is there has its value released and replaced, a
/// new key fills a free bucket.
pub open spec fn map_put_code(
    c: &EmitContext,
    s: Code,
    layout: HashtableLayout,
    ops: KeyHashOps,
    value_ty: IRType,
) -> Code {
    let (r, table) = write_front_code(c, s, layout, ops);
    let probe = insert_probe_at(r);
    let p = insert_probe_code(r, layout, table, Val::Param(1), ops).at(probe.update_bb);
    let released = release_in_slot_code(
        c,
        p.i(gep(probe.e_ptr, num(layout.key_size))),
        value_ty,
        p.v(0),
    );
    let (acquired, owned) = acquire_value_code(c, released, value_ty, Val::Param(2));
    let replaced = acquired.i(Inst::Store(value_type(value_ty), owned, p.v(0)));
    let updated = table_struct_code(replaced, table)
        .i(Inst::Ret(LType::Table, replaced.v(3)))
        .at(probe.insert_bb);
    let (filled, longer) = fill_code(
        c,
        updated,
        layout,
        table,
        probe,
        Val::Param(1),
        Some((value_ty, Val::Param(2))),
    );
    table_struct_code(filled, longer).i(Inst::Ret(LType::Table, filled.v(3)))
}

/// Emits `Map.put`.
pub fn emit_map_put(
    c: &EmitContext,
    f: &mut Body,
    layout: HashtableLayout,
    ops: KeyHashOps,
    value_ty: IRType,
)
    ensures
        final(f)@ == map_put_code(c, old(f)@, layout, ops, value_ty),
{
    let table = write_front(c, f, layout, ops);
    let probe = emit_insert_probe(f, layout, table, Val::Param(1), ops);

    f.at(probe.update_bb);
    let val_ptr = value_slot(f, probe.e_ptr, layout.key_size);
    release_in_slot(c, f, value_ty, val_ptr);
    let owned = acquire_value(c, f, value_ty, Val::Param(2));
    f.ins(Inst::Store(value_basic_type(value_ty), owned, val_ptr));
    let updated = build_table_struct(f, table);
    f.ins(Inst::Ret(LType::Table, updated));

    f.at(probe.insert_bb);
    let longer = fill_bucket(
        c,
        f,
        layout,
        table,
        probe,
        Val::Param(1),
        Some((value_ty, Val::Param(2))),
    );
    let inserted = build_table_struct(f, longer);
    f.ins(Inst::Ret(LType::Table, inserted));
}

/// `Set.insert`: an item that is there changes nothing, a new one fills a
/// free bucket.
pub open spec fn set_insert_code(
    c: &EmitContext,
    s: Code,
    layout: HashtableLayout,
    ops: KeyHashOps,
) -> Code {
    let (r, table) = write_front_code(c, s, layout, ops);
    let probe = insert_probe_at(r);
    let p = insert_probe_code(r, layout, table, Val::Param(1), ops).at(probe.update_bb);
    let already = table_struct_code(p, table)
        .i(Inst::Ret(LType::Table, p.v(3)))
        .at(probe.insert_bb);
    let (filled, longer) = fill_code(c, already, layout, table, probe, Val::Param(1), None);
    table_struct_code(filled, longer).i(Inst::Ret(LType::Table, filled.v(3)))
}

/// Emits `Set.insert`.
pub fn emit_set_insert(c: &EmitContext, f: &mut Body, layout: HashtableLayout, ops: KeyHashOps)
    ensures
        final(f)@ == set_insert_code(c, old(f)@, layout, ops),
{
    let table = write_front(c, f, layout, ops);
    let probe = emit_insert_probe(f, layout, table, Val::Param(1), ops);
    f.at(probe.update_bb);
    let already = build_table_struct(f, table);
    f.ins(Inst::Ret(LType::Table, already));
    f.at(probe.insert_bb);
    let longer = fill_bucket(c, f, layout, table, probe, Val::Param(1), None);
    let inserted = build_table_struct(f, longer);
    f.ins(Inst::Ret(LType::Table, inserted));
}

} // verus!
