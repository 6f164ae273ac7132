//! Load-factor check and rehash, used by every write path: a table that
//! would be more than three quarters full doubles and rehashes.

use vstd::prelude::*;
use crate::intrinsics::hashtable::util::{
    advance_slot, entry_pointer, HashtableLayout, KeyHashOps, TableSnapshot, STATE_EMPTY,
    STATE_OCCUPIED,
};
use crate::llvm::{
    a1, a3, call, call_fn, gep, iadd, iand, itest, itest8, imul, isub, num, Body, Code, Edge, Entry,
    Inst, LType, Pred, Val,
};
use crate::runtime::Rt;
use crate::semantics::{bit, later_code_keeps_values, recording_keeps_values};

verus! {

/// The rehash loop. Its blocks are head, body, probe start, probe loop,
/// advance, store, next and done. Every occupied bucket of the old table
/// is moved to the first empty bucket of the new one at or after its
/// masked hash; keys are not compared, since they are distinct already.
pub open spec fn rehash_code(
    s: Code,
    layout: HashtableLayout,
    old: TableSnapshot,
    new: TableSnapshot,
    ops: KeyHashOps,
) -> Code {
    s
        .word("rehash"@)
        .word("rehash_body"@)
        .word("rehash_probe"@)
        .word("rehash_probe_loop"@)
        .word("rehash_advance"@)
        .word("rehash_store"@)
        .word("rehash_next"@)
        .word("rehash_done"@)
        .i(Inst::Br(s.b(0)))
        .at(s.b(0))
        .i(Inst::Phi(LType::I64))
        .edge(s.v(1), num(0), s.cur)
        .i(itest(Pred::Uge, s.v(1), old.capacity))
        .i(Inst::CondBr(s.v(2), s.b(7), s.b(1)))
        .at(s.b(1))
        .i(gep(old.states_ptr, s.v(1)))
        .i(Inst::Load(LType::I8, s.v(4)))
        .i(itest8(Pred::Eq, s.v(5), num(STATE_OCCUPIED)))
        .i(Inst::CondBr(s.v(6), s.b(2), s.b(6)))
        .at(s.b(2))
        .i(imul(s.v(1), num(layout.entry_size)))
        .i(gep(old.entries_ptr, s.v(8)))
        .i(Inst::Load(ops.key_basic_ty, s.v(9)))
        .i(call_fn(ops.hash_fn, a1(s.v(10))))
        .i(isub(new.capacity, num(1)))
        .i(iand(s.v(11), s.v(12)))
        .i(Inst::Br(s.b(3)))
        .at(s.b(3))
        .i(Inst::Phi(LType::I64))
        .edge(s.v(15), s.v(13), s.b(2))
        .i(gep(new.states_ptr, s.v(15)))
        .i(Inst::Load(LType::I8, s.v(16)))
        .i(itest8(Pred::Eq, s.v(17), num(STATE_EMPTY)))
        .i(Inst::CondBr(s.v(18), s.b(5), s.b(4)))
        .at(s.b(4))
        .i(iadd(s.v(15), num(1)))
        .i(iand(s.v(20), s.v(12)))
        .edge(s.v(15), s.v(21), s.b(4))
        .i(Inst::Br(s.b(3)))
        .at(s.b(5))
        .i(imul(s.v(15), num(layout.entry_size)))
        .i(gep(new.entries_ptr, s.v(23)))
        .i(call(Rt::Memcpy, a3(s.v(24), s.v(9), num(layout.entry_size))))
        .i(Inst::Store(LType::I8, num(STATE_OCCUPIED), s.v(16)))
        .i(Inst::Br(s.b(6)))
        .at(s.b(6))
        .i(iadd(s.v(1), num(1)))
        .edge(s.v(1), s.v(28), s.b(6))
        .i(Inst::Br(s.b(0)))
        .at(s.b(7))
}

/// Emits the rehash loop and goes on behind it.
pub fn emit_rehash_loop(
    f: &mut Body,
    layout: HashtableLayout,
    old_table: TableSnapshot,
    new_table: TableSnapshot,
    ops: KeyHashOps,
)
    ensures
        final(f)@ == rehash_code(old(f)@, layout, old_table, new_table, ops),
{
    let entry_block = f.cur;
    let head = f.block("rehash");
    let body = f.block("rehash_body");
    let probe = f.block("rehash_probe");
    let probe_loop = f.block("rehash_probe_loop");
    let advance = f.block("rehash_advance");
    let store = f.block("rehash_store");
    let next = f.block("rehash_next");
    let done = f.block("rehash_done");
    f.ins(Inst::Br(head));

    f.at(head);
    let ri = f.ins(Inst::Phi(LType::I64));
    f.edge(ri, num(0), entry_block);
    let ri_done = f.ins(itest(Pred::Uge, ri, old_table.capacity));
    f.ins(Inst::CondBr(ri_done, done, body));

    f.at(body);
    let state_ptr = f.ins(gep(old_table.states_ptr, ri));
    let state = f.ins(Inst::Load(LType::I8, state_ptr));
    let is_occupied = f.ins(itest8(Pred::Eq, state, num(STATE_OCCUPIED)));
    f.ins(Inst::CondBr(is_occupied, probe, next));

    f.at(probe);
    let old_entry = entry_pointer(f, old_table.entries_ptr, ri, layout.entry_size);
    let old_key = f.ins(Inst::Load(ops.key_basic_ty, old_entry));
    let old_hash = f.ins(call_fn(ops.hash_fn, a1(old_key)));
    let new_mask = f.ins(isub(new_table.capacity, num(1)));
    let first = f.ins(iand(old_hash, new_mask));
    f.ins(Inst::Br(probe_loop));

    f.at(probe_loop);
    let slot = f.ins(Inst::Phi(LType::I64));
    f.edge(slot, first, probe);
    let new_state = f.ins(gep(new_table.states_ptr, slot));
    let ns_val = f.ins(Inst::Load(LType::I8, new_state));
    let ns_empty = f.ins(itest8(Pred::Eq, ns_val, num(STATE_EMPTY)));
    f.ins(Inst::CondBr(ns_empty, store, advance));

    f.at(advance);
    let wrapped = advance_slot(f, slot, new_mask);
    f.edge(slot, wrapped, advance);
    f.ins(Inst::Br(probe_loop));

    f.at(store);
    let new_entry = entry_pointer(f, new_table.entries_ptr, slot, layout.entry_size);
    f.ins(call(Rt::Memcpy, a3(new_entry, old_entry, num(layout.entry_size))));
    f.ins(Inst::Store(LType::I8, num(STATE_OCCUPIED), new_state));
    f.ins(Inst::Br(next));

    f.at(next);
    let ri_next = f.ins(iadd(ri, num(1)));
    f.edge(ri, ri_next, next);
    f.ins(Inst::Br(head));

    f.at(done);
}

/// The load-factor check, the growth path and the join. The blocks made
/// here are grow, keep and join; the rehash blocks come after them. The
/// table grows exactly when `(length + 1) * 4 > capacity * 3`.
pub open spec fn resize_code(
    s: Code,
    layout: HashtableLayout,
    table: TableSnapshot,
    ops: KeyHashOps,
) -> Code {
    let fresh = TableSnapshot {
        entries_ptr: s.v(7),
        states_ptr: s.v(8),
        length: table.length,
        capacity: s.v(5),
    };
    let g = s.word("need_resize"@).word("no_resize"@).word("after_resize"@)
        .i(iadd(table.length, num(1)))
        .i(imul(s.v(0), num(4)))
        .i(imul(table.capacity, num(3)))
        .i(itest(Pred::Ugt, s.v(1), s.v(2)))
        .i(Inst::CondBr(s.v(3), s.b(0), s.b(1)))
        .at(s.b(0))
        .i(imul(table.capacity, num(2)))
        .i(imul(s.v(5), num(layout.entry_size)))
        .i(call(Rt::Malloc, a1(s.v(6))))
        .i(call(Rt::Malloc, a1(s.v(5))))
        .i(call(Rt::Memset, a3(s.v(8), num(0), s.v(5))));
    let r = rehash_code(g, layout, table, fresh, ops);
    r.i(call(Rt::Free, a1(table.entries_ptr)))
        .i(call(Rt::Free, a1(table.states_ptr)))
        .i(Inst::Br(s.b(2)))
        .at(s.b(1))
        .i(Inst::Br(s.b(2)))
        .at(s.b(2))
        .i(Inst::Phi(LType::Ptr))
        .edge(r.v(4), fresh.entries_ptr, r.cur)
        .edge(r.v(4), table.entries_ptr, s.b(1))
        .i(Inst::Phi(LType::Ptr))
        .edge(r.v(5), fresh.states_ptr, r.cur)
        .edge(r.v(5), table.states_ptr, s.b(1))
        .i(Inst::Phi(LType::I64))
        .edge(r.v(6), fresh.capacity, r.cur)
        .edge(r.v(6), table.capacity, s.b(1))
}

/// The table that the code at `s` goes on with.
pub open spec fn resized(s: Code, table: TableSnapshot) -> TableSnapshot {
    TableSnapshot {
        entries_ptr: s.v(44),
        states_ptr: s.v(45),
        length: table.length,
        capacity: s.v(46),
    }
}

/// Emits the load-factor check and goes on at the join. The live count is
/// the same before and after.
pub fn emit_resize_if_needed(
    f: &mut Body,
    layout: HashtableLayout,
    table: TableSnapshot,
    ops: KeyHashOps,
) -> (r: TableSnapshot)
    ensures
        final(f)@ == resize_code(old(f)@, layout, table, ops),
        r == resized(old(f)@, table),
{
    let grow = f.block("need_resize");
    let keep = f.block("no_resize");
    let join = f.block("after_resize");
    let len_plus_1 = f.ins(iadd(table.length, num(1)));
    let lhs = f.ins(imul(len_plus_1, num(4)));
    let rhs = f.ins(imul(table.capacity, num(3)));
    let should_resize = f.ins(itest(Pred::Ugt, lhs, rhs));
    f.ins(Inst::CondBr(should_resize, grow, keep));

    f.at(grow);
    let new_cap = f.ins(imul(table.capacity, num(2)));
    let bytes = f.ins(imul(new_cap, num(layout.entry_size)));
    let new_entries = f.ins(call(Rt::Malloc, a1(bytes)));
    let new_states = f.ins(call(Rt::Malloc, a1(new_cap)));
    f.ins(call(Rt::Memset, a3(new_states, num(0), new_cap)));
    let fresh = TableSnapshot {
        entries_ptr: new_entries,
        states_ptr: new_states,
        length: table.length,
        capacity: new_cap,
    };
    emit_rehash_loop(f, layout, table, fresh, ops);
    f.ins(call(Rt::Free, a1(table.entries_ptr)));
    f.ins(call(Rt::Free, a1(table.states_ptr)));
    let from_grow = f.cur;
    f.ins(Inst::Br(join));

    f.at(keep);
    f.ins(Inst::Br(join));

    f.at(join);
    let entries_ptr = f.ins(Inst::Phi(LType::Ptr));
    f.edge(entries_ptr, new_entries, from_grow);
    f.edge(entries_ptr, table.entries_ptr, keep);
    let states_ptr = f.ins(Inst::Phi(LType::Ptr));
    f.edge(states_ptr, new_states, from_grow);
    f.edge(states_ptr, table.states_ptr, keep);
    let capacity = f.ins(Inst::Phi(LType::I64));
    f.edge(capacity, new_cap, from_grow);
    f.edge(capacity, table.capacity, keep);
    TableSnapshot { entries_ptr, states_ptr, length: table.length, capacity }
}

/// The code up to the new capacity.
spec fn growth_code(s: Code, table: TableSnapshot) -> Code {
    s.word("need_resize"@).word("no_resize"@).word("after_resize"@)
        .i(iadd(table.length, num(1)))
        .i(imul(s.v(0), num(4)))
        .i(imul(table.capacity, num(3)))
        .i(itest(Pred::Ugt, s.v(1), s.v(2)))
        .i(Inst::CondBr(s.v(3), s.b(0), s.b(1)))
        .at(s.b(0))
        .i(imul(table.capacity, num(2)))
}

proof fn growth_values(s: Code, env: spec_fn(Val) -> u64, table: TableSnapshot)
    requires
        s.room(6),
        s.defines(table.length),
        s.defines(table.capacity),
        (s.value(env, table.length) + 1) * 4 <= u64::MAX,
        s.value(env, table.capacity) * 3 <= u64::MAX,
    ensures
        ({
            let g = growth_code(s, table);
            let (length, capacity) = (s.value(env, table.length), s.value(env, table.capacity));
            &&& g.value(env, s.v(3)) == bit(4 * (length + 1) > 3 * capacity)
            &&& g.value(env, s.v(5)) == 2 * capacity
        }),
{
    let (length, capacity) = (s.value(env, table.length), s.value(env, table.capacity));
    let c0 = s.word("need_resize"@).word("no_resize"@).word("after_resize"@);
    assert(forall|v: Val| s.value(env, v) == c0.value(env, v));
    assert(c0.value(env, table.length) == length && c0.value(env, num(1)) == 1 && c0.v(0) == s.v(0));
    assert(length + 1 <= u64::MAX);
    assert(c0.outcome(env, iadd(table.length, num(1))) == length + 1);
    recording_keeps_values(c0, env, iadd(table.length, num(1)));
    let c1 = c0.i(iadd(table.length, num(1)));
    assert(c1.value(env, s.v(0)) == length + 1);
    recording_keeps_values(c1, env, imul(s.v(0), num(4)));
    let c2 = c1.i(imul(s.v(0), num(4)));
    assert(c2.value(env, s.v(1)) == (length + 1) * 4);
    assert(c2.value(env, table.capacity) == capacity);
    recording_keeps_values(c2, env, imul(table.capacity, num(3)));
    let c3 = c2.i(imul(table.capacity, num(3)));
    assert(c3.value(env, s.v(2)) == capacity * 3);
    assert(c3.value(env, s.v(1)) == (length + 1) * 4);
    recording_keeps_values(c3, env, itest(Pred::Ugt, s.v(1), s.v(2)));
    let c4 = c3.i(itest(Pred::Ugt, s.v(1), s.v(2)));
    assert(c4.value(env, s.v(3)) == bit(4 * (length + 1) > 3 * capacity));
    assert(c4.value(env, table.capacity) == capacity);
    recording_keeps_values(c4, env, Inst::CondBr(s.v(3), s.b(0), s.b(1)));
    let c5 = c4.i(Inst::CondBr(s.v(3), s.b(0), s.b(1)));
    assert(c5.value(env, s.v(3)) == bit(4 * (length + 1) > 3 * capacity));
    assert(c5.value(env, table.capacity) == capacity);
    let c6 = c5.at(s.b(0));
    assert(forall|v: Val| c6.value(env, v) == c5.value(env, v));
    assert(c6.value(env, table.capacity) == capacity);
    recording_keeps_values(c6, env, imul(table.capacity, num(2)));
    assert(c6.v(0) == s.v(5));
    assert(c6.i(imul(table.capacity, num(2))).value(env, s.v(5)) == capacity * 2);
    assert(growth_code(s, table).value(env, s.v(3)) == c6.value(env, s.v(3)));
}

/// A table grows exactly when one more entry would fill more than three
/// quarters of it, and then to twice its capacity. The sizes are such that
/// no product is cut off.
pub proof fn grows_past_three_quarters(
    s: Code,
    env: spec_fn(Val) -> u64,
    layout: HashtableLayout,
    table: TableSnapshot,
    ops: KeyHashOps,
)
    requires
        s.room(47),
        s.defines(table.length),
        s.defines(table.capacity),
        (s.value(env, table.length) + 1) * 4 <= u64::MAX,
        s.value(env, table.capacity) * 3 <= u64::MAX,
    ensures
        ({
            let code = resize_code(s, layout, table, ops);
            let (length, capacity) = (s.value(env, table.length), s.value(env, table.capacity));
            &&& code.log[s.log.len() as int + 4] == (Entry {
                block: s.cur,
                inst: Inst::CondBr(s.v(3), s.b(0), s.b(1)),
            })
            &&& code.value(env, s.v(3)) == bit(4 * (length + 1) > 3 * capacity)
            &&& code.value(env, s.v(5)) == 2 * capacity
            &&& code.edges[code.edges.len() - 2] == (Edge {
                phi: resized(s, table).capacity,
                value: s.v(5),
                from: (s.blocks + 10) as usize,
            })
            &&& code.edges.last() == (Edge {
                phi: resized(s, table).capacity,
                value: table.capacity,
                from: s.b(1),
            })
        }),
{
    growth_values(s, env, table);
    let g = growth_code(s, table);
    let code = resize_code(s, layout, table, ops);
    assert(g.log =~= code.log.subrange(0, g.log.len() as int));
    later_code_keeps_values(g, code, env, s.v(3));
    later_code_keeps_values(g, code, env, s.v(5));
}

} // verus!
