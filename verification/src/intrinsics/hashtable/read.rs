//! Methods built on the read-only probe: `Map.get`, `has?` and `remove`.
//! The probe walks buckets until it meets an empty one (a miss) or an
//! occupied one whose key compares equal.

use vstd::prelude::*;
use crate::ctx::EmitContext;
use crate::emit::enums::{build_single_value, build_unit_value, enum_value_code};
use crate::intrinsics::element::{
    acquire_value, acquire_value_code, release_in_slot, release_in_slot_code, Walk,
};
use crate::intrinsics::hashtable::util::{
    advance_slot, build_table_struct, clone_table_buffers, copied, copy_buffers_code, entry_pointer,
    extract_code, extract_table_fields, extracted, table_struct_code, value_slot, HashtableLayout,
    KeyHashOps, TableSnapshot, STATE_EMPTY, STATE_OCCUPIED, STATE_TOMBSTONE,
};
use crate::ir::{IRSymbol, IRType, IRVariantTag};
use crate::llvm::{
    a1, a2, call_fn, gep, iadd, iand, itest8, imul, isub, num, Body, Code, Inst, LType, Pred, Val,
};
use crate::types::{value_basic_type, value_type};

verus! {

/// `Option.Some` as the standard library declares it.
pub const OPTION_SOME: u8 = 0;

/// `Option.None` as the standard library declares it.
pub const OPTION_NONE: u8 = 1;

/// Where a read-only probe leads. `pidx`, `s_ptr` and `e_ptr` are the
/// bucket, its state byte and its entry; they hold in `found_bb`.
#[derive(Clone, Copy, Debug, PartialEq, Eq, Structural)]
pub struct ReadOnlyProbe {
    pub e_ptr: Val,
    pub found_bb: usize,
    pub not_found_bb: usize,
    pub pidx: Val,
    pub s_ptr: Val,
}

/// The probe that begins at `s`.
pub open spec fn read_probe_at(s: Code) -> ReadOnlyProbe {
    ReadOnlyProbe {
        e_ptr: s.v(12),
        found_bb: s.b(3),
        not_found_bb: s.b(4),
        pidx: s.v(4),
        s_ptr: s.v(5),
    }
}

/// The read-only probe. Its blocks are probe, check, compare, found,
/// not-found and advance. It starts at the key's hash masked to the
/// table, gives up at an empty bucket, compares keys only in occupied
/// ones, and otherwise goes on to the next bucket.
pub open spec fn read_probe_code(
    s: Code,
    layout: HashtableLayout,
    table: TableSnapshot,
    key: Val,
    ops: KeyHashOps,
) -> Code {
    s.i(call_fn(ops.hash_fn, a1(key)))
        .i(isub(table.capacity, num(1)))
        .i(iand(s.v(0), s.v(1)))
        .word("probe"@)
        .word("check"@)
        .word("compare"@)
        .word("found"@)
        .word("not_found"@)
        .word("advance"@)
        .i(Inst::Br(s.b(0)))
        .at(s.b(0))
        .i(Inst::Phi(LType::I64))
        .edge(s.v(4), s.v(2), s.cur)
        .i(gep(table.states_ptr, s.v(4)))
        .i(Inst::Load(LType::I8, s.v(5)))
        .i(itest8(Pred::Eq, s.v(6), num(STATE_EMPTY)))
        .i(Inst::CondBr(s.v(7), s.b(4), s.b(1)))
        .at(s.b(1))
        .i(itest8(Pred::Eq, s.v(6), num(STATE_OCCUPIED)))
        .i(Inst::CondBr(s.v(9), s.b(2), s.b(5)))
        .at(s.b(2))
        .i(imul(s.v(4), num(layout.entry_size)))
        .i(gep(table.entries_ptr, s.v(11)))
        .i(Inst::Load(ops.key_basic_ty, s.v(12)))
        .i(call_fn(ops.eq_fn, a2(key, s.v(13))))
        .i(Inst::CondBr(s.v(14), s.b(3), s.b(5)))
        .at(s.b(5))
        .i(iadd(s.v(4), num(1)))
        .i(iand(s.v(16), s.v(1)))
        .edge(s.v(4), s.v(17), s.b(5))
        .i(Inst::Br(s.b(0)))
}

/// Emits the read-only probe. The caller goes on in the found and the
/// not-found block.
pub fn emit_read_only_probe(
    f: &mut Body,
    layout: HashtableLayout,
    table: TableSnapshot,
    key: Val,
    ops: KeyHashOps,
) -> (r: ReadOnlyProbe)
    ensures
        final(f)@ == read_probe_code(old(f)@, layout, table, key, ops),
        r == read_probe_at(old(f)@),
{
    let entry_block = f.cur;
    let hash = f.ins(call_fn(ops.hash_fn, a1(key)));
    let mask = f.ins(isub(table.capacity, num(1)));
    let start = f.ins(iand(hash, mask));
    let probe_bb = f.block("probe");
    let check_bb = f.block("check");
    let compare_bb = f.block("compare");
    let found_bb = f.block("found");
    let not_found_bb = f.block("not_found");
    let advance_bb = f.block("advance");
    f.ins(Inst::Br(probe_bb));

    f.at(probe_bb);
    let pidx = f.ins(Inst::Phi(LType::I64));
    f.edge(pidx, start, entry_block);
    let s_ptr = f.ins(gep(table.states_ptr, pidx));
    let state = f.ins(Inst::Load(LType::I8, s_ptr));
    let is_empty = f.ins(itest8(Pred::Eq, state, num(STATE_EMPTY)));
    f.ins(Inst::CondBr(is_empty, not_found_bb, check_bb));

    f.at(check_bb);
    let is_occ = f.ins(itest8(Pred::Eq, state, num(STATE_OCCUPIED)));
    f.ins(Inst::CondBr(is_occ, compare_bb, advance_bb));

    f.at(compare_bb);
    let e_ptr = entry_pointer(f, table.entries_ptr, pidx, layout.entry_size);
    let existing = f.ins(Inst::Load(ops.key_basic_ty, e_ptr));
    let equal = f.ins(call_fn(ops.eq_fn, a2(key, existing)));
    f.ins(Inst::CondBr(equal, found_bb, advance_bb));

    f.at(advance_bb);
    let wrapped = advance_slot(f, pidx, mask);
    f.edge(pidx, wrapped, advance_bb);
    f.ins(Inst::Br(probe_bb));
    ReadOnlyProbe { e_ptr, found_bb, not_found_bb, pidx, s_ptr }
}

/// `has?`: true where the probe finds the key.
pub open spec fn has_q_code(s: Code, layout: HashtableLayout, ops: KeyHashOps) -> Code {
    let t = extract_code(s, Val::Param(0));
    read_probe_code(t, layout, extracted(s), Val::Param(1), ops)
        .at(t.b(3))
        .i(Inst::Ret(LType::I1, num(1)))
        .at(t.b(4))
        .i(Inst::Ret(LType::I1, num(0)))
}

/// Emits `has?`.
pub fn emit_has_q(f: &mut Body, layout: HashtableLayout, ops: KeyHashOps)
    ensures
        final(f)@ == has_q_code(old(f)@, layout, ops),
{
    let table = extract_table_fields(f, Val::Param(0));
    let probe = emit_read_only_probe(f, layout, table, Val::Param(1), ops);
    f.at(probe.found_bb);
    f.ins(Inst::Ret(LType::I1, num(1)));
    f.at(probe.not_found_bb);
    f.ins(Inst::Ret(LType::I1, num(0)));
}

/// `remove`: on a copy of the table, the key's bucket is released and
/// marked as removed, and one entry fewer is live. A miss gives back the
/// untouched copy.
pub open spec fn remove_code(
    c: &EmitContext,
    s: Code,
    layout: HashtableLayout,
    ops: KeyHashOps,
) -> Code {
    let e = extract_code(s, Val::Param(0));
    let table = copied(e, extracted(s));
    let t = copy_buffers_code(c, e, Walk::Acquire, layout, extracted(s));
    let probe = read_probe_at(t);
    let found = read_probe_code(t, layout, table, Val::Param(1), ops).at(probe.found_bb);
    let keyed = release_in_slot_code(c, found, layout.key_ty, probe.e_ptr);
    let released = match layout.value_ty {
        Some(value_ty) => release_in_slot_code(
            c,
            keyed.i(gep(probe.e_ptr, num(layout.key_size))),
            value_ty,
            keyed.v(0),
        ),
        None => keyed,
    };
    let shorter = released.i(Inst::Store(LType::I8, num(STATE_TOMBSTONE), probe.s_ptr)).i(
        isub(table.length, num(1)),
    );
    let gone = table_struct_code(shorter, TableSnapshot { length: released.v(1), ..table })
        .i(Inst::Ret(LType::Table, shorter.v(3)))
        .at(probe.not_found_bb);
    table_struct_code(gone, table).i(Inst::Ret(LType::Table, gone.v(3)))
}

/// Emits `remove`.
pub fn emit_remove(c: &EmitContext, f: &mut Body, layout: HashtableLayout, ops: KeyHashOps)
    ensures
        final(f)@ == remove_code(c, old(f)@, layout, ops),
{
    let receiver = extract_table_fields(f, Val::Param(0));
    let table = clone_table_buffers(c, f, layout, receiver);
    let probe = emit_read_only_probe(f, layout, table, Val::Param(1), ops);

    f.at(probe.found_bb);
    release_in_slot(c, f, layout.key_ty, probe.e_ptr);
    match layout.value_ty {
        Some(value_ty) => {
            let value_ptr = value_slot(f, probe.e_ptr, layout.key_size);
            release_in_slot(c, f, value_ty, value_ptr);
        },
        None => {},
    }
    f.ins(Inst::Store(LType::I8, num(STATE_TOMBSTONE), probe.s_ptr));
    let new_len = f.ins(isub(table.length, num(1)));
    let removed = build_table_struct(f, TableSnapshot { length: new_len, ..table });
    f.ins(Inst::Ret(LType::Table, removed));

    f.at(probe.not_found_bb);
    let unchanged = build_table_struct(f, table);
    f.ins(Inst::Ret(LType::Table, unchanged));
}

/// The lookup of `Map.get` and the value that it finds, acquired.
pub open spec fn map_get_item_code(
    c: &EmitContext,
    s: Code,
    layout: HashtableLayout,
    ops: KeyHashOps,
    value_ty: IRType,
) -> (Code, Val) {
    let t = extract_code(s, Val::Param(0));
    let probe = read_probe_at(t);
    let found = read_probe_code(t, layout, extracted(s), Val::Param(1), ops).at(probe.found_bb);
    acquire_value_code(
        c,
        found.i(gep(probe.e_ptr, num(layout.key_size))).i(
            Inst::Load(value_type(value_ty), found.v(0)),
        ),
        value_ty,
        found.v(1),
    )
}

/// `Map.get`: `Some` of an owned copy of the value where the probe finds
/// the key, `None` where it does not.
pub open spec fn map_get_code(
    c: &EmitContext,
    s: Code,
    layout: HashtableLayout,
    ops: KeyHashOps,
    value_ty: IRType,
    option: IRSymbol,
) -> Code {
    let probe = read_probe_at(extract_code(s, Val::Param(0)));
    let (acquired, owned) = map_get_item_code(c, s, layout, ops, value_ty);
    let (filled, some) = enum_value_code(
        c,
        acquired,
        option,
        IRVariantTag(OPTION_SOME),
        seq![owned],
    );
    let (missed, none) = enum_value_code(
        c,
        filled.i(Inst::Ret(LType::Enum(option), some)).at(probe.not_found_bb),
        option,
        IRVariantTag(OPTION_NONE),
        seq![],
    );
    missed.i(Inst::Ret(LType::Enum(option), none))
}

/// Emits `Map.get`.
pub fn emit_map_get(
    c: &EmitContext,
    f: &mut Body,
    layout: HashtableLayout,
    ops: KeyHashOps,
    value_ty: IRType,
    option: IRSymbol,
)
    requires
        c.payload(option, OPTION_SOME).len() == 1,
        c.payload(option, OPTION_NONE).len() == 0,
    ensures
        final(f)@ == map_get_code(c, old(f)@, layout, ops, value_ty, option),
{
    let table = extract_table_fields(f, Val::Param(0));
    let probe = emit_read_only_probe(f, layout, table, Val::Param(1), ops);
    f.at(probe.found_bb);
    let val_ptr = value_slot(f, probe.e_ptr, layout.key_size);
    let val = f.ins(Inst::Load(value_basic_type(value_ty), val_ptr));
    let owned = acquire_value(c, f, value_ty, val);
    let some = build_single_value(c, f, option, IRVariantTag(OPTION_SOME), owned);
    f.ins(Inst::Ret(LType::Enum(option), some));
    f.at(probe.not_found_bb);
    let none = build_unit_value(c, f, option, IRVariantTag(OPTION_NONE));
    f.ins(Inst::Ret(LType::Enum(option), none));
}

} // verus!
