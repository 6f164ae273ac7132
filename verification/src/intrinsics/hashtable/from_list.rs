//! `Set.from_list`: walks the list's buffer and folds each element into a
//! fresh set, acquired as `Set.insert` does.

use vstd::prelude::*;
use crate::ctx::EmitContext;
use crate::intrinsics::hashtable::insert::{
    emit_insert_probe, fill_bucket, fill_code, insert_probe_at, insert_probe_code,
};
use crate::intrinsics::hashtable::resize::{emit_resize_if_needed, resize_code, resized};
use crate::intrinsics::hashtable::util::{
    build_empty_table, build_table_struct, empty_table_code, extract_code, extract_table_fields,
    extracted, table_struct_code, HashtableLayout, KeyHashOps,
};
use crate::llvm::{gep, iadd, itest, imul, num, Body, Code, Inst, LType, Pred, Val};
use crate::types::{value_basic_type, value_type};

verus! {

/// The body of an insert, in line: the set grown where it has to grow,
/// then either left as it is or given the item, and a join of the two.
#[verifier::opaque]
pub open spec fn insert_inline_code(
    c: &EmitContext,
    s: Code,
    layout: HashtableLayout,
    ops: KeyHashOps,
    current: Val,
    item: Val,
) -> (Code, Val) {
    let e = extract_code(s, current);
    let r = resize_code(e, layout, extracted(s), ops);
    let table = resized(e, extracted(s));
    let probe = insert_probe_at(r);
    let p = insert_probe_code(r, layout, table, item, ops);
    let merge = p.b(0);
    let u = p.word("insert_merge"@).at(probe.update_bb);
    let dup = table_struct_code(u, table).i(Inst::Br(merge)).at(probe.insert_bb);
    let (filled, longer) = fill_code(c, dup, layout, table, probe, item, None);
    let joined = table_struct_code(filled, longer).i(Inst::Br(merge)).at(merge);
    (
        joined.i(Inst::Phi(LType::Table))
            .edge(joined.v(0), u.v(3), probe.update_bb)
            .edge(joined.v(0), filled.v(3), probe.insert_bb),
        joined.v(0),
    )
}

/// Emits the body of `Set.insert` at a call site and gives the new set.
pub fn call_set_insert_inline(
    c: &EmitContext,
    f: &mut Body,
    layout: HashtableLayout,
    ops: KeyHashOps,
    current: Val,
    item: Val,
) -> (r: Val)
    ensures
        (final(f)@, r) == insert_inline_code(c, old(f)@, layout, ops, current, item),
{
    reveal(insert_inline_code);
    let before = extract_table_fields(f, current);
    let table = emit_resize_if_needed(f, layout, before, ops);
    let probe = emit_insert_probe(f, layout, table, item, ops);
    let merge = f.block("insert_merge");

    f.at(probe.update_bb);
    let dup = build_table_struct(f, table);
    let update_tail = f.cur;
    f.ins(Inst::Br(merge));

    f.at(probe.insert_bb);
    let longer = fill_bucket(c, f, layout, table, probe, item, None);
    let inserted = build_table_struct(f, longer);
    let insert_tail = f.cur;
    f.ins(Inst::Br(merge));

    f.at(merge);
    let phi = f.ins(Inst::Phi(LType::Table));
    f.edge(phi, dup, update_tail);
    f.edge(phi, inserted, insert_tail);
    phi
}

/// `Set.from_list`. The blocks made here are head, body and done.
pub open spec fn set_from_list_code(
    c: &EmitContext,
    s: Code,
    layout: HashtableLayout,
    ops: KeyHashOps,
) -> Code {
    let e = empty_table_code(
        s.i(Inst::Extract(LType::List, Val::Param(0), 0)).i(
            Inst::Extract(LType::List, Val::Param(0), 1),
        ),
        layout.entry_size,
    );
    let list_ptr = s.v(0);
    let list_len = s.v(1);
    let acc = e.v(0);
    let index = e.v(3);
    let b = e.i(Inst::Alloca(LType::Table))
        .i(Inst::Store(LType::Table, s.v(9), acc))
        .word("loop"@).word("body"@).word("done"@)
        .i(Inst::Br(e.b(0)))
        .at(e.b(0))
        .i(Inst::Phi(LType::I64))
        .edge(index, num(0), s.cur)
        .i(itest(Pred::Uge, index, list_len))
        .i(Inst::CondBr(e.v(4), e.b(2), e.b(1)))
        .at(e.b(1))
        .i(imul(index, num(layout.entry_size)))
        .i(gep(list_ptr, e.v(6)))
        .i(Inst::Load(value_type(layout.key_ty), e.v(7)))
        .i(Inst::Load(LType::Table, acc));
    let (n, updated) = insert_inline_code(c, b, layout, ops, e.v(9), e.v(8));
    let done = n.i(Inst::Store(LType::Table, updated, acc))
        .i(iadd(index, num(1)))
        .edge(index, n.v(1), n.cur)
        .i(Inst::Br(e.b(0)))
        .at(e.b(2));
    done.i(Inst::Load(LType::Table, acc)).i(Inst::Ret(LType::Table, done.v(0)))
}

/// Emits `Set.from_list`.
pub fn emit_set_from_list(c: &EmitContext, f: &mut Body, layout: HashtableLayout, ops: KeyHashOps)
    ensures
        final(f)@ == set_from_list_code(c, old(f)@, layout, ops),
{
    let entry_block = f.cur;
    let list_ptr = f.ins(Inst::Extract(LType::List, Val::Param(0), 0));
    let list_len = f.ins(Inst::Extract(LType::List, Val::Param(0), 1));
    let init = build_empty_table(f, layout.entry_size);
    let acc = f.ins(Inst::Alloca(LType::Table));
    f.ins(Inst::Store(LType::Table, init, acc));
    let head = f.block("loop");
    let body = f.block("body");
    let done = f.block("done");
    f.ins(Inst::Br(head));

    f.at(head);
    let index = f.ins(Inst::Phi(LType::I64));
    f.edge(index, num(0), entry_block);
    let at_end = f.ins(itest(Pred::Uge, index, list_len));
    f.ins(Inst::CondBr(at_end, done, body));

    f.at(body);
    let offset = f.ins(imul(index, num(layout.entry_size)));
    let elem_ptr = f.ins(gep(list_ptr, offset));
    let elem = f.ins(Inst::Load(value_basic_type(layout.key_ty), elem_ptr));
    let current = f.ins(Inst::Load(LType::Table, acc));
    let updated = call_set_insert_inline(c, f, layout, ops, current, elem);
    f.ins(Inst::Store(LType::Table, updated, acc));
    let next = f.ins(iadd(index, num(1)));
    let tail = f.cur;
    f.edge(index, next, tail);
    f.ins(Inst::Br(head));

    f.at(done);
    let result = f.ins(Inst::Load(LType::Table, acc));
    f.ins(Inst::Ret(LType::Table, result));
}

} // verus!
