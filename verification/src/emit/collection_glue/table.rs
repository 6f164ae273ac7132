//! Glue of `Map<K, V>` and `Set<T>`: `{ entries, states, len, cap }`
//! over open-addressed buckets.

use vstd::prelude::*;
use crate::ctx::EmitContext;
use crate::intrinsics::element::Walk;
use crate::intrinsics::hashtable::util::{
    build_table_struct, copied, copy_buffers_code, copy_table_buffers, extract_code,
    extract_table_fields, extracted, table_struct_code, walk_entries, walk_entries_code,
    HashtableLayout,
};
use crate::llvm::{a1, call, Body, Code, Inst, LType, Val};
use crate::runtime::Rt;

verus! {

/// A copy of a table: both buffers, and the walk that makes the key and
/// value of every occupied bucket independent.
pub open spec fn copy_table_code(
    c: &EmitContext,
    s: Code,
    layout: HashtableLayout,
    walk: Walk,
) -> Code {
    let e = extract_code(s, Val::Param(0));
    let t = copy_buffers_code(c, e, walk, layout, extracted(s));
    table_struct_code(t, copied(e, extracted(s))).i(Inst::Ret(LType::Table, t.v(3)))
}

/// Emits a copy of a table.
pub fn copy_table(c: &EmitContext, f: &mut Body, layout: HashtableLayout, walk: Walk)
    ensures
        final(f)@ == copy_table_code(c, old(f)@, layout, walk),
{
    let receiver = extract_table_fields(f, Val::Param(0));
    let copy = copy_table_buffers(c, f, walk, layout, receiver);
    let result = build_table_struct(f, copy);
    f.ins(Inst::Ret(LType::Table, result));
}

/// The drop of a table: the key and value of every occupied bucket are
/// released, then both buffers.
pub open spec fn drop_table_code(c: &EmitContext, s: Code, layout: HashtableLayout) -> Code {
    walk_entries_code(
        c,
        s.i(Inst::Extract(LType::Table, Val::Param(0), 0))
            .i(Inst::Extract(LType::Table, Val::Param(0), 1))
            .i(Inst::Extract(LType::Table, Val::Param(0), 3)),
        Walk::Release,
        layout,
        s.v(0),
        s.v(1),
        s.v(2),
    ).i(call(Rt::Free, a1(s.v(0)))).i(call(Rt::Free, a1(s.v(1)))).i(Inst::RetVoid)
}

/// Emits the drop of a table.
pub fn drop_table(c: &EmitContext, f: &mut Body, layout: HashtableLayout)
    ensures
        final(f)@ == drop_table_code(c, old(f)@, layout),
{
    let entries = f.ins(Inst::Extract(LType::Table, Val::Param(0), 0));
    let states = f.ins(Inst::Extract(LType::Table, Val::Param(0), 1));
    let capacity = f.ins(Inst::Extract(LType::Table, Val::Param(0), 3));
    walk_entries(c, f, Walk::Release, layout, entries, states, capacity);
    f.ins(call(Rt::Free, a1(entries)));
    f.ins(call(Rt::Free, a1(states)));
    f.ins(Inst::RetVoid);
}

} // verus!
