//! Methods that allocate or inspect a table: `new`, `length`, `empty?`
//! and the identities. None of them probes.

use vstd::prelude::*;
use crate::ctx::EmitContext;
use crate::intrinsics::element::Walk;
use crate::intrinsics::hashtable::util::{
    build_empty_table, build_table_struct, clone_table_buffers, copied, copy_buffers_code,
    empty_table_code, extract_code, extract_table_fields, extracted, table_struct_code,
    HashtableLayout,
};
use crate::llvm::{itest, num, Body, Code, Inst, LType, Pred, Val};

verus! {

/// `new`: a fresh table.
pub fn emit_new(f: &mut Body, entry_size: u64)
    ensures
        final(f)@ == empty_table_code(old(f)@, entry_size).i(
            Inst::Ret(LType::Table, old(f)@.v(7)),
        ),
{
    let table = build_empty_table(f, entry_size);
    f.ins(Inst::Ret(LType::Table, table));
}

/// `length`: how many entries are live.
pub fn emit_length(f: &mut Body)
    ensures
        final(f)@ == old(f)@.i(Inst::Extract(LType::Table, Val::Param(0), 2)).i(
            Inst::Ret(LType::I64, old(f)@.v(0)),
        ),
{
    let len = f.ins(Inst::Extract(LType::Table, Val::Param(0), 2));
    f.ins(Inst::Ret(LType::I64, len));
}

/// `empty?`: whether no entry is live.
pub fn emit_empty_q(f: &mut Body)
    ensures
        final(f)@ == old(f)@.i(Inst::Extract(LType::Table, Val::Param(0), 2))
            .i(itest(Pred::Eq, old(f)@.v(0), num(0)))
            .i(Inst::Ret(LType::I1, old(f)@.v(1))),
{
    let len = f.ins(Inst::Extract(LType::Table, Val::Param(0), 2));
    let is_empty = f.ins(itest(Pred::Eq, len, num(0)));
    f.ins(Inst::Ret(LType::I1, is_empty));
}

/// The identity on tables: a copy that owns its buffers, since the caller
/// drops the receiver.
pub open spec fn identity_code(c: &EmitContext, s: Code, layout: HashtableLayout) -> Code {
    let e = extract_code(s, Val::Param(0));
    let t = copy_buffers_code(c, e, Walk::Acquire, layout, extracted(s));
    table_struct_code(t, copied(e, extracted(s))).i(Inst::Ret(LType::Table, t.v(3)))
}

/// Emits `Map.from_map` and `Set.from_set`.
pub fn emit_identity(c: &EmitContext, f: &mut Body, layout: HashtableLayout)
    ensures
        final(f)@ == identity_code(c, old(f)@, layout),
{
    let receiver = extract_table_fields(f, Val::Param(0));
    let cloned = clone_table_buffers(c, f, layout, receiver);
    let result = build_table_struct(f, cloned);
    f.ins(Inst::Ret(LType::Table, result));
}

} // verus!
