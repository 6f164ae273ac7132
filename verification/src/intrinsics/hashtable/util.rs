//! Building blocks shared by every hashtable method.

use vstd::prelude::*;
use crate::ctx::EmitContext;
use crate::error::{says, LlvmError};
use crate::intrinsics::element::{walk_slot, walk_slot_code, Walk};
use crate::ir::{IRFunction, IRType};
use crate::llvm::{
    a1, a3, call, gep, iadd, iand, itest, itest8, imul, num, Body, Code, Inst, LType, Pred, Val,
};
use crate::runtime::Rt;
use crate::text::{concat2, concat3};
use crate::types::{shape_name, shape_text, value_basic_type, value_type};

verus! {

/// Bucket count of a fresh table.
pub const INITIAL_CAPACITY: u64 = 8;

/// A bucket that was never filled. Fresh state bytes are zeroed.
pub const STATE_EMPTY: u64 = 0;

/// A bucket that holds a live entry.
pub const STATE_OCCUPIED: u64 = 1;

/// A bucket whose entry was removed: a probe goes on past it.
pub const STATE_TOMBSTONE: u64 = 2;

/// The layout of one instantiation. A `Set` has no value type.
#[derive(Clone, Copy, Debug, PartialEq, Eq, Structural)]
pub struct HashtableLayout {
    pub entry_size: u64,
    pub key_size: u64,
    pub key_ty: IRType,
    pub value_ty: Option<IRType>,
}

/// Live state of one table: the two buffers, how many entries are live,
/// and how many buckets there are.
#[derive(Clone, Copy, Debug, PartialEq, Eq, Structural)]
pub struct TableSnapshot {
    pub entries_ptr: Val,
    pub states_ptr: Val,
    pub length: Val,
    pub capacity: Val,
}

/// The key-side helpers of a table: the declared `hash` and `eq`
/// functions, and the key's LLVM type.
#[derive(Clone, Copy, Debug, PartialEq, Eq, Structural)]
pub struct KeyHashOps {
    pub hash_fn: usize,
    pub eq_fn: usize,
    pub key_basic_ty: LType,
}

/// The layout of a `Map` (or, without a value type, a `Set`).
pub open spec fn layout_of(c: &EmitContext, key: IRType, value: Option<IRType>) -> HashtableLayout {
    HashtableLayout {
        entry_size: match value {
            Some(v) => (c.abi(value_type(key)) + c.abi(value_type(v))) as u64,
            None => c.abi(value_type(key)),
        },
        key_size: c.abi(value_type(key)),
        key_ty: key,
        value_ty: value,
    }
}

/// The sizes of a table's entry add up.
pub open spec fn entry_fits(c: &EmitContext, key: IRType, value: Option<IRType>) -> bool {
    value matches Some(v) ==> c.abi(value_type(key)) + c.abi(value_type(v)) <= u64::MAX
}

/// The byte size of a type.
pub fn ir_byte_size(c: &EmitContext, ty: IRType) -> (r: u64)
    ensures
        r == c.abi(value_type(ty)),
{
    c.abi_size(value_basic_type(ty))
}

/// Lays out a table.
pub fn table_layout(c: &EmitContext, key: IRType, value: Option<IRType>) -> (r: HashtableLayout)
    requires
        entry_fits(c, key, value),
    ensures
        r == layout_of(c, key, value),
{
    let key_size: u64 = ir_byte_size(c, key);
    let entry_size: u64 = match value {
        Some(v) => key_size + ir_byte_size(c, v),
        None => key_size,
    };
    HashtableLayout { entry_size, key_size, key_ty: key, value_ty: value }
}

/// The table value made of a snapshot.
pub open spec fn table_struct_code(s: Code, t: TableSnapshot) -> Code {
    s.i(Inst::Insert(LType::Table, Val::Undef, LType::Ptr, t.entries_ptr, 0))
        .i(Inst::Insert(LType::Table, s.v(0), LType::Ptr, t.states_ptr, 1))
        .i(Inst::Insert(LType::Table, s.v(1), LType::I64, t.length, 2))
        .i(Inst::Insert(LType::Table, s.v(2), LType::I64, t.capacity, 3))
}

/// Packs a snapshot into a table value.
pub fn build_table_struct(f: &mut Body, t: TableSnapshot) -> (r: Val)
    ensures
        final(f)@ == table_struct_code(old(f)@, t),
        r == old(f)@.v(3),
{
    let a = f.ins(Inst::Insert(LType::Table, Val::Undef, LType::Ptr, t.entries_ptr, 0));
    let b = f.ins(Inst::Insert(LType::Table, a, LType::Ptr, t.states_ptr, 1));
    let d = f.ins(Inst::Insert(LType::Table, b, LType::I64, t.length, 2));
    f.ins(Inst::Insert(LType::Table, d, LType::I64, t.capacity, 3))
}

/// A fresh table: both buffers allocated, every state byte empty.
pub open spec fn empty_table_code(s: Code, entry_size: u64) -> Code {
    table_struct_code(
        s.i(imul(num(INITIAL_CAPACITY), num(entry_size)))
            .i(call(Rt::Malloc, a1(s.v(0))))
            .i(call(Rt::Malloc, a1(num(INITIAL_CAPACITY))))
            .i(call(Rt::Memset, a3(s.v(2), num(0), num(INITIAL_CAPACITY)))),
        TableSnapshot {
            entries_ptr: s.v(1),
            states_ptr: s.v(2),
            length: num(0),
            capacity: num(INITIAL_CAPACITY),
        },
    )
}

/// Allocates a fresh table.
pub fn build_empty_table(f: &mut Body, entry_size: u64) -> (r: Val)
    ensures
        final(f)@ == empty_table_code(old(f)@, entry_size),
        r == old(f)@.v(7),
{
    let capacity = num(INITIAL_CAPACITY);
    let bytes = f.ins(imul(capacity, num(entry_size)));
    let entries_ptr = f.ins(call(Rt::Malloc, a1(bytes)));
    let states_ptr = f.ins(call(Rt::Malloc, a1(capacity)));
    f.ins(call(Rt::Memset, a3(states_ptr, num(0), capacity)));
    build_table_struct(f, TableSnapshot { entries_ptr, states_ptr, length: num(0), capacity })
}

/// The four fields of a table value.
pub open spec fn extract_code(s: Code, table: Val) -> Code {
    s.i(Inst::Extract(LType::Table, table, 0))
        .i(Inst::Extract(LType::Table, table, 1))
        .i(Inst::Extract(LType::Table, table, 2))
        .i(Inst::Extract(LType::Table, table, 3))
}

/// The snapshot that extracting at `s` gives.
pub open spec fn extracted(s: Code) -> TableSnapshot {
    TableSnapshot { entries_ptr: s.v(0), states_ptr: s.v(1), length: s.v(2), capacity: s.v(3) }
}

/// Takes a table value apart.
pub fn extract_table_fields(f: &mut Body, table: Val) -> (r: TableSnapshot)
    ensures
        final(f)@ == extract_code(old(f)@, table),
        r == extracted(old(f)@),
{
    let entries_ptr = f.ins(Inst::Extract(LType::Table, table, 0));
    let states_ptr = f.ins(Inst::Extract(LType::Table, table, 1));
    let length = f.ins(Inst::Extract(LType::Table, table, 2));
    let capacity = f.ins(Inst::Extract(LType::Table, table, 3));
    TableSnapshot { entries_ptr, states_ptr, length, capacity }
}

/// The address of a bucket's entry.
pub open spec fn entry_pointer_code(s: Code, entries: Val, slot: Val, entry_size: u64) -> Code {
    s.i(imul(slot, num(entry_size))).i(gep(entries, s.v(0)))
}

/// The address of a bucket's entry.
pub fn entry_pointer(f: &mut Body, entries: Val, slot: Val, entry_size: u64) -> (r: Val)
    ensures
        final(f)@ == entry_pointer_code(old(f)@, entries, slot, entry_size),
        r == old(f)@.v(1),
{
    let offset = f.ins(imul(slot, num(entry_size)));
    f.ins(gep(entries, offset))
}

/// The address of the value half of a `Map` entry, behind its key.
pub fn value_slot(f: &mut Body, entry: Val, key_size: u64) -> (r: Val)
    ensures
        final(f)@ == old(f)@.i(gep(entry, num(key_size))),
        r == old(f)@.v(0),
{
    f.ins(gep(entry, num(key_size)))
}

/// The bucket after `slot`, wrapping at the end of the table.
pub open spec fn advance_code(s: Code, slot: Val, mask: Val) -> Code {
    s.i(iadd(slot, num(1))).i(iand(s.v(0), mask))
}

/// Goes on to the next bucket.
pub fn advance_slot(f: &mut Body, slot: Val, mask: Val) -> (r: Val)
    ensures
        final(f)@ == advance_code(old(f)@, slot, mask),
        r == old(f)@.v(1),
{
    let next = f.ins(iadd(slot, num(1)));
    f.ins(iand(next, mask))
}

/// The head of `for slot in 0..capacity { if states[slot] is occupied`:
/// the blocks are head, check, occupied, next and exit.
pub open spec fn occupied_begin(s: Code, states: Val, capacity: Val) -> Code {
    s.slot(LType::I64)
        .i(Inst::Store(LType::I64, num(0), s.sv(0)))
        .word("walk_head"@)
        .word("walk_check"@)
        .word("walk_occupied"@)
        .word("walk_next"@)
        .word("walk_exit"@)
        .i(Inst::Br(s.b(0)))
        .at(s.b(0))
        .i(Inst::Load(LType::I64, s.sv(0)))
        .i(itest(Pred::Ult, s.v(2), capacity))
        .i(Inst::CondBr(s.v(3), s.b(1), s.b(4)))
        .at(s.b(1))
        .i(gep(states, s.v(2)))
        .i(Inst::Load(LType::I8, s.v(5)))
        .i(itest8(Pred::Eq, s.v(6), num(STATE_OCCUPIED)))
        .i(Inst::CondBr(s.v(7), s.b(2), s.b(3)))
        .at(s.b(2))
}

/// The tail of the walk that began at `s`.
pub open spec fn occupied_end(s: Code, body: Code) -> Code {
    body.i(Inst::Br(s.b(3)))
        .at(s.b(3))
        .i(iadd(s.v(2), num(1)))
        .i(Inst::Store(LType::I64, body.v(1), s.sv(0)))
        .i(Inst::Br(s.b(0)))
        .at(s.b(4))
}

/// An open walk over the occupied buckets of a table.
#[derive(Clone, Copy, Debug, PartialEq, Eq, Structural)]
pub struct OccupiedLoop {
    pub counter: Val,
    pub head: usize,
    pub next: usize,
    pub exit: usize,
    pub index: Val,
}

/// The walk that begins at `s`.
pub open spec fn occupied_at(s: Code) -> OccupiedLoop {
    OccupiedLoop { counter: s.sv(0), head: s.b(0), next: s.b(3), exit: s.b(4), index: s.v(2) }
}

/// Opens a walk over the occupied buckets and goes on in its body.
pub fn occupied_loop(f: &mut Body, states: Val, capacity: Val) -> (r: OccupiedLoop)
    ensures
        final(f)@ == occupied_begin(old(f)@, states, capacity),
        r == occupied_at(old(f)@),
{
    let counter = f.slot(LType::I64);
    f.ins(Inst::Store(LType::I64, num(0), counter));
    let head = f.block("walk_head");
    let check = f.block("walk_check");
    let occupied = f.block("walk_occupied");
    let next = f.block("walk_next");
    let exit = f.block("walk_exit");
    f.ins(Inst::Br(head));
    f.at(head);
    let index = f.ins(Inst::Load(LType::I64, counter));
    let in_range = f.ins(itest(Pred::Ult, index, capacity));
    f.ins(Inst::CondBr(in_range, check, exit));
    f.at(check);
    let state_ptr = f.ins(gep(states, index));
    let state = f.ins(Inst::Load(LType::I8, state_ptr));
    let is_occupied = f.ins(itest8(Pred::Eq, state, num(STATE_OCCUPIED)));
    f.ins(Inst::CondBr(is_occupied, occupied, next));
    f.at(occupied);
    OccupiedLoop { counter, head, next, exit, index }
}

impl OccupiedLoop {
    /// Closes the walk and goes on behind it.
    pub fn close(self, f: &mut Body)
        ensures
            forall|s: Code|
                self == occupied_at(s) ==> final(f)@ == #[trigger] occupied_end(s, old(f)@),
    {
        f.ins(Inst::Br(self.next));
        f.at(self.next);
        let step = f.ins(iadd(self.index, num(1)));
        f.ins(Inst::Store(LType::I64, step, self.counter));
        f.ins(Inst::Br(self.head));
        f.at(self.exit);
    }
}

/// A walk over the keys and values of every occupied bucket.
pub open spec fn walk_entries_code(
    c: &EmitContext,
    s: Code,
    walk: Walk,
    layout: HashtableLayout,
    entries: Val,
    states: Val,
    capacity: Val,
) -> Code {
    let b = occupied_begin(s, states, capacity);
    let keyed = walk_slot_code(
        c,
        entry_pointer_code(b, entries, s.v(2), layout.entry_size),
        walk,
        layout.key_ty,
        b.v(1),
    );
    occupied_end(
        s,
        match layout.value_ty {
            Some(value_ty) => walk_slot_code(
                c,
                keyed.i(gep(b.v(1), num(layout.key_size))),
                walk,
                value_ty,
                keyed.v(0),
            ),
            None => keyed,
        },
    )
}

/// Walks the keys and values of every occupied bucket.
pub fn walk_entries(
    c: &EmitContext,
    f: &mut Body,
    walk: Walk,
    layout: HashtableLayout,
    entries: Val,
    states: Val,
    capacity: Val,
)
    ensures
        final(f)@ == walk_entries_code(c, old(f)@, walk, layout, entries, states, capacity),
{
    let l = occupied_loop(f, states, capacity);
    let entry = entry_pointer(f, entries, l.index, layout.entry_size);
    walk_slot(c, f, walk, layout.key_ty, entry);
    match layout.value_ty {
        Some(value_ty) => {
            let value = value_slot(f, entry, layout.key_size);
            walk_slot(c, f, walk, value_ty, value);
        },
        None => {},
    }
    l.close(f);
}

/// A copy of a table's buffers that owns its elements: the copied code,
/// then the walk that makes every copied element independent.
pub open spec fn copy_buffers_code(
    c: &EmitContext,
    s: Code,
    walk: Walk,
    layout: HashtableLayout,
    src: TableSnapshot,
) -> Code {
    walk_entries_code(
        c,
        s.i(imul(src.capacity, num(layout.entry_size)))
            .i(call(Rt::Malloc, a1(s.v(0))))
            .i(call(Rt::Malloc, a1(src.capacity)))
            .i(call(Rt::Memcpy, a3(s.v(1), src.entries_ptr, s.v(0))))
            .i(call(Rt::Memcpy, a3(s.v(2), src.states_ptr, src.capacity))),
        walk,
        layout,
        s.v(1),
        s.v(2),
        src.capacity,
    )
}

/// The copy that is made at `s`.
pub open spec fn copied(s: Code, src: TableSnapshot) -> TableSnapshot {
    TableSnapshot { entries_ptr: s.v(1), states_ptr: s.v(2), length: src.length, capacity: src.capacity }
}

/// Copies a table's buffers into fresh allocations.
pub fn copy_table_buffers(
    c: &EmitContext,
    f: &mut Body,
    walk: Walk,
    layout: HashtableLayout,
    src: TableSnapshot,
) -> (r: TableSnapshot)
    ensures
        final(f)@ == copy_buffers_code(c, old(f)@, walk, layout, src),
        r == copied(old(f)@, src),
{
    let bytes = f.ins(imul(src.capacity, num(layout.entry_size)));
    let entries_ptr = f.ins(call(Rt::Malloc, a1(bytes)));
    let states_ptr = f.ins(call(Rt::Malloc, a1(src.capacity)));
    f.ins(call(Rt::Memcpy, a3(entries_ptr, src.entries_ptr, bytes)));
    f.ins(call(Rt::Memcpy, a3(states_ptr, src.states_ptr, src.capacity)));
    walk_entries(c, f, walk, layout, entries_ptr, states_ptr, src.capacity);
    TableSnapshot { entries_ptr, states_ptr, length: src.length, capacity: src.capacity }
}

/// Copy-on-write: every mutator clones the buffers before it writes, so a
/// table shared by assignment is never changed through another name.
pub fn clone_table_buffers(
    c: &EmitContext,
    f: &mut Body,
    layout: HashtableLayout,
    src: TableSnapshot,
) -> (r: TableSnapshot)
    ensures
        final(f)@ == copy_buffers_code(c, old(f)@, Walk::Acquire, layout, src),
        r == copied(old(f)@, src),
{
    copy_table_buffers(c, f, Walk::Acquire, layout, src)
}

/// The name that a key type's `hash` and `eq` are methods of.
pub open spec fn hash_receiver(c: &EmitContext, key_ty: IRType) -> Option<Seq<char>> {
    match key_ty {
        IRType::Bool => Some("Global.Bool"@),
        IRType::Int8 => Some("Global.Int8"@),
        IRType::Int16 => Some("Global.Int16"@),
        IRType::Int32 => Some("Global.Int32"@),
        IRType::Int64 => Some("Global.Int"@),
        IRType::UInt8 => Some("Global.UInt8"@),
        IRType::UInt16 => Some("Global.UInt16"@),
        IRType::UInt32 => Some("Global.UInt32"@),
        IRType::UInt64 => Some("Global.UInt64"@),
        IRType::String => Some("Global.String"@),
        IRType::Struct(symbol) => Some(c.mangled(symbol)),
        _ => None,
    }
}

/// The name that a key type's `hash` and `eq` are methods of.
pub fn hash_receiver_symbol(c: &EmitContext, key_ty: IRType) -> (r: Option<&str>)
    ensures
        match r {
            Some(t) => hash_receiver(c, key_ty) == Some(t@),
            None => hash_receiver(c, key_ty) is None,
        },
{
    match key_ty {
        IRType::Bool => Some("Global.Bool"),
        IRType::Int8 => Some("Global.Int8"),
        IRType::Int16 => Some("Global.Int16"),
        IRType::Int32 => Some("Global.Int32"),
        IRType::Int64 => Some("Global.Int"),
        IRType::UInt8 => Some("Global.UInt8"),
        IRType::UInt16 => Some("Global.UInt16"),
        IRType::UInt32 => Some("Global.UInt32"),
        IRType::UInt64 => Some("Global.UInt64"),
        IRType::String => Some("Global.String"),
        IRType::Struct(symbol) => Some(c.name_of(symbol)),
        _ => None,
    }
}

/// The key helpers of a table, where the key type has both.
pub open spec fn key_ops(c: &EmitContext, key_ty: IRType) -> Option<KeyHashOps> {
    match hash_receiver(c, key_ty) {
        Some(receiver) => match (
            c.function_named(receiver + ".hash"@),
            c.function_named(receiver + ".eq"@),
        ) {
            (Some(hash_fn), Some(eq_fn)) => Some(
                KeyHashOps { hash_fn, eq_fn, key_basic_ty: value_type(key_ty) },
            ),
            _ => None,
        },
        None => None,
    }
}

/// What is said of a key type that lacks a helper.
pub open spec fn no_key_ops(c: &EmitContext, function: &IRFunction, key_ty: IRType) -> Seq<char> {
    let head = "type `"@ + shape_text(key_ty) + "` does not implement "@;
    let tail = " for `"@ + c.mangled(function.symbol) + "`"@;
    match hash_receiver(c, key_ty) {
        None => head + "Hash (no receiver symbol)"@ + tail,
        Some(receiver) => if c.function_named(receiver + ".hash"@) is None {
            head + ("Hash (no `"@ + (receiver + ".hash"@) + "` function)"@) + tail
        } else {
            head + ("Equality (no `"@ + (receiver + ".eq"@) + "` function)"@) + tail
        },
    }
}

fn not_implemented(c: &EmitContext, function: &IRFunction, key_ty: IRType, what: &str) -> (r:
    LlvmError)
    ensures
        says(
            r,
            ("type `"@ + shape_text(key_ty) + "` does not implement "@) + what@ + (" for `"@
                + c.mangled(function.symbol) + "`"@),
        ),
{
    let head = concat3("type `", shape_name(key_ty), "` does not implement ");
    let tail = concat3(" for `", c.name_of(function.symbol), "`");
    LlvmError::Codegen(concat3(head.as_str(), what, tail.as_str()))
}

/// Resolves the `hash` and `eq` functions of a key type by name. A key
/// type without them is reported, since a program can ask for such a
/// table.
pub fn resolve_key_hash_ops(c: &EmitContext, function: &IRFunction, key_ty: IRType) -> (r: Result<
    KeyHashOps,
    LlvmError,
>)
    ensures
        match r {
            Ok(ops) => key_ops(c, key_ty) == Some(ops),
            Err(e) => key_ops(c, key_ty) is None && says(e, no_key_ops(c, function, key_ty)),
        },
{
    match hash_receiver_symbol(c, key_ty) {
        None => Err(not_implemented(c, function, key_ty, "Hash (no receiver symbol)")),
        Some(receiver) => {
            let hash_symbol = concat2(receiver, ".hash");
            let eq_symbol = concat2(receiver, ".eq");
            match c.declared_named(hash_symbol.as_str()) {
                None => {
                    let what = concat3("Hash (no `", hash_symbol.as_str(), "` function)");
                    Err(not_implemented(c, function, key_ty, what.as_str()))
                },
                Some(hash_fn) => match c.declared_named(eq_symbol.as_str()) {
                    None => {
                        let what = concat3("Equality (no `", eq_symbol.as_str(), "` function)");
                        Err(not_implemented(c, function, key_ty, what.as_str()))
                    },
                    Some(eq_fn) => Ok(
                        KeyHashOps { hash_fn, eq_fn, key_basic_ty: value_basic_type(key_ty) },
                    ),
                },
            }
        },
    }
}

} // verus!
