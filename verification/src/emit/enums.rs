//! Enum literals and projections. Every shape goes through a stack slot
//! of the enum's outer type: the tag is field 0 of a variant's complete
//! struct, the payload struct is field 2.

use std::collections::BTreeMap;

use vstd::prelude::*;
use crate::ctx::EmitContext;
use crate::emit::indirect::{box_value_code, emit_box_value, emit_unbox_value};
use crate::emit::frame::{undefined_value, Frame, Scope};
use crate::error::{says, LlvmError};
use crate::ir::{EnumPayloadInit, IRSymbol, IRType, IRVariantTag, StructFieldInit};
use crate::llvm::{num, Body, Code, Inst, LType, Val};
use crate::text::{concat3, decimal, u64_text};
use crate::types::{value_basic_type, value_type};

verus! {

/// The first `k` payload values as they are stored: those that go to a
/// boxed slot are boxed first.
pub open spec fn boxed_code(
    c: &EmitContext,
    s: Code,
    slots: Seq<IRType>,
    vals: Seq<Val>,
    k: nat,
) -> (Code, Seq<Val>)
    decreases k,
{
    if k == 0 {
        (s, Seq::empty())
    } else {
        let (s1, out) = boxed_code(c, s, slots, vals, (k - 1) as nat);
        match slots[k - 1] {
            IRType::Indirect(inner) => (
                box_value_code(c, s1, c.node(inner), vals[k - 1]),
                out.push(s1.v(5)),
            ),
            _ => (s1, out.push(vals[k - 1])),
        }
    }
}

/// The stores of the first `k` payload fields.
pub open spec fn write_fields_code(
    s: Code,
    payload_struct: LType,
    slots: Seq<IRType>,
    ptr: Val,
    vals: Seq<Val>,
    k: nat,
) -> Code
    decreases k,
{
    if k == 0 {
        s
    } else {
        let s1 = write_fields_code(s, payload_struct, slots, ptr, vals, (k - 1) as nat);
        s1.i(Inst::Field(payload_struct, ptr, (k - 1) as usize)).i(
            Inst::Store(value_type(slots[k - 1]), vals[k - 1], s1.v(0)),
        )
    }
}

/// A variant value: the tag and the payload fields written into a slot of
/// the outer type, and the slot's contents.
pub open spec fn enum_value_code(
    c: &EmitContext,
    s: Code,
    ty: IRSymbol,
    tag: IRVariantTag,
    vals: Seq<Val>,
) -> (Code, Val) {
    let slot = s.sv(0);
    let tagged = s.slot(LType::Enum(ty))
        .i(Inst::Field(LType::Variant(ty, tag.0), slot, 0))
        .i(Inst::Store(LType::I8, num(tag.0 as u64), s.v(0)));
    if vals.len() == 0 {
        (tagged.i(Inst::Load(LType::Enum(ty), slot)), tagged.v(0))
    } else {
        let slots = c.payload(ty, tag.0);
        let (sb, boxed) = boxed_code(c, tagged, slots, vals, vals.len());
        let filled = write_fields_code(
            sb.i(Inst::Field(LType::Variant(ty, tag.0), slot, 2)),
            LType::Payload(ty, tag.0),
            slots,
            sb.v(0),
            boxed,
            vals.len(),
        );
        (filled.i(Inst::Load(LType::Enum(ty), slot)), filled.v(0))
    }
}

proof fn boxing_appends(c: &EmitContext, s: Code, slots: Seq<IRType>, vals: Seq<Val>, k: nat)
    ensures
        s.log.is_prefix_of(boxed_code(c, s, slots, vals, k).0.log),
        s.edges == boxed_code(c, s, slots, vals, k).0.edges,
        boxed_code(c, s, slots, vals, k).0.log.len() <= s.log.len() + 8 * k,
    decreases k,
{
    if k == 0 {
        assert(s.log =~= s.log.subrange(0, s.log.len() as int));
    } else {
        boxing_appends(c, s, slots, vals, (k - 1) as nat);
        let mid = boxed_code(c, s, slots, vals, (k - 1) as nat).0.log;
        let end = boxed_code(c, s, slots, vals, k).0.log;
        assert(s.log =~= mid.subrange(0, s.log.len() as int));
        assert(s.log =~= end.subrange(0, s.log.len() as int));
    }
}

proof fn writing_appends(
    s: Code,
    payload_struct: LType,
    slots: Seq<IRType>,
    ptr: Val,
    vals: Seq<Val>,
    k: nat,
)
    ensures
        s.log.is_prefix_of(write_fields_code(s, payload_struct, slots, ptr, vals, k).log),
        s.edges == write_fields_code(s, payload_struct, slots, ptr, vals, k).edges,
        write_fields_code(s, payload_struct, slots, ptr, vals, k).log.len() == s.log.len() + 2 * k,
    decreases k,
{
    if k == 0 {
        assert(s.log =~= s.log.subrange(0, s.log.len() as int));
    } else {
        writing_appends(s, payload_struct, slots, ptr, vals, (k - 1) as nat);
        let mid = write_fields_code(s, payload_struct, slots, ptr, vals, (k - 1) as nat).log;
        let end = write_fields_code(s, payload_struct, slots, ptr, vals, k).log;
        assert(s.log =~= mid.subrange(0, s.log.len() as int));
        assert(s.log =~= end.subrange(0, s.log.len() as int));
    }
}

/// Building a variant value leaves what was recorded before it alone.
pub proof fn enum_value_appends(
    c: &EmitContext,
    s: Code,
    ty: IRSymbol,
    tag: IRVariantTag,
    vals: Seq<Val>,
)
    ensures
        s.log.is_prefix_of(enum_value_code(c, s, ty, tag, vals).0.log),
        s.edges == enum_value_code(c, s, ty, tag, vals).0.edges,
        s.log.len() < enum_value_code(c, s, ty, tag, vals).0.log.len() <= s.log.len() + 4 + 10
            * vals.len(),
        enum_value_code(c, s, ty, tag, vals).0.log[s.log.len() as int].block == s.cur,
{
    let slot = s.sv(0);
    let tagged = s.slot(LType::Enum(ty))
        .i(Inst::Field(LType::Variant(ty, tag.0), slot, 0))
        .i(Inst::Store(LType::I8, num(tag.0 as u64), s.v(0)));
    let end = enum_value_code(c, s, ty, tag, vals).0.log;
    let slots = c.payload(ty, tag.0);
    let (sb, boxed) = boxed_code(c, tagged, slots, vals, vals.len());
    boxing_appends(c, tagged, slots, vals, vals.len());
    let field = sb.i(Inst::Field(LType::Variant(ty, tag.0), slot, 2));
    writing_appends(field, LType::Payload(ty, tag.0), slots, sb.v(0), boxed, vals.len());
    if vals.len() > 0 {
        let filled = write_fields_code(
            field,
            LType::Payload(ty, tag.0),
            slots,
            sb.v(0),
            boxed,
            vals.len(),
        ).log;
        assert(s.log =~= end.subrange(0, s.log.len() as int)) by {
            assert forall|i: int| 0 <= i < s.log.len() implies #[trigger] end[i] == s.log[i] by {
                assert(tagged.log[i] == sb.log.subrange(0, tagged.log.len() as int)[i]);
                assert(field.log[i] == filled.subrange(0, field.log.len() as int)[i]);
            }
        }
        let first = s.log.len() as int;
        assert(tagged.log[first] == sb.log.subrange(0, tagged.log.len() as int)[first]);
        assert(field.log[first] == filled.subrange(0, field.log.len() as int)[first]);
    } else {
        assert(s.log =~= end.subrange(0, s.log.len() as int));
    }
}

/// Builds a variant value of enum `ty` whose payload fields are
/// positionally `vals`.
pub fn build_enum_value(
    c: &EmitContext,
    f: &mut Body,
    ty: IRSymbol,
    tag: IRVariantTag,
    vals: &Vec<Val>,
) -> (r: Val)
    requires
        vals@.len() == c.payload(ty, tag.0).len(),
    ensures
        (final(f)@, r) == enum_value_code(c, old(f)@, ty, tag, vals@),
{
    let slot = f.slot(LType::Enum(ty));
    write_variant_tag(f, ty, tag, slot);
    if vals.len() > 0 {
        let slots = c.enum_variant_payload(ty, tag.0);
        let boxed = box_payload_indirects(c, f, &slots, vals);
        let ptr = build_payload_gep(f, ty, tag, slot);
        write_payload_fields(f, LType::Payload(ty, tag.0), &slots, ptr, &boxed);
    }
    f.ins(Inst::Load(LType::Enum(ty), slot))
}

/// A variant value without a payload.
pub fn build_unit_value(c: &EmitContext, f: &mut Body, ty: IRSymbol, tag: IRVariantTag) -> (r: Val)
    requires
        c.payload(ty, tag.0).len() == 0,
    ensures
        (final(f)@, r) == enum_value_code(c, old(f)@, ty, tag, seq![]),
{
    let vals: Vec<Val> = Vec::new();
    assert(vals@ =~= seq![]);
    build_enum_value(c, f, ty, tag, &vals)
}

/// A variant value with one payload field.
pub fn build_single_value(
    c: &EmitContext,
    f: &mut Body,
    ty: IRSymbol,
    tag: IRVariantTag,
    value: Val,
) -> (r: Val)
    requires
        c.payload(ty, tag.0).len() == 1,
    ensures
        (final(f)@, r) == enum_value_code(c, old(f)@, ty, tag, seq![value]),
{
    let mut vals: Vec<Val> = Vec::new();
    vals.push(value);
    assert(vals@ =~= seq![value]);
    build_enum_value(c, f, ty, tag, &vals)
}

fn write_variant_tag(f: &mut Body, ty: IRSymbol, tag: IRVariantTag, slot: Val)
    ensures
        final(f)@ == old(f)@.i(Inst::Field(LType::Variant(ty, tag.0), slot, 0)).i(
            Inst::Store(LType::I8, num(tag.0 as u64), old(f)@.v(0)),
        ),
{
    let p = f.ins(Inst::Field(LType::Variant(ty, tag.0), slot, 0));
    f.ins(Inst::Store(LType::I8, num(tag.0 as u64), p));
}

fn build_payload_gep(f: &mut Body, ty: IRSymbol, tag: IRVariantTag, slot: Val) -> (r: Val)
    ensures
        final(f)@ == old(f)@.i(Inst::Field(LType::Variant(ty, tag.0), slot, 2)),
        r == old(f)@.v(0),
{
    f.ins(Inst::Field(LType::Variant(ty, tag.0), slot, 2))
}

/// Boxes the values that go to boxed slots.
fn box_payload_indirects(
    c: &EmitContext,
    f: &mut Body,
    slots: &Vec<IRType>,
    vals: &Vec<Val>,
) -> (r: Vec<Val>)
    requires
        vals@.len() == slots@.len(),
    ensures
        (final(f)@, r@) == boxed_code(c, old(f)@, slots@, vals@, vals@.len()),
        r@.len() == vals@.len(),
{
    let mut out: Vec<Val> = Vec::new();
    let mut i: usize = 0;
    while i < vals.len()
        invariant
            i <= vals.len(),
            vals@.len() == slots@.len(),
            out@.len() == i,
            (f@, out@) == boxed_code(c, old(f)@, slots@, vals@, i as nat),
        decreases vals.len() - i,
    {
        let stored = match slots[i] {
            IRType::Indirect(inner) => emit_box_value(c, f, c.component(inner), vals[i]),
            _ => vals[i],
        };
        out.push(stored);
        i = i + 1;
    }
    out
}

/// Stores each value into its payload field.
fn write_payload_fields(
    f: &mut Body,
    payload_struct: LType,
    slots: &Vec<IRType>,
    ptr: Val,
    vals: &Vec<Val>,
)
    requires
        vals@.len() == slots@.len(),
    ensures
        final(f)@ == write_fields_code(old(f)@, payload_struct, slots@, ptr, vals@, vals@.len()),
{
    let mut i: usize = 0;
    while i < vals.len()
        invariant
            i <= vals.len(),
            vals@.len() == slots@.len(),
            f@ == write_fields_code(old(f)@, payload_struct, slots@, ptr, vals@, i as nat),
        decreases vals.len() - i,
    {
        let field = f.ins(Inst::Field(payload_struct, ptr, i));
        f.ins(Inst::Store(value_basic_type(slots[i]), vals[i], field));
        i = i + 1;
    }
}

/// The tag byte of an enum value.
pub open spec fn enum_tag_get_code(s: Code, ty: IRSymbol, value: Val) -> Code {
    s.slot(LType::Enum(ty))
        .i(Inst::Store(LType::Enum(ty), value, s.sv(0)))
        .i(Inst::Field(LType::Variant(ty, 0), s.sv(0), 0))
        .i(Inst::Load(LType::I8, s.v(1)))
}

/// Reads the tag byte of an enum value. Every variant's complete struct
/// begins with it.
pub fn emit_enum_tag_get(f: &mut Body, ty: IRSymbol, value: Val) -> (r: Val)
    ensures
        final(f)@ == enum_tag_get_code(old(f)@, ty, value),
        r == old(f)@.v(2),
{
    let slot = f.slot(LType::Enum(ty));
    f.ins(Inst::Store(LType::Enum(ty), value, slot));
    let p = f.ins(Inst::Field(LType::Variant(ty, 0), slot, 0));
    f.ins(Inst::Load(LType::I8, p))
}

/// One payload field of an enum value, unboxed where its slot is boxed.
pub open spec fn enum_payload_field_get_code(
    c: &EmitContext,
    s: Code,
    index: usize,
    tag: IRVariantTag,
    ty: IRSymbol,
    value: Val,
) -> (Code, Val) {
    let declared = c.payload(ty, tag.0)[index as int];
    let loaded = s.slot(LType::Enum(ty))
        .i(Inst::Store(LType::Enum(ty), value, s.sv(0)))
        .i(Inst::Field(LType::Variant(ty, tag.0), s.sv(0), 2))
        .i(Inst::Field(LType::Payload(ty, tag.0), s.v(1), index))
        .i(Inst::Load(value_type(declared), s.v(2)));
    match declared {
        IRType::Indirect(inner) => (
            loaded.i(Inst::Load(value_type(c.node(inner)), s.v(3))),
            s.v(4),
        ),
        _ => (loaded, s.v(3)),
    }
}

/// Reads one payload field of an enum value.
pub fn emit_enum_payload_field_get(
    c: &EmitContext,
    f: &mut Body,
    index: usize,
    tag: IRVariantTag,
    ty: IRSymbol,
    value: Val,
) -> (r: Val)
    requires
        index < c.payload(ty, tag.0).len(),
    ensures
        (final(f)@, r) == enum_payload_field_get_code(c, old(f)@, index, tag, ty, value),
{
    let slots = c.enum_variant_payload(ty, tag.0);
    let slot = f.slot(LType::Enum(ty));
    f.ins(Inst::Store(LType::Enum(ty), value, slot));
    let payload = build_payload_gep(f, ty, tag, slot);
    let field = f.ins(Inst::Field(LType::Payload(ty, tag.0), payload, index));
    let loaded = f.ins(Inst::Load(value_basic_type(slots[index]), field));
    match slots[index] {
        IRType::Indirect(inner) => emit_unbox_value(f, c.component(inner), loaded),
        _ => loaded,
    }
}

/// One more than the greatest index of the first `k` field inits.
pub open spec fn field_arity(fields: Seq<StructFieldInit>, k: nat) -> nat
    decreases k,
{
    if k == 0 {
        0
    } else {
        let rest = field_arity(fields, (k - 1) as nat);
        if fields[k - 1].index + 1 > rest {
            (fields[k - 1].index + 1) as nat
        } else {
            rest
        }
    }
}

/// The operands of the first `k` field inits by field index: none where
/// one is not bound, or where a field is written twice.
pub open spec fn field_operands(sc: Scope, fields: Seq<StructFieldInit>, k: nat) -> Option<
    Map<u32, Val>,
>
    decreases k,
{
    if k == 0 {
        Some(Map::empty())
    } else {
        let init = fields[k - 1];
        match (field_operands(sc, fields, (k - 1) as nat), sc.value(init.value)) {
            (Some(slots), Some(v)) => if slots.contains_key(init.index) {
                None
            } else {
                Some(slots.insert(init.index, v))
            },
            _ => None,
        }
    }
}

proof fn failed_operands_stay(sc: Scope, fields: Seq<StructFieldInit>, n: nat, m: nat)
    requires
        n <= m,
        field_operands(sc, fields, n) is None,
    ensures
        field_operands(sc, fields, m) is None,
    decreases m - n,
{
    if n < m {
        failed_operands_stay(sc, fields, n, (m - 1) as nat);
    }
}

/// The operands of a struct-shaped payload in field order: none where a
/// field before the greatest one written is missing.
pub open spec fn struct_payload(sc: Scope, fields: Seq<StructFieldInit>) -> Option<Seq<Val>> {
    let arity = field_arity(fields, fields.len());
    match field_operands(sc, fields, fields.len()) {
        Some(slots) => if forall|i: u32| i < arity ==> #[trigger] slots.contains_key(i) {
            Some(Seq::new(arity, |i: int| slots[i as u32]))
        } else {
            None
        },
        None => None,
    }
}

proof fn arity_bound(fields: Seq<StructFieldInit>, k: nat)
    requires
        k <= fields.len(),
    ensures
        field_arity(fields, k) <= 0x1_0000_0000,
    decreases k,
{
    if k > 0 {
        arity_bound(fields, (k - 1) as nat);
    }
}

/// What is said of the first of the first `k` fields that cannot be put in.
pub open spec fn field_fault(sc: Scope, fields: Seq<StructFieldInit>, k: nat) -> Seq<char>
    decreases k,
{
    if k == 0 {
        ""@
    } else if field_operands(sc, fields, (k - 1) as nat) is None {
        field_fault(sc, fields, (k - 1) as nat)
    } else if sc.value(fields[k - 1].value) is None {
        undefined_value(fields[k - 1].value)
    } else {
        "struct payload field written twice"@
    }
}

/// What is said of a struct-shaped payload that cannot be put together: of
/// its first field that cannot be put in, or of the first one missing.
pub open spec fn struct_payload_fault(sc: Scope, fields: Seq<StructFieldInit>, e: LlvmError) -> bool {
    match field_operands(sc, fields, fields.len()) {
        None => says(e, field_fault(sc, fields, fields.len())),
        Some(slots) => exists|n: u32| #[trigger]
            first_gap(slots, n) && says(
                e,
                "struct payload missing field at index "@ + decimal(n as nat) + ""@,
            ),
    }
}

/// The first field that is not written.
pub open spec fn first_gap(slots: Map<u32, Val>, n: u32) -> bool {
    !slots.contains_key(n) && forall|j: u32| j < n ==> #[trigger] slots.contains_key(j)
}

proof fn field_fault_stays(sc: Scope, fields: Seq<StructFieldInit>, n: nat, m: nat)
    requires
        n <= m,
        field_operands(sc, fields, n) is None,
    ensures
        field_fault(sc, fields, m) == field_fault(sc, fields, n),
    decreases m - n,
{
    if n < m {
        failed_operands_stay(sc, fields, n, (m - 1) as nat);
        field_fault_stays(sc, fields, n, (m - 1) as nat);
    }
}

/// Puts the operands of a struct-shaped payload into field order.
pub fn resolve_struct_payload(fr: &Frame, fields: &Vec<StructFieldInit>) -> (r: Result<
    Vec<Val>,
    LlvmError,
>)
    ensures
        match r {
            Ok(v) => struct_payload(fr@, fields@) == Some(v@),
            Err(e) => struct_payload(fr@, fields@) is None && struct_payload_fault(fr@, fields@, e),
        },
{
    let mut slots: BTreeMap<u32, Val> = BTreeMap::new();
    let mut arity: u64 = 0;
    let mut i: usize = 0;
    while i < fields.len()
        invariant
            i <= fields.len(),
            arity == field_arity(fields@, i as nat),
            field_operands(fr@, fields@, i as nat) == Some(slots@),
        decreases fields.len() - i,
    {
        let init = fields[i];
        let ghost k = (i + 1) as nat;
        if (init.index as u64) + 1 > arity {
            arity = (init.index as u64) + 1;
        }
        match fr.lookup(init.value) {
            Ok(v) => {
                if slots.contains_key(&init.index) {
                    proof {
                        failed_operands_stay(fr@, fields@, k, fields@.len());
                        field_fault_stays(fr@, fields@, k, fields@.len());
                    }
                    return Err(
                        LlvmError::Codegen("struct payload field written twice".to_owned()),
                    );
                }
                slots.insert(init.index, v);
            },
            Err(e) => {
                proof {
                    failed_operands_stay(fr@, fields@, k, fields@.len());
                    field_fault_stays(fr@, fields@, k, fields@.len());
                }
                return Err(e);
            },
        }
        i = i + 1;
    }
    proof {
        arity_bound(fields@, fields@.len());
    }
    let mut out: Vec<Val> = Vec::new();
    let mut n: u64 = 0;
    while n < arity
        invariant
            n <= arity,
            arity == field_arity(fields@, fields@.len()),
            arity <= 0x1_0000_0000,
            field_operands(fr@, fields@, fields@.len()) == Some(slots@),
            out@.len() == n,
            forall|j: u32| j < n ==> #[trigger] slots@.contains_key(j),
            forall|j: int| 0 <= j < n ==> #[trigger] out@[j] == slots@[j as u32],
        decreases arity - n,
    {
        match slots.get(&(n as u32)) {
            Some(v) => out.push(*v),
            None => {
                assert(!slots@.contains_key(n as u32));
                assert(first_gap(slots@, n as u32));
                return Err(
                    LlvmError::Codegen(
                        concat3(
                            "struct payload missing field at index ",
                            u64_text(n).as_str(),
                            "",
                        ),
                    ),
                );
            },
        }
        n = n + 1;
    }
    assert(out@ =~= Seq::new(arity as nat, |i: int| slots@[i as u32]));
    Ok(out)
}

/// The operands of an enum literal, positionally.
pub open spec fn payload_operands(sc: Scope, payload: EnumPayloadInit) -> Option<Seq<Val>> {
    match payload {
        EnumPayloadInit::Struct(fields) => struct_payload(sc, fields@),
        EnumPayloadInit::Tuple(operands) => sc.all_values(operands@),
        EnumPayloadInit::Unit => Some(Seq::empty()),
    }
}

/// An enum literal: none where its operands are not what the variant
/// carries.
pub open spec fn enum_construct_code(
    c: &EmitContext,
    s: Code,
    sc: Scope,
    payload: EnumPayloadInit,
    tag: IRVariantTag,
    ty: IRSymbol,
) -> Option<(Code, Val)> {
    match payload_operands(sc, payload) {
        Some(vals) => if vals.len() == c.payload(ty, tag.0).len() {
            Some(enum_value_code(c, s, ty, tag, vals))
        } else {
            None
        },
        None => None,
    }
}

/// What is said of an enum literal that cannot be emitted.
pub open spec fn enum_construct_fault(
    c: &EmitContext,
    sc: Scope,
    payload: EnumPayloadInit,
    ty: IRSymbol,
    e: LlvmError,
) -> bool {
    if payload_operands(sc, payload) is Some {
        says(e, "enum `"@ + c.mangled(ty) + "` literal does not fit its variant"@)
    } else {
        match payload {
            EnumPayloadInit::Struct(fields) => struct_payload_fault(sc, fields@, e),
            EnumPayloadInit::Tuple(operands) => says(e, sc.missing_value(operands@, 0)),
            EnumPayloadInit::Unit => false,
        }
    }
}

/// Emits an enum literal.
pub fn emit_enum_construct(
    c: &EmitContext,
    f: &mut Body,
    fr: &Frame,
    payload: &EnumPayloadInit,
    tag: IRVariantTag,
    ty: IRSymbol,
) -> (r: Result<Val, LlvmError>)
    ensures
        match r {
            Ok(v) => enum_construct_code(c, old(f)@, fr@, *payload, tag, ty) == Some((final(f)@, v)),
            Err(e) => enum_construct_code(c, old(f)@, fr@, *payload, tag, ty) is None && enum_construct_fault(
                c,
                fr@,
                *payload,
                ty,
                e,
            ),
        },
{
    let vals = match payload {
        EnumPayloadInit::Struct(fields) => resolve_struct_payload(fr, fields)?,
        EnumPayloadInit::Tuple(operands) => fr.lookup_all(operands)?,
        EnumPayloadInit::Unit => {
            let none: Vec<Val> = Vec::new();
            assert(none@ =~= Seq::empty());
            none
        },
    };
    if vals.len() != c.enum_variant_payload(ty, tag.0).len() {
        return Err(
            LlvmError::Codegen(
                concat3("enum `", c.name_of(ty), "` literal does not fit its variant"),
            ),
        );
    }
    Ok(build_enum_value(c, f, ty, tag, &vals))
}

} // verus!
