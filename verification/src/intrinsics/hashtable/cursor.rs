//! The cursor scan of `Map.next` and `Set.next`.

use vstd::prelude::*;
use crate::ctx::EmitContext;
use crate::emit::enums::{build_single_value, build_unit_value, enum_value_code};
use crate::intrinsics::element::{acquire_value, acquire_value_code};
use crate::intrinsics::hashtable::util::{
    entry_pointer, extract_code, extract_table_fields, extracted, value_slot, HashtableLayout,
    STATE_OCCUPIED,
};
use crate::ir::{IRSymbol, IRType, IRVariantTag};
use crate::llvm::{gep, iadd, itest, itest8, imul, num, Body, Code, Inst, LType, Pred, Val};
use crate::types::{value_basic_type, value_type};

verus! {

/// What a cursor's `Some` holds: the option enum, its two tags, and the
/// tuple of the item and the next cursor, with the type of the item.
#[derive(Clone, Copy, Debug, PartialEq, Eq, Structural)]
pub struct CursorOption {
    pub symbol: IRSymbol,
    pub some: IRVariantTag,
    pub none: IRVariantTag,
    pub tuple: usize,
    pub item: LType,
}

/// The enum has the shape of a cursor result: `Some` carries one pair,
/// `None` carries nothing. Tags go by name.
pub open spec fn cursor_option(c: &EmitContext, symbol: IRSymbol) -> Option<CursorOption> {
    match (c.tag_of(symbol, "Some"@), c.tag_of(symbol, "None"@)) {
        (Some(some), Some(none)) => {
            let slots = c.payload(symbol, some.0);
            if slots.len() == 1 && c.payload(symbol, none.0).len() == 0 {
                match slots[0] {
                    IRType::Tuple(tuple) => if c.elements(tuple).len() == 2 {
                        Some(
                            CursorOption {
                                symbol,
                                some,
                                none,
                                tuple,
                                item: value_type(c.elements(tuple)[0]),
                            },
                        )
                    } else {
                        None
                    },
                    _ => None,
                }
            } else {
                None
            }
        },
        _ => None,
    }
}

/// Resolves the shape of a cursor result.
pub fn resolve_cursor_option(c: &EmitContext, symbol: IRSymbol) -> (r: Option<CursorOption>)
    ensures
        r == cursor_option(c, symbol),
{
    match c.enum_variant_tag(symbol, "Some") {
        None => None,
        Some(some) => match c.enum_variant_tag(symbol, "None") {
            None => None,
            Some(none) => {
                let slots = c.enum_variant_payload(symbol, some.0);
                let nothing = c.enum_variant_payload(symbol, none.0);
                if slots.len() == 1 && nothing.len() == 0 {
                    match slots[0] {
                        IRType::Tuple(tuple) => if c.tuple_len(tuple) == 2 {
                            match c.tuple_element(tuple, 0) {
                                Some(first) => Some(
                                    CursorOption {
                                        symbol,
                                        some,
                                        none,
                                        tuple,
                                        item: value_basic_type(first),
                                    },
                                ),
                                None => None,
                            }
                        } else {
                            None
                        },
                        _ => None,
                    }
                } else {
                    None
                }
            },
        },
    }
}

/// The scan up to the key of the bucket that it finds. Its blocks are scan,
/// check, found, advance and none.
pub open spec fn scan_code(s: Code, layout: HashtableLayout) -> Code {
    let t = extract_code(s, Val::Param(0));
    let table = extracted(s);
    let slot = t.v(2);
    t
        .word("cursor_scan"@)
        .word("cursor_check"@)
        .word("cursor_found"@)
        .word("cursor_advance"@)
        .word("cursor_none"@)
        .i(itest(Pred::Sge, Val::Param(1), num(0)))
        .i(Inst::CondBr(t.v(0), t.b(0), t.b(4)))
        .at(t.b(0))
        .i(Inst::Phi(LType::I64))
        .edge(slot, Val::Param(1), t.cur)
        .i(itest(Pred::Ult, slot, table.capacity))
        .i(Inst::CondBr(t.v(3), t.b(1), t.b(4)))
        .at(t.b(1))
        .i(gep(table.states_ptr, slot))
        .i(Inst::Load(LType::I8, t.v(5)))
        .i(itest8(Pred::Eq, t.v(6), num(STATE_OCCUPIED)))
        .i(Inst::CondBr(t.v(7), t.b(2), t.b(3)))
        .at(t.b(3))
        .i(iadd(slot, num(1)))
        .edge(slot, t.v(9), t.b(3))
        .i(Inst::Br(t.b(0)))
        .at(t.b(2))
        .i(imul(slot, num(layout.entry_size)))
        .i(gep(table.entries_ptr, t.v(11)))
        .i(Inst::Load(value_type(layout.key_ty), t.v(12)))
}

/// What a scan hands out: the acquired key and value, and the item made of
/// them.
pub struct Handed {
    pub code: Code,
    pub key: Val,
    pub value: Val,
    pub item: Val,
    pub item_ty: LType,
}

/// The entry that a scan finds, acquired.
pub open spec fn handed_code(
    c: &EmitContext,
    s: Code,
    layout: HashtableLayout,
    option: CursorOption,
) -> Handed {
    let t = extract_code(s, Val::Param(0));
    let (keyed, key) = acquire_value_code(c, scan_code(s, layout), layout.key_ty, t.v(13));
    match layout.value_ty {
        Some(value_ty) => {
            let pair = option.item;
            let (v, value) = acquire_value_code(
                c,
                keyed.i(gep(t.v(12), num(layout.key_size))).i(
                    Inst::Load(value_type(value_ty), keyed.v(0)),
                ),
                value_ty,
                keyed.v(1),
            );
            Handed {
                code: v.i(Inst::Insert(pair, Val::Undef, value_type(layout.key_ty), key, 0)).i(
                    Inst::Insert(pair, v.v(0), value_type(value_ty), value, 1),
                ),
                key: key,
                value: value,
                item: v.v(1),
                item_ty: pair,
            }
        },
        None => Handed {
            code: keyed,
            key: key,
            value: Val::Undef,
            item: key,
            item_ty: value_type(layout.key_ty),
        },
    }
}

/// The entry and the cursor behind it, as a pair.
pub open spec fn packed_code(
    c: &EmitContext,
    s: Code,
    layout: HashtableLayout,
    option: CursorOption,
) -> Code {
    let slot = extract_code(s, Val::Param(0)).v(2);
    let h = handed_code(c, s, layout, option);
    h.code.i(iadd(slot, num(1)))
        .i(Inst::Insert(LType::Tuple(option.tuple), Val::Undef, h.item_ty, h.item, 0))
        .i(Inst::Insert(LType::Tuple(option.tuple), h.code.v(1), LType::I64, h.code.v(0), 1))
}

/// The body of a `next`. From the cursor on it looks for the first
/// occupied bucket and hands out an owned copy of the entry with the cursor
/// behind it; a negative cursor and the end of the table give `None`.
pub open spec fn next_code(
    c: &EmitContext,
    s: Code,
    layout: HashtableLayout,
    option: CursorOption,
) -> Code {
    let t = extract_code(s, Val::Param(0));
    let packed = packed_code(c, s, layout, option);
    let pair = handed_code(c, s, layout, option).code.v(2);
    let (filled, some) = enum_value_code(c, packed, option.symbol, option.some, seq![pair]);
    let (missed, none) = enum_value_code(
        c,
        filled.i(Inst::Ret(LType::Enum(option.symbol), some)).at(t.b(4)),
        option.symbol,
        option.none,
        seq![],
    );
    missed.i(Inst::Ret(LType::Enum(option.symbol), none))
}

/// Emits `Map.next` and `Set.next`.
pub fn emit_next(c: &EmitContext, f: &mut Body, layout: HashtableLayout, option: CursorOption)
    requires
        c.payload(option.symbol, option.some.0).len() == 1,
        c.payload(option.symbol, option.none.0).len() == 0,
    ensures
        final(f)@ == next_code(c, old(f)@, layout, option),
{
    let table = extract_table_fields(f, Val::Param(0));
    let entry_block = f.cur;
    let scan = f.block("cursor_scan");
    let check = f.block("cursor_check");
    let found = f.block("cursor_found");
    let advance = f.block("cursor_advance");
    let none_bb = f.block("cursor_none");
    let nonnegative = f.ins(itest(Pred::Sge, Val::Param(1), num(0)));
    f.ins(Inst::CondBr(nonnegative, scan, none_bb));

    f.at(scan);
    let slot = f.ins(Inst::Phi(LType::I64));
    f.edge(slot, Val::Param(1), entry_block);
    let in_range = f.ins(itest(Pred::Ult, slot, table.capacity));
    f.ins(Inst::CondBr(in_range, check, none_bb));

    f.at(check);
    let state_ptr = f.ins(gep(table.states_ptr, slot));
    let state = f.ins(Inst::Load(LType::I8, state_ptr));
    let occupied = f.ins(itest8(Pred::Eq, state, num(STATE_OCCUPIED)));
    f.ins(Inst::CondBr(occupied, found, advance));

    f.at(advance);
    let next_slot = f.ins(iadd(slot, num(1)));
    f.edge(slot, next_slot, advance);
    f.ins(Inst::Br(scan));

    f.at(found);
    let entry = entry_pointer(f, table.entries_ptr, slot, layout.entry_size);
    let raw_key = f.ins(Inst::Load(value_basic_type(layout.key_ty), entry));
    let key = acquire_value(c, f, layout.key_ty, raw_key);
    let item_ty: LType;
    let item = match layout.value_ty {
        Some(value_ty) => {
            let value_ptr = value_slot(f, entry, layout.key_size);
            let raw_value = f.ins(Inst::Load(value_basic_type(value_ty), value_ptr));
            let value = acquire_value(c, f, value_ty, raw_value);
            let pair = option.item;
            item_ty = pair;
            let with_key = f.ins(
                Inst::Insert(pair, Val::Undef, value_basic_type(layout.key_ty), key, 0),
            );
            f.ins(Inst::Insert(pair, with_key, value_basic_type(value_ty), value, 1))
        },
        None => {
            item_ty = value_basic_type(layout.key_ty);
            key
        },
    };
    let next_cursor = f.ins(iadd(slot, num(1)));
    let payload_ty = LType::Tuple(option.tuple);
    let with_item = f.ins(Inst::Insert(payload_ty, Val::Undef, item_ty, item, 0));
    let payload = f.ins(Inst::Insert(payload_ty, with_item, LType::I64, next_cursor, 1));
    let some = build_single_value(c, f, option.symbol, option.some, payload);
    f.ins(Inst::Ret(LType::Enum(option.symbol), some));

    f.at(none_bb);
    let none = build_unit_value(c, f, option.symbol, option.none);
    f.ins(Inst::Ret(LType::Enum(option.symbol), none));
}

} // verus!
