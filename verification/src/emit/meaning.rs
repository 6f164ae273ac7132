//! What the instructions of a program do.

use vstd::prelude::*;
use crate::ctx::EmitContext;
use crate::emit::arithmetic::{
    about_to, arithmetic_is_exact, comes_through, comparison_compares, compares, division_is_exact, exactly,
    float_arithmetic_is_finite, float_comparison_compares, float_operation, holds_number, integer,
    is_comparison, is_integer, is_word, panics_with,
};
use crate::emit::concat::{byte_aligned_concat_code, concatenation_joins, joined};
use crate::emit::enums::{
    enum_payload_field_get_code, enum_tag_get_code, enum_value_appends, enum_value_code, field_arity,
    field_operands, struct_payload,
};
use crate::emit::frame::Scope;
use crate::emit::heap_layout::{block_base_code, NEG_HEADER};
use crate::emit::instruction::instruction_code;
use crate::emit::tuples::{tuple_get_code, tuple_stores_code};
use crate::emit::variants::{
    agree, builds, enum_part, enum_value_length, enum_value_runs, enum_value_stands, is_variant, known_by,
    lies_in, operands, parts_of_number, payload_at, payload_size, stored_parts, variant_length,
};
use crate::ir::{
    ConcatKind, EnumPayloadInit, FaultTexts, IRBinOp, IRInstruction, IRLocalId, IRSymbol, IRType, IRVariantTag,
    StructFieldInit, ValueId,
};
use crate::llvm::{a1, a2, args_from, call, call_fn, num, Callee, Code, Inst, LType, Pred, Val};
use crate::memory::{
    address_in_range, byte_limit, heap_calls, holds_bytes, in_memory, number, payload_taken, sound, spares,
    store_is_read_back, store_spares_numbers, stored, unless_starved,
};
use crate::runtime::Rt;
use crate::semantics::{
    addresses, arguments, arrives, bit, byte_count, bytes_of, calls, goes_on, loads, moves, picks, read, slots_stand,
    stores, tests, truncated_quotient, wrapped, wraps_once, Machine, Outside,
};
use crate::types::value_type;

verus! {

/// What an SSA value stands for.
pub open spec fn worth(o: Outside, m: Machine, sc: Scope, id: ValueId) -> int {
    read(o, m.results, sc.value(id)->0)
}

/// A comparison instruction binds its result to whether its left operand
/// and its right one stand in the relation.
pub proof fn comparison_instruction(
    m: Machine,
    code: Code,
    o: Outside,
    c: &EmitContext,
    s: Code,
    sc: Scope,
    dest: ValueId,
    lhs: ValueId,
    op: IRBinOp,
    operand_ty: IRType,
    rhs: ValueId,
    texts: FaultTexts,
) -> (l: Machine)
    requires
        is_comparison(op),
        is_integer(operand_ty),
        instruction_code(c, s, sc, IRInstruction::BinaryOp { dest, lhs, op, operand_ty, rhs, texts }) is Some,
        about_to(
            m,
            code,
            s,
            (instruction_code(c, s, sc, IRInstruction::BinaryOp { dest, lhs, op, operand_ty, rhs, texts })->0).0,
        ),
        is_word(operand_ty, worth(o, m, sc, lhs)),
        is_word(operand_ty, worth(o, m, sc, rhs)),
    ensures
        ({
            let (t, tc) = instruction_code(
                c,
                s,
                sc,
                IRInstruction::BinaryOp { dest, lhs, op, operand_ty, rhs, texts },
            )->0;
            let (x, y) = (integer(operand_ty, worth(o, m, sc, lhs)), integer(operand_ty, worth(o, m, sc, rhs)));
            &&& comes_through(m, code, o, s, t, l)
            &&& tc.value(dest) is Some
            &&& worth(o, l, tc, dest) == bit(compares(op, x, y))
        }),
{
    comparison_compares(m, code, o, s, op, operand_ty, sc.value(lhs)->0, sc.value(rhs)->0, &texts)
}

/// An arithmetic instruction binds its result to the exact sum,
/// difference, product, quotient or remainder of its left operand and its
/// right one, or panics.
pub proof fn arithmetic_instruction(
    m: Machine,
    code: Code,
    o: Outside,
    c: &EmitContext,
    s: Code,
    sc: Scope,
    dest: ValueId,
    lhs: ValueId,
    op: IRBinOp,
    operand_ty: IRType,
    rhs: ValueId,
    texts: FaultTexts,
) -> (l: Machine)
    requires
        !is_comparison(op),
        is_integer(operand_ty),
        instruction_code(c, s, sc, IRInstruction::BinaryOp { dest, lhs, op, operand_ty, rhs, texts }) is Some,
        about_to(
            m,
            code,
            s,
            (instruction_code(c, s, sc, IRInstruction::BinaryOp { dest, lhs, op, operand_ty, rhs, texts })->0).0,
        ),
        known_by(sc.value(lhs)->0, s.log.len() as int),
        known_by(sc.value(rhs)->0, s.log.len() as int),
        is_word(operand_ty, worth(o, m, sc, lhs)),
        is_word(operand_ty, worth(o, m, sc, rhs)),
    ensures
        ({
            let (t, tc) = instruction_code(
                c,
                s,
                sc,
                IRInstruction::BinaryOp { dest, lhs, op, operand_ty, rhs, texts },
            )->0;
            let (x, y) = (integer(operand_ty, worth(o, m, sc, lhs)), integer(operand_ty, worth(o, m, sc, rhs)));
            let divides = op == IRBinOp::Div || op == IRBinOp::Mod;
            if divides && y == 0 {
                m.comes_to(code, o, panics_with(code, texts.division_by_zero@))
            } else if !holds_number(
                operand_ty,
                if divides {
                    truncated_quotient(x, y)
                } else {
                    exactly(op, x, y)
                },
            ) {
                m.comes_to(code, o, panics_with(code, texts.overflow@))
            } else {
                &&& comes_through(m, code, o, s, t, l)
                &&& tc.value(dest) is Some
                &&& integer(operand_ty, worth(o, l, tc, dest)) == exactly(op, x, y)
            }
        }),
{
    if op == IRBinOp::Div || op == IRBinOp::Mod {
        division_is_exact(m, code, o, s, op, operand_ty, sc.value(lhs)->0, sc.value(rhs)->0, &texts)
    } else {
        arithmetic_is_exact(m, code, o, s, op, operand_ty, sc.value(lhs)->0, sc.value(rhs)->0, &texts)
    }
}

/// A float instruction binds its result to what the operation gives on its
/// left operand and its right one, where that is finite.
pub proof fn float_instruction(
    m: Machine,
    code: Code,
    o: Outside,
    c: &EmitContext,
    s: Code,
    sc: Scope,
    dest: ValueId,
    lhs: ValueId,
    op: IRBinOp,
    operand_ty: IRType,
    rhs: ValueId,
    texts: FaultTexts,
) -> (l: Machine)
    requires
        operand_ty == IRType::Float32 || operand_ty == IRType::Float64,
        instruction_code(c, s, sc, IRInstruction::BinaryOp { dest, lhs, op, operand_ty, rhs, texts }) is Some,
        about_to(
            m,
            code,
            s,
            (instruction_code(c, s, sc, IRInstruction::BinaryOp { dest, lhs, op, operand_ty, rhs, texts })->0).0,
        ),
    ensures
        ({
            let (t, tc) = instruction_code(
                c,
                s,
                sc,
                IRInstruction::BinaryOp { dest, lhs, op, operand_ty, rhs, texts },
            )->0;
            let lt = if operand_ty == IRType::Float32 { LType::F32 } else { LType::F64 };
            let (x, y) = (worth(o, m, sc, lhs), worth(o, m, sc, rhs));
            let d = (o.floats.compare)(lt, x, y);
            let z = (o.floats.bin)(float_operation(op), lt, x, y);
            let far = (o.floats.compare)(
                lt,
                (o.floats.magnitude)(lt, z),
                (o.values)(Val::Float(0x7ff0_0000_0000_0000)),
            );
            &&& tc.value(dest) is Some
            &&& if is_comparison(op) {
                comes_through(m, code, o, s, t, l) && worth(o, l, tc, dest) == bit(
                    d is Some && compares(op, d->0, 0),
                )
            } else if far is Some && far->0 < 0 {
                comes_through(m, code, o, s, t, l) && worth(o, l, tc, dest) == z
            } else {
                m.comes_to(code, o, panics_with(code, texts.non_finite@))
            }
        }),
{
    if is_comparison(op) {
        float_comparison_compares(m, code, o, s, op, operand_ty, sc.value(lhs)->0, sc.value(rhs)->0, &texts)
    } else {
        float_arithmetic_is_finite(m, code, o, s, op, operand_ty, sc.value(lhs)->0, sc.value(rhs)->0, &texts)
    }
}

/// The operands of some SSA values are theirs, in their order.
pub proof fn values_in_order(sc: Scope, ids: Seq<ValueId>, n: nat)
    requires
        n <= ids.len(),
        sc.first_values(ids, n) is Some,
    ensures
        sc.first_values(ids, n)->0.len() == n,
        forall|i: int| 0 <= i < n ==> sc.value(ids[i]) == Some(#[trigger] (sc.first_values(ids, n)->0)[i]),
    decreases n,
{
    if n > 0 {
        values_in_order(sc, ids, (n - 1) as nat);
    }
}

/// What some SSA values stand for.
pub open spec fn worths(o: Outside, m: Machine, sc: Scope, ids: Seq<ValueId>) -> Seq<int> {
    Seq::new(ids.len(), |i: int| worth(o, m, sc, ids[i]))
}

/// An enum literal is the variant that the program names, carrying the
/// operands in their order.
pub proof fn enum_literal_is_the_variant(
    m: Machine,
    code: Code,
    o: Outside,
    c: &EmitContext,
    s: Code,
    sc: Scope,
    dest: ValueId,
    ids: Vec<ValueId>,
    tag: IRVariantTag,
    ty: IRSymbol,
) -> (l: Machine)
    requires
        ({
            let inst = IRInstruction::EnumConstruct { dest, payload: EnumPayloadInit::Tuple(ids), tag, ty };
            &&& instruction_code(c, s, sc, inst) is Some
            &&& about_to(m, code, s, (instruction_code(c, s, sc, inst)->0).0)
        }),
        lies_in(c, o, ty, tag.0),
        slots_stand(o, code),
        forall|i: int|
            0 <= i < ids@.len() ==> {
                &&& known_by(sc.value(#[trigger] ids@[i])->0, s.log.len() as int)
                &&& 0 <= worth(o, m, sc, ids@[i]) < byte_limit(payload_size(c, o, ty, tag.0, i))
            },
    ensures
        ({
            let inst = IRInstruction::EnumConstruct { dest, payload: EnumPayloadInit::Tuple(ids), tag, ty };
            let (t, tc) = instruction_code(c, s, sc, inst)->0;
            &&& m.leads_to(code, o, l)
            &&& l.at == t.log.len()
            &&& l.returned is None
            &&& agree(l.results, m.results, s.log.len() as int)
            &&& tc.value(dest) is Some
            &&& is_variant(c, o, ty, worth(o, l, tc, dest), tag.0, worths(o, m, sc, ids@))
        }),
{
    let vals = sc.all_values(ids@)->0;
    values_in_order(sc, ids@, ids@.len());
    let (t, v) = enum_value_code(c, s, ty, tag, vals);
    assert forall|j: int| 0 <= j < vals.len() implies !(#[trigger] c.payload(ty, tag.0)[j] is Indirect) by {
        assert(payload_at(o, ty, tag.0, j) >= 1);
    }
    assert(t.log.len() <= usize::MAX);
    enum_value_appends(c, s, ty, tag, vals);
    assert(s.log.len() + variant_length(vals.len()) <= usize::MAX) by {
        enum_value_length(c, s, ty, tag, vals);
    }
    enum_value_stands(c, s, ty, tag, vals);
    assert(code.slots[s.slots.len() as int] == t.slots[s.slots.len() as int]);
    assert forall|k: int| 0 <= k < vals.len() implies {
        &&& known_by(#[trigger] vals[k], s.log.len() as int)
        &&& 0 <= read(o, m.results, vals[k]) < byte_limit(payload_size(c, o, ty, tag.0, k))
    } by {
        assert(sc.value(ids@[k]) == Some(vals[k]));
    }
    assert(builds(c, code, o, s, m, ty, tag, vals));
    let l = enum_value_runs(c, code, o, s, m, ty, tag, vals);
    assert(operands(o, m.results, vals) =~= worths(o, m, sc, ids@)) by {
        assert forall|i: int| 0 <= i < vals.len() implies read(o, m.results, vals[i]) == worth(
            o,
            m,
            sc,
            ids@[i],
        ) by {
            assert(sc.value(ids@[i]) == Some(vals[i]));
        }
    }
    l
}

/// A value that is spilled to its slot, as far as one of its parts.
proof fn spilled(m: Machine, code: Code, o: Outside, s: Code, ty: LType, value: Val, p: int) -> (l: Machine)
    requires
        m.faces(code, Inst::Store(ty, value, s.sv(0))),
        m.flows(code),
        m.at == s.log.len(),
        code.log.len() <= usize::MAX,
        p == (o.values)(s.sv(0)),
        in_memory(p, byte_count(o, ty) as int),
        0 <= read(o, m.results, value) < byte_limit(byte_count(o, ty)),
    ensures
        m.leads_to(code, o, l),
        l.at == s.log.len() + 1,
        l.returned is None,
        agree(l.results, m.results, s.log.len() as int),
        forall|at: int, n: nat|
            0 <= at && at + n <= byte_count(o, ty) ==> #[trigger] number(l.memory, p + at, n) == number(
                bytes_of(read(o, m.results, value), byte_count(o, ty)),
                at,
                n,
            ),
{
    stores(m, code, o, ty, value, s.sv(0));
    let l = m.step(code, o);
    let x = read(o, m.results, value);
    assert forall|at: int, n: nat| 0 <= at && at + n <= byte_count(o, ty) implies #[trigger] number(
        l.memory,
        p + at,
        n,
    ) == number(bytes_of(x, byte_count(o, ty)), at, n) by {
        stored_parts(m.memory, p, x, byte_count(o, ty), at, n);
    }
    l
}

/// The tag of an enum value is the tag of the variant that it is.
pub proof fn tag_of_a_variant(
    m: Machine,
    code: Code,
    o: Outside,
    c: &EmitContext,
    s: Code,
    sc: Scope,
    dest: ValueId,
    ty: IRSymbol,
    value: ValueId,
    tag: u8,
    carried: Seq<int>,
) -> (l: Machine)
    requires
        ({
            let inst = IRInstruction::EnumTagGet { dest, ty, value };
            &&& instruction_code(c, s, sc, inst) is Some
            &&& about_to(m, code, s, (instruction_code(c, s, sc, inst)->0).0)
        }),
        slots_stand(o, code),
        1 <= byte_count(o, LType::Enum(ty)),
        (o.offsets)(LType::Variant(ty, 0), 0) == 0,
        0 <= worth(o, m, sc, value) < byte_limit(byte_count(o, LType::Enum(ty))),
        is_variant(c, o, ty, worth(o, m, sc, value), tag, carried),
    ensures
        ({
            let (t, tc) = instruction_code(c, s, sc, IRInstruction::EnumTagGet { dest, ty, value })->0;
            &&& m.leads_to(code, o, l)
            &&& l.at == t.log.len()
            &&& l.returned is None
            &&& tc.value(dest) is Some
            &&& worth(o, l, tc, dest) == tag
        }),
{
    let v = sc.value(value)->0;
    let t = enum_tag_get_code(s, ty, v);
    let n = s.log.len() as int;
    let p = (o.values)(s.sv(0));
    assert(code.log[n] == t.log[n] && code.log[n + 1] == t.log[n + 1] && code.log[n + 2] == t.log[n + 2]);
    assert(code.slots[s.slots.len() as int] == t.slots[s.slots.len() as int]);
    let m1 = spilled(m, code, o, s, LType::Enum(ty), v, p);
    addresses(m1, code, o, LType::Variant(ty, 0), s.sv(0), 0);
    let m2 = m1.step(code, o);
    address_in_range(p);
    loads(m2, code, o, LType::I8, s.v(1));
    assert(number(m1.memory, p + 0, 1) == enum_part(o, ty, worth(o, m, sc, value), 0, 1));
    m2.step(code, o)
}

/// A payload field of an enum value is what the variant carries at that
/// place.
pub proof fn field_of_a_variant(
    m: Machine,
    code: Code,
    o: Outside,
    c: &EmitContext,
    s: Code,
    sc: Scope,
    dest: ValueId,
    payload_index: usize,
    tag: IRVariantTag,
    ty: IRSymbol,
    value: ValueId,
    carried: Seq<int>,
) -> (l: Machine)
    requires
        ({
            let inst = IRInstruction::EnumPayloadFieldGet { dest, payload_index, tag, ty, value };
            &&& instruction_code(c, s, sc, inst) is Some
            &&& about_to(m, code, s, (instruction_code(c, s, sc, inst)->0).0)
        }),
        slots_stand(o, code),
        lies_in(c, o, ty, tag.0),
        0 <= worth(o, m, sc, value) < byte_limit(byte_count(o, LType::Enum(ty))),
        is_variant(c, o, ty, worth(o, m, sc, value), tag.0, carried),
    ensures
        ({
            let inst = IRInstruction::EnumPayloadFieldGet { dest, payload_index, tag, ty, value };
            let (t, tc) = instruction_code(c, s, sc, inst)->0;
            &&& m.leads_to(code, o, l)
            &&& l.at == t.log.len()
            &&& l.returned is None
            &&& tc.value(dest) is Some
            &&& worth(o, l, tc, dest) == carried[payload_index as int]
        }),
{
    let v = sc.value(value)->0;
    let k = payload_index as int;
    let at = payload_at(o, ty, tag.0, k);
    assert(at >= 1 && !(c.payload(ty, tag.0)[k] is Indirect));
    let (t, r) = enum_payload_field_get_code(c, s, payload_index, tag, ty, v);
    let n = s.log.len() as int;
    let p = (o.values)(s.sv(0));
    assert(code.log[n] == t.log[n] && code.log[n + 1] == t.log[n + 1] && code.log[n + 2] == t.log[n + 2]
        && code.log[n + 3] == t.log[n + 3]);
    assert(code.slots[s.slots.len() as int] == t.slots[s.slots.len() as int]);
    let m1 = spilled(m, code, o, s, LType::Enum(ty), v, p);
    addresses(m1, code, o, LType::Variant(ty, tag.0), s.sv(0), 2);
    let m2 = m1.step(code, o);
    address_in_range(p + (o.offsets)(LType::Variant(ty, tag.0), 2));
    addresses(m2, code, o, LType::Payload(ty, tag.0), s.v(1), payload_index);
    let m3 = m2.step(code, o);
    address_in_range(p + at);
    loads(m3, code, o, value_type(c.payload(ty, tag.0)[k]), s.v(2));
    assert(number(m1.memory, p + at, payload_size(c, o, ty, tag.0, k)) == enum_part(
        o,
        ty,
        worth(o, m, sc, value),
        at,
        payload_size(c, o, ty, tag.0, k),
    ));
    m3.step(code, o)
}

/// The elements of a tuple lie in it, apart.
pub open spec fn tuple_fits(c: &EmitContext, o: Outside, tuple: usize) -> bool {
    let ty = LType::Tuple(tuple);
    let slots = c.elements(tuple);
    &&& byte_count(o, ty) <= u64::MAX
    &&& slots.len() <= usize::MAX
    &&& forall|k: int|
        0 <= k < slots.len() ==> 0 <= #[trigger] (o.offsets)(ty, k as usize) && (o.offsets)(ty, k as usize)
            + byte_count(o, value_type(slots[k])) <= byte_count(o, ty)
    &&& forall|j: int, k: int|
        0 <= j < k < slots.len() ==> #[trigger] (o.offsets)(ty, j as usize) + byte_count(
            o,
            value_type(slots[j]),
        ) <= #[trigger] (o.offsets)(ty, k as usize)
}

/// An element of a tuple value.
pub open spec fn element_of(c: &EmitContext, o: Outside, tuple: usize, x: int, k: int) -> int {
    number(
        bytes_of(x, byte_count(o, LType::Tuple(tuple))),
        (o.offsets)(LType::Tuple(tuple), k as usize),
        byte_count(o, value_type(c.elements(tuple)[k])),
    )
}

/// Taking an element of a tuple gives the one at that place.
pub proof fn tuple_get_takes_the_element(
    m: Machine,
    code: Code,
    o: Outside,
    c: &EmitContext,
    s: Code,
    sc: Scope,
    base: ValueId,
    dest: ValueId,
    index: usize,
    tuple: usize,
) -> (l: Machine)
    requires
        ({
            let inst = IRInstruction::TupleGet { base, dest, index, tuple };
            &&& instruction_code(c, s, sc, inst) is Some
            &&& about_to(m, code, s, (instruction_code(c, s, sc, inst)->0).0)
        }),
        slots_stand(o, code),
        tuple_fits(c, o, tuple),
        0 <= worth(o, m, sc, base) < byte_limit(byte_count(o, LType::Tuple(tuple))),
    ensures
        ({
            let (t, tc) = instruction_code(c, s, sc, IRInstruction::TupleGet { base, dest, index, tuple })->0;
            &&& m.leads_to(code, o, l)
            &&& l.at == t.log.len()
            &&& l.returned is None
            &&& tc.value(dest) is Some
            &&& worth(o, l, tc, dest) == element_of(c, o, tuple, worth(o, m, sc, base), index as int)
        }),
{
    let v = sc.value(base)->0;
    let ty = LType::Tuple(tuple);
    let et = value_type(c.elements(tuple)[index as int]);
    let (t, r) = tuple_get_code(c, s, v, index, tuple)->0;
    let n = s.log.len() as int;
    let p = (o.values)(s.sv(0));
    let at = (o.offsets)(ty, (index as int) as usize);
    assert(0 <= at);
    assert(code.log[n] == t.log[n] && code.log[n + 1] == t.log[n + 1] && code.log[n + 2] == t.log[n + 2]);
    assert(code.slots[s.slots.len() as int] == t.slots[s.slots.len() as int]);
    let m1 = spilled(m, code, o, s, ty, v, p);
    addresses(m1, code, o, ty, s.sv(0), index);
    let m2 = m1.step(code, o);
    address_in_range(p + at);
    loads(m2, code, o, et, s.v(1));
    assert(number(m1.memory, p + at, byte_count(o, et)) == element_of(
        c,
        o,
        tuple,
        worth(o, m, sc, base),
        index as int,
    ));
    m2.step(code, o)
}

proof fn elements_are_stored(
    m: Machine,
    code: Code,
    o: Outside,
    c: &EmitContext,
    s: Code,
    tuple: usize,
    p: int,
    slot: Val,
    vals: Seq<Val>,
    k: nat,
) -> (l: Machine)
    requires
        k <= vals.len() <= c.elements(tuple).len(),
        tuple_fits(c, o, tuple),
        in_memory(p, byte_count(o, LType::Tuple(tuple)) as int),
        slot is Slot,
        p == (o.values)(slot),
        ({
            let t = tuple_stores_code(c, s, tuple, slot, vals, k);
            &&& t.log.len() < code.log.len() <= usize::MAX
            &&& forall|i: int| 0 <= i < t.log.len() ==> #[trigger] code.log[i] == t.log[i]
            &&& code.log[t.log.len() as int].block == s.cur
        }),
        m.at == s.log.len(),
        m.returned is None,
        forall|i: int|
            0 <= i < k ==> {
                &&& known_by(#[trigger] vals[i], s.log.len() as int)
                &&& 0 <= read(o, m.results, vals[i]) < byte_limit(
                    byte_count(o, value_type(c.elements(tuple)[i])),
                )
            },
    ensures
        m.leads_to(code, o, l),
        ({
            let t = tuple_stores_code(c, s, tuple, slot, vals, k);
            &&& t == Code { log: t.log, ..s }
            &&& t.log.len() == s.log.len() + 2 * k
            &&& l.at == t.log.len()
            &&& l.returned is None
            &&& agree(l.results, m.results, s.log.len() as int)
            &&& forall|i: int|
                0 <= i < k ==> number(
                    l.memory,
                    p + (o.offsets)(LType::Tuple(tuple), i as usize),
                    byte_count(o, value_type(c.elements(tuple)[i])),
                ) == read(o, m.results, #[trigger] vals[i])
        }),
    decreases k,
{
    if k == 0 {
        m
    } else {
        let ty = LType::Tuple(tuple);
        let t = tuple_stores_code(c, s, tuple, slot, vals, k);
        let u = tuple_stores_code(c, s, tuple, slot, vals, (k - 1) as nat);
        let et = value_type(c.elements(tuple)[k - 1]);
        let n = u.log.len() as int;
        tuple_stores_stay(c, s, tuple, slot, vals, (k - 1) as nat);
        assert(t == u.i(Inst::Field(ty, slot, (k - 1) as usize)).i(Inst::Store(et, vals[k - 1], u.v(0))));
        assert(code.log[n] == t.log[n] && code.log[n + 1] == t.log[n + 1]);
        assert forall|i: int| 0 <= i < u.log.len() implies #[trigger] code.log[i] == u.log[i] by {
            assert(code.log[i] == t.log[i]);
        }
        let m1 = elements_are_stored(m, code, o, c, s, tuple, p, slot, vals, (k - 1) as nat);
        addresses(m1, code, o, ty, slot, (k - 1) as usize);
        let m2 = m1.step(code, o);
        let at = (o.offsets)(ty, (k - 1) as usize);
        assert(0 <= at && at + byte_count(o, et) <= byte_count(o, ty));
        address_in_range(p + at);
        let v = vals[k - 1];
        let x = read(o, m.results, v);
        assert(known_by(v, s.log.len() as int));
        assert(read(o, m2.results, v) == x) by {
            if let Val::At(j) = v {
                assert(m1.results[j] == m.results[j]);
            }
        }
        stores(m2, code, o, et, v, u.v(0));
        let l = m2.step(code, o);
        assert(l.memory == stored(m1.memory, p + at, x, byte_count(o, et)));
        store_is_read_back(m1.memory, p + at, x, byte_count(o, et));
        assert forall|i: int| 0 <= i < k implies number(
            l.memory,
            p + (o.offsets)(ty, i as usize),
            byte_count(o, value_type(c.elements(tuple)[i])),
        ) == read(o, m.results, #[trigger] vals[i]) by {
            if i < k - 1 {
                assert((o.offsets)(ty, i as usize) + byte_count(o, value_type(c.elements(tuple)[i])) <= (
                o.offsets)(ty, (k - 1) as usize));
                assert(0 <= (o.offsets)(ty, i as usize));
                store_spares_numbers(
                    m1.memory,
                    p + at,
                    x,
                    byte_count(o, et),
                    p + (o.offsets)(ty, i as usize),
                    byte_count(o, value_type(c.elements(tuple)[i])),
                );
            }
        }
        assert forall|j: usize| j < s.log.len() implies #[trigger] l.results[j] == m.results[j] by {
            assert(m1.results[j] == m.results[j]);
        }
        l
    }
}

proof fn tuple_stores_stay(c: &EmitContext, s: Code, tuple: usize, slot: Val, vals: Seq<Val>, k: nat)
    ensures
        ({
            let t = tuple_stores_code(c, s, tuple, slot, vals, k);
            t == Code { log: t.log, ..s } && t.log.len() == s.log.len() + 2 * k
        }),
    decreases k,
{
    if k > 0 {
        tuple_stores_stay(c, s, tuple, slot, vals, (k - 1) as nat);
    }
}

/// A tuple literal holds its elements in their order.
pub proof fn tuple_literal_holds_its_elements(
    m: Machine,
    code: Code,
    o: Outside,
    c: &EmitContext,
    s: Code,
    sc: Scope,
    dest: ValueId,
    elements: Vec<ValueId>,
    tuple: usize,
) -> (l: Machine)
    requires
        ({
            let inst = IRInstruction::TupleInit { dest, elements, tuple };
            &&& instruction_code(c, s, sc, inst) is Some
            &&& about_to(m, code, s, (instruction_code(c, s, sc, inst)->0).0)
        }),
        slots_stand(o, code),
        tuple_fits(c, o, tuple),
        forall|i: int|
            0 <= i < elements@.len() ==> {
                &&& known_by(sc.value(#[trigger] elements@[i])->0, s.log.len() as int)
                &&& 0 <= worth(o, m, sc, elements@[i]) < byte_limit(
                    byte_count(o, value_type(c.elements(tuple)[i])),
                )
            },
    ensures
        ({
            let (t, tc) = instruction_code(c, s, sc, IRInstruction::TupleInit { dest, elements, tuple })->0;
            &&& m.leads_to(code, o, l)
            &&& l.at == t.log.len()
            &&& l.returned is None
            &&& tc.value(dest) is Some
            &&& forall|i: int|
                0 <= i < elements@.len() ==> element_of(c, o, tuple, worth(o, l, tc, dest), i) == worth(
                    o,
                    m,
                    sc,
                    #[trigger] elements@[i],
                )
        }),
{
    let vals = sc.all_values(elements@)->0;
    values_in_order(sc, elements@, elements@.len());
    let ty = LType::Tuple(tuple);
    let b = s.slot(ty);
    let slot = s.sv(0);
    let p = (o.values)(slot);
    let u = tuple_stores_code(c, b, tuple, slot, vals, vals.len());
    let t = u.i(Inst::Load(ty, slot));
    tuple_stores_stay(c, b, tuple, slot, vals, vals.len());
    assert(code.log[u.log.len() as int] == t.log[u.log.len() as int]);
    assert forall|i: int| 0 <= i < u.log.len() implies #[trigger] code.log[i] == u.log[i] by {
        assert(code.log[i] == t.log[i]);
    }
    assert(code.slots[s.slots.len() as int] == t.slots[s.slots.len() as int]);
    assert forall|i: int| 0 <= i < vals.len() implies {
        &&& known_by(#[trigger] vals[i], b.log.len() as int)
        &&& 0 <= read(o, m.results, vals[i]) < byte_limit(byte_count(o, value_type(c.elements(tuple)[i])))
    } by {
        assert(sc.value(elements@[i]) == Some(vals[i]));
    }
    let k = elements_are_stored(m, code, o, c, b, tuple, p, slot, vals, vals.len());
    loads(k, code, o, ty, slot);
    let l = k.step(code, o);
    let tc = (instruction_code(c, s, sc, IRInstruction::TupleInit { dest, elements, tuple })->0).1;
    let x = number(k.memory, p, byte_count(o, ty));
    assert(worth(o, l, tc, dest) == x);
    assert forall|i: int| 0 <= i < elements@.len() implies element_of(c, o, tuple, x, i) == worth(
        o,
        m,
        sc,
        #[trigger] elements@[i],
    ) by {
        assert(sc.value(elements@[i]) == Some(vals[i]));
        assert(0 <= (o.offsets)(ty, i as usize));
        parts_of_number(
            k.memory,
            p,
            byte_count(o, ty),
            (o.offsets)(ty, i as usize),
            byte_count(o, value_type(c.elements(tuple)[i])),
        );
    }
    l
}

/// A call hands over its arguments in their order, and what the callee
/// gives back is its result.
pub proof fn call_hands_over_its_arguments(
    m: Machine,
    code: Code,
    o: Outside,
    c: &EmitContext,
    s: Code,
    sc: Scope,
    args: Vec<ValueId>,
    callee: IRSymbol,
    dest: ValueId,
) -> (l: Machine)
    requires
        ({
            let inst = IRInstruction::Call { args, callee, dest };
            &&& instruction_code(c, s, sc, inst) is Some
            &&& about_to(m, code, s, (instruction_code(c, s, sc, inst)->0).0)
            &&& c.function_of(callee) matches Some(k) && !c.declared@[k as int].foreign_float
                && c.declared@[k as int].ret != LType::Void
        }),
    ensures
        ({
            let (t, tc) = instruction_code(c, s, sc, IRInstruction::Call { args, callee, dest })->0;
            let (x, after) = (o.calls)(
                Callee::Function(c.function_of(callee)->0),
                worths(o, m, sc, args@),
                m.memory,
            );
            &&& m.leads_to(code, o, l)
            &&& l.at == t.log.len()
            &&& l.returned is None
            &&& l.memory == after
            &&& tc.value(dest) is Some
            &&& worth(o, l, tc, dest) == x
        }),
{
    let k = c.function_of(callee)->0;
    let vals = sc.all_values(args@)->0;
    values_in_order(sc, args@, args@.len());
    let t = s.i(call_fn(k, args_from(vals, 0)));
    assert(code.log[s.log.len() as int] == t.log[s.log.len() as int]);
    arguments_in_order(o, m.results, vals, 0);
    assert(arguments(o, m.results, args_from(vals, 0)) =~= worths(o, m, sc, args@)) by {
        assert forall|i: int| 0 <= i < vals.len() implies read(o, m.results, vals[i]) == worth(
            o,
            m,
            sc,
            args@[i],
        ) by {
            assert(sc.value(args@[i]) == Some(vals[i]));
        }
    }
    calls(m, code, o, Callee::Function(k), args_from(vals, 0));
    m.step(code, o)
}

/// Arguments that are made of values stand for them in their order.
pub proof fn arguments_in_order(o: Outside, results: Map<usize, int>, vals: Seq<Val>, i: nat)
    requires
        i <= vals.len(),
    ensures
        arguments(o, results, args_from(vals, i)) == Seq::new(
            (vals.len() - i) as nat,
            |j: int| read(o, results, vals[i + j]),
        ),
    decreases vals.len() - i,
{
    let all = Seq::new((vals.len() - i) as nat, |j: int| read(o, results, vals[i + j]));
    if i < vals.len() {
        arguments_in_order(o, results, vals, i + 1);
        let rest = Seq::new((vals.len() - (i + 1)) as nat, |j: int| read(o, results, vals[i + 1 + j]));
        assert(all =~= seq![read(o, results, vals[i as int])] + rest);
    } else {
        assert(all =~= Seq::empty());
    }
}

/// A local that is written is read back.
pub proof fn local_is_read_back(
    m: Machine,
    code: Code,
    o: Outside,
    c: &EmitContext,
    s: Code,
    sc: Scope,
    local: IRLocalId,
    ty: IRType,
    value: ValueId,
    dest: ValueId,
) -> (l: Machine)
    requires
        ({
            let write = IRInstruction::LocalWrite { local, ty, value };
            let read_it = IRInstruction::LocalRead { dest, local, ty };
            &&& instruction_code(c, s, sc, write) matches Some((t, tc)) && instruction_code(c, t, tc, read_it)
                matches Some((u, uc)) && about_to(m, code, s, u)
        }),
        sc.local(local)->0 is Slot,
        in_memory((o.values)(sc.local(local)->0), byte_count(o, value_type(ty)) as int),
        0 <= worth(o, m, sc, value) < byte_limit(byte_count(o, value_type(ty))),
    ensures
        ({
            let (t, tc) = instruction_code(c, s, sc, IRInstruction::LocalWrite { local, ty, value })->0;
            let (u, uc) = instruction_code(c, t, tc, IRInstruction::LocalRead { dest, local, ty })->0;
            &&& m.leads_to(code, o, l)
            &&& l.at == u.log.len()
            &&& l.returned is None
            &&& uc.value(dest) is Some
            &&& worth(o, l, uc, dest) == worth(o, m, sc, value)
        }),
{
    let lt = value_type(ty);
    let (v, slot) = (sc.value(value)->0, sc.local(local)->0);
    let n = s.log.len() as int;
    let u = s.i(Inst::Store(lt, v, slot)).i(Inst::Load(lt, slot));
    assert(code.log[n] == u.log[n] && code.log[n + 1] == u.log[n + 1]);
    stores(m, code, o, lt, v, slot);
    let m1 = m.step(code, o);
    store_is_read_back(m.memory, (o.values)(slot), worth(o, m, sc, value), byte_count(o, lt));
    loads(m1, code, o, lt, slot);
    m1.step(code, o)
}

proof fn operands_by_index(sc: Scope, fields: Seq<StructFieldInit>, n: nat, k: int)
    requires
        0 <= k < n <= fields.len(),
        field_operands(sc, fields, n) is Some,
    ensures
        ({
            let slots = field_operands(sc, fields, n)->0;
            &&& slots.contains_key(fields[k].index)
            &&& sc.value(fields[k].value) == Some(slots[fields[k].index])
            &&& fields[k].index < field_arity(fields, n)
        }),
    decreases n,
{
    if k < n - 1 {
        operands_by_index(sc, fields, (n - 1) as nat, k);
    }
}

/// An enum literal with named fields carries each of them at the place
/// that the program gives for it, whatever order they are written in.
pub proof fn named_fields_go_to_their_places(sc: Scope, fields: Seq<StructFieldInit>, k: int)
    requires
        0 <= k < fields.len(),
        struct_payload(sc, fields) is Some,
    ensures
        ({
            let vals = struct_payload(sc, fields)->0;
            &&& fields[k].index < vals.len()
            &&& sc.value(fields[k].value) == Some(vals[fields[k].index as int])
        }),
{
    operands_by_index(sc, fields, fields.len(), k);
}

/// A concatenation of strings or binaries gives a fresh payload with the
/// bytes of its left operand and then those of its right one.
pub proof fn concatenation_instruction(
    m: Machine,
    code: Code,
    o: Outside,
    c: &EmitContext,
    s: Code,
    sc: Scope,
    dest: ValueId,
    kind: ConcatKind,
    lhs: ValueId,
    rhs: ValueId,
    a: Seq<u8>,
    b: Seq<u8>,
)
    requires
        kind != ConcatKind::Bits,
        ({
            let inst = IRInstruction::Concat { dest, kind, lhs, rhs };
            &&& instruction_code(c, s, sc, inst) is Some
            &&& about_to(m, code, s, (instruction_code(c, s, sc, inst)->0).0)
        }),
        s.defines(sc.value(lhs)->0),
        s.defines(sc.value(rhs)->0),
        payload_taken(m.memory, worth(o, m, sc, lhs), a.len() as int),
        payload_taken(m.memory, worth(o, m, sc, rhs), b.len() as int),
        holds_bytes(m.memory, worth(o, m, sc, lhs) as u64, a),
        holds_bytes(m.memory, worth(o, m, sc, rhs) as u64, b),
        8 * (a.len() + b.len()) <= u64::MAX,
        heap_calls(o),
        sound(m.memory),
    ensures
        ({
            let (t, tc) = instruction_code(c, s, sc, IRInstruction::Concat { dest, kind, lhs, rhs })->0;
            &&& tc.value(dest) is Some
            &&& m.comes_to(
                code,
                o,
                unless_starved(
                    code,
                    |l: Machine|
                        l.at == t.log.len() && holds_bytes(l.memory, worth(o, l, tc, dest) as u64, a + b)
                            && spares(m.memory, l.memory),
                ),
            )
        }),
{
    let (x, y) = (sc.value(lhs)->0, sc.value(rhs)->0);
    let with_nul = kind == ConcatKind::String;
    let f = byte_aligned_concat_code(s, x, y, with_nul);
    let (t, tc) = instruction_code(c, s, sc, IRInstruction::Concat { dest, kind, lhs, rhs })->0;
    assert(t == f);
    assert(f.log =~= code.log.subrange(0, f.log.len() as int));
    assert(f.cur == s.cur);
    concatenation_joins(s, code, o, m, x, y, with_nul, a, b);
    let half = joined(s, code, f.log.len(), a + b, with_nul, m.memory);
    let goal = unless_starved(
        code,
        |l: Machine|
            l.at == t.log.len() && holds_bytes(l.memory, worth(o, l, tc, dest) as u64, a + b) && spares(
                m.memory,
                l.memory,
            ),
    );
    assert forall|l: Machine| half(l) implies #[trigger] l.comes_to(code, o, goal) by {
        arrives(l, code, o, goal);
    }
    goes_on(m, code, o, half, goal);
}

/// Where the block of a payload begins, null for a null payload.
pub open spec fn block_of(p: int) -> int {
    if p == 0 {
        0
    } else {
        wrapped(LType::I64, p - 16) as int
    }
}

proof fn count_is_changed(m: Machine, code: Code, o: Outside, s: Code, value: Val, rt: Rt) -> (l: Machine)
    requires
        ({
            let t = block_base_code(s, value).i(call(rt, a1(s.v(2))));
            about_to(m, code, s, t)
        }),
        known_by(value, s.log.len() as int),
        0 <= read(o, m.results, value) <= u64::MAX,
    ensures
        m.leads_to(code, o, l),
        l.at == s.log.len() + 4,
        l.returned is None,
        agree(l.results, m.results, s.log.len() as int),
        l.memory == (o.calls)(Callee::Runtime(rt), seq![block_of(read(o, m.results, value))], m.memory).1,
{
    let n = s.log.len() as int;
    let t = block_base_code(s, value).i(call(rt, a1(s.v(2))));
    let p = read(o, m.results, value);
    assert(code.log[n] == t.log[n] && code.log[n + 1] == t.log[n + 1] && code.log[n + 2] == t.log[n + 2]
        && code.log[n + 3] == t.log[n + 3]);
    moves(m, code, o, value, num(NEG_HEADER));
    let m1 = m.step(code, o);
    assert(NEG_HEADER == 0x1_0000_0000_0000_0000 - 16);
    wraps_once(p - 16);
    assert(p + NEG_HEADER == p - 16 + 0x1_0000_0000_0000_0000);
    assert(read(o, m1.results, value) == p);
    tests(m1, code, o, Pred::Eq, LType::Ptr, value, Val::Null);
    let m2 = m1.step(code, o);
    picks(m2, code, o, LType::Ptr, s.v(1), Val::Null, s.v(0));
    let m3 = m2.step(code, o);
    assert(arguments(o, m3.results, a1(s.v(2))) =~= seq![block_of(p)]) by {
        reveal_with_fuel(arguments, 3);
    }
    calls(m3, code, o, Callee::Runtime(rt), a1(s.v(2)));
    m3.step(code, o)
}

/// A clone of a string or binary is the same payload with one more owner.
pub proof fn clone_adds_an_owner(
    m: Machine,
    code: Code,
    o: Outside,
    c: &EmitContext,
    s: Code,
    sc: Scope,
    dest: ValueId,
    source: ValueId,
    ty: IRType,
) -> (l: Machine)
    requires
        ty == IRType::String || ty == IRType::Binary || ty == IRType::Bits,
        ({
            let inst = IRInstruction::Clone { dest, source, ty };
            &&& instruction_code(c, s, sc, inst) is Some
            &&& about_to(m, code, s, (instruction_code(c, s, sc, inst)->0).0)
        }),
        known_by(sc.value(source)->0, s.log.len() as int),
        0 <= worth(o, m, sc, source) <= u64::MAX,
    ensures
        ({
            let (t, tc) = instruction_code(c, s, sc, IRInstruction::Clone { dest, source, ty })->0;
            &&& m.leads_to(code, o, l)
            &&& l.at == t.log.len()
            &&& tc.value(dest) is Some
            &&& worth(o, l, tc, dest) == worth(o, m, sc, source)
            &&& l.memory == (o.calls)(
                Callee::Runtime(Rt::RcInc),
                seq![block_of(worth(o, m, sc, source))],
                m.memory,
            ).1
        }),
{
    count_is_changed(m, code, o, s, sc.value(source)->0, Rt::RcInc)
}

/// A drop of a string or binary takes one owner from its payload.
pub proof fn drop_takes_an_owner(
    m: Machine,
    code: Code,
    o: Outside,
    c: &EmitContext,
    s: Code,
    sc: Scope,
    ty: IRType,
    value: ValueId,
) -> (l: Machine)
    requires
        ty == IRType::String || ty == IRType::Binary || ty == IRType::Bits,
        ({
            let inst = IRInstruction::DropValue { ty, value };
            &&& instruction_code(c, s, sc, inst) is Some
            &&& about_to(m, code, s, (instruction_code(c, s, sc, inst)->0).0)
        }),
        known_by(sc.value(value)->0, s.log.len() as int),
        0 <= worth(o, m, sc, value) <= u64::MAX,
    ensures
        m.leads_to(code, o, l),
        l.at == s.log.len() + 4,
        l.memory == (o.calls)(
            Callee::Runtime(Rt::RcDec),
            seq![block_of(worth(o, m, sc, value))],
            m.memory,
        ).1,
{
    count_is_changed(m, code, o, s, sc.value(value)->0, Rt::RcDec)
}

/// A concatenation of bits is what the runtime makes of its left operand
/// and its right one.
pub proof fn bits_are_joined_by_the_runtime(
    m: Machine,
    code: Code,
    o: Outside,
    c: &EmitContext,
    s: Code,
    sc: Scope,
    dest: ValueId,
    lhs: ValueId,
    rhs: ValueId,
) -> (l: Machine)
    requires
        ({
            let inst = IRInstruction::Concat { dest, kind: ConcatKind::Bits, lhs, rhs };
            &&& instruction_code(c, s, sc, inst) is Some
            &&& about_to(m, code, s, (instruction_code(c, s, sc, inst)->0).0)
        }),
    ensures
        ({
            let inst = IRInstruction::Concat { dest, kind: ConcatKind::Bits, lhs, rhs };
            let (t, tc) = instruction_code(c, s, sc, inst)->0;
            let (x, after) = (o.calls)(
                Callee::Runtime(Rt::ConcatBits),
                seq![worth(o, m, sc, lhs), worth(o, m, sc, rhs)],
                m.memory,
            );
            &&& m.leads_to(code, o, l)
            &&& l.at == t.log.len()
            &&& l.memory == after
            &&& tc.value(dest) is Some
            &&& worth(o, l, tc, dest) == x
        }),
{
    let args = a2(sc.value(lhs)->0, sc.value(rhs)->0);
    let t = s.i(call(Rt::ConcatBits, args));
    assert(code.log[s.log.len() as int] == t.log[s.log.len() as int]);
    assert(arguments(o, m.results, args) =~= seq![worth(o, m, sc, lhs), worth(o, m, sc, rhs)]) by {
        reveal_with_fuel(arguments, 4);
    }
    calls(m, code, o, Callee::Runtime(Rt::ConcatBits), args);
    m.step(code, o)
}

/// A deep copy of a string or binary is what the runtime copies.
pub proof fn deep_copy_is_the_runtimes(
    m: Machine,
    code: Code,
    o: Outside,
    c: &EmitContext,
    s: Code,
    sc: Scope,
    dest: ValueId,
    source: ValueId,
    ty: IRType,
) -> (l: Machine)
    requires
        ty == IRType::String || ty == IRType::Binary || ty == IRType::Bits,
        ({
            let inst = IRInstruction::DeepCopy { dest, source, ty };
            &&& instruction_code(c, s, sc, inst) is Some
            &&& about_to(m, code, s, (instruction_code(c, s, sc, inst)->0).0)
        }),
    ensures
        ({
            let (t, tc) = instruction_code(c, s, sc, IRInstruction::DeepCopy { dest, source, ty })->0;
            let (x, after) = (o.calls)(
                Callee::Runtime(Rt::HeapDeepCopy),
                seq![worth(o, m, sc, source)],
                m.memory,
            );
            &&& m.leads_to(code, o, l)
            &&& l.at == t.log.len()
            &&& l.memory == after
            &&& tc.value(dest) is Some
            &&& worth(o, l, tc, dest) == x
        }),
{
    let args = a1(sc.value(source)->0);
    let t = s.i(call(Rt::HeapDeepCopy, args));
    assert(code.log[s.log.len() as int] == t.log[s.log.len() as int]);
    assert(arguments(o, m.results, args) =~= seq![worth(o, m, sc, source)]) by {
        reveal_with_fuel(arguments, 3);
    }
    calls(m, code, o, Callee::Runtime(Rt::HeapDeepCopy), args);
    m.step(code, o)
}

} // verus!
