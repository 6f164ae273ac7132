//! What `List.pop` gives back.

use vstd::prelude::*;
use crate::ctx::EmitContext;
use crate::emit::enums::{boxed_code, enum_value_code, write_fields_code};
use crate::emit::heap_layout::{HEADER_BYTES, LENGTH_OFFSET};
use crate::intrinsics::acquiring::{
    acquire_value_runs, acquires, all_copied, all_made_are_copied, all_made_earlier, behind, clone_fits, clones, copied, frame, in_frame,
    keeps, made, made_is_copied, made_later, news_are_apart, off_frame, slot_at, slot_size,
    stands_at, stored_keeps_shape, walking,
};
use crate::intrinsics::element::{acquire_value_code, heap_owner, Walk};
use crate::intrinsics::hashtable::read::{OPTION_NONE, OPTION_SOME};
use crate::intrinsics::list::{
    append_code, copy_buffer_code, list_struct_code, pop_code, ret_pop_code, size_of,
};
use crate::intrinsics::list_values::{
    copy_runs, copy_shape, frame_stays, fresh_is_off_frame, holds_items, is_list, item, item_fits, keeps_again,
    list_param, list_stays, log_begins_further, part_of_items, size_fits,
};
use crate::ir::{IRSymbol, IRType, IRVariantTag};
use crate::llvm::{
    a1, call, gep, gep_in, iadd, imul, isub, itest, num, start, BinOp, Callee, Code, Entry, Inst, LType,
    Pred, Val,
};
use crate::memory::{
    address_in_range, all_taken, byte, byte_limit, byte_limit_is_power, heap_calls, in_memory,
    malloc_call, none_taken, number, number_of_bytes, sound, spares, starved, store_is_read_back,
    store_spares_others, stored, unless_starved, Memory,
};
use crate::runtime::Rt;
use crate::semantics::{
    addresses, arguments, arrives, beginning_stands, begins_as, booted, branches, byte_count, calls,
    combines, extracts, inserts, loads, moves, multiplies, read, seek_finds, stores, tests, tidy,
    Machine, Outside,
};
use crate::types::value_type;

verus! {

/// Where the payload of a variant lies in an enum.
pub open spec fn payload_offset(o: Outside, ty: IRSymbol, tag: IRVariantTag) -> int {
    (o.offsets)(LType::Variant(ty, tag.0), 2) + (o.offsets)(LType::Payload(ty, tag.0), 0)
}

/// The tag of a variant and a payload of `n` bytes lie in an enum, apart.
pub open spec fn variant_fits(o: Outside, ty: IRSymbol, tag: IRVariantTag, n: nat) -> bool {
    let size = byte_count(o, LType::Enum(ty));
    let at = (o.offsets)(LType::Variant(ty, tag.0), 0);
    let p = payload_offset(o, ty, tag);
    &&& 0 <= at < size
    &&& 0 <= (o.offsets)(LType::Variant(ty, tag.0), 2)
    &&& 0 <= (o.offsets)(LType::Payload(ty, tag.0), 0)
    &&& p + n <= size
    &&& at < p || p + n <= at
}

/// The bytes at `p` are those of a variant.
pub open spec fn holds_variant(
    o: Outside,
    memory: Memory,
    p: int,
    ty: IRSymbol,
    tag: IRVariantTag,
    payload: Option<(nat, int)>,
) -> bool {
    &&& byte(memory, p + (o.offsets)(LType::Variant(ty, tag.0), 0)) == tag.0
    &&& payload matches Some((n, x)) ==> number(memory, p + payload_offset(o, ty, tag), n) == x
}

/// A value of an enum is one of a variant: its bytes are.
pub open spec fn is_variant(
    o: Outside,
    x: int,
    ty: IRSymbol,
    tag: IRVariantTag,
    payload: Option<(nat, int)>,
) -> bool {
    exists|memory: Memory, p: int| #[trigger]
        holds_variant(o, memory, p, ty, tag, payload) && x == number(
            memory,
            p,
            byte_count(o, LType::Enum(ty)),
        )
}

/// A store in a stack slot changes nothing but the slot.
proof fn slot_store_keeps(
    o: Outside,
    slots: Seq<LType>,
    memory: Memory,
    k: usize,
    at: int,
    x: int,
    n: nat,
)
    requires
        frame(o, slots, memory),
        sound(memory),
        k < slots.len(),
        slot_at(o, k) <= at,
        at + n <= slot_at(o, k) + slot_size(o, slots, k),
    ensures
        keeps(o, slots, memory, stored(memory, at, x, n)),
        frame(o, slots, stored(memory, at, x, n)),
{
    let after = stored(memory, at, x, n);
    stored_keeps_shape(memory, at, x, n);
    assert forall|q: int| #[trigger] memory.taken.contains(q) implies in_frame(o, slots, q) || byte(
        after,
        q,
    ) == byte(memory, q) by {
        if at <= q < at + n {
            assert(slot_at(o, k) <= q);
        } else {
            store_spares_others(memory, at, x, n, q);
        }
    }
    frame_stays(o, slots, memory, after);
}

/// The payload of a variant goes to a box.
pub open spec fn in_box(c: &EmitContext, ty: IRSymbol, tag: IRVariantTag) -> bool {
    c.payload(ty, tag.0)[0] is Indirect
}

/// How many instructions box the payload of a variant.
spec fn box_len(c: &EmitContext, ty: IRSymbol, tag: IRVariantTag, vals: nat) -> int {
    if vals == 1 && in_box(c, ty, tag) {
        7
    } else {
        0
    }
}

/// What is boxed, as recorded from place `n` on.
spec fn box_stands(code: Code, n: int, block: usize, size: u64, ty: LType, value: Val) -> bool {
    let at = |k: int| Val::At((n + k) as usize);
    let is = |k: int, inst: Inst| code.log[n + k] == Entry { block: block, inst: inst };
    &&& n + 7 < code.log.len() <= usize::MAX
    &&& is(0, iadd(num(size), num(HEADER_BYTES)))
    &&& is(1, call(Rt::Malloc, a1(at(0))))
    &&& is(2, Inst::Store(LType::I64, num(1), at(1)))
    &&& is(3, gep_in(at(1), num(LENGTH_OFFSET)))
    &&& is(4, Inst::Store(LType::I64, num(size), at(3)))
    &&& is(5, gep_in(at(1), num(HEADER_BYTES)))
    &&& is(6, Inst::Store(ty, value, at(5)))
    &&& code.log[n + 7].block == block
}

/// A store in a block of one's own spares what was taken before.
proof fn box_store_spares(
    before: Memory,
    now: Memory,
    p: int,
    room: int,
    at: int,
    x: int,
    n: nat,
)
    requires
        spares(before, now),
        sound(before),
        sound(now),
        none_taken(before, p, room),
        in_memory(p, room),
        all_taken(now, p, room),
        p <= at,
        at + n <= p + room,
    ensures
        spares(before, stored(now, at, x, n)),
        sound(stored(now, at, x, n)),
        all_taken(stored(now, at, x, n), p, room),
{
    stored_keeps_shape(now, at, x, n);
    assert forall|q: int| #[trigger] before.taken.contains(q) implies stored(now, at, x, n).taken.contains(
        q,
    ) && byte(stored(now, at, x, n), q) == byte(before, q) by {
        store_spares_others(now, at, x, n, q);
    }
}

/// The machine boxes a value, or an allocation fails.
proof fn box_runs(
    code: Code,
    o: Outside,
    m: Machine,
    block: usize,
    ty: LType,
    value: Val,
    goal: spec_fn(Machine) -> bool,
) -> (r: Option<Machine>)
    requires
        box_stands(code, m.at as int, block, byte_count(o, ty) as u64, ty, value),
        byte_count(o, ty) + HEADER_BYTES <= u64::MAX,
        m.returned is None,
        value matches Val::At(k) ==> k < m.at,
        0 <= read(o, m.results, value) < byte_limit(byte_count(o, ty)),
        frame(o, code.slots, m.memory),
        sound(m.memory),
        heap_calls(o),
        forall|l: Machine| starved(code, l) ==> #[trigger] goal(l),
    ensures
        match r {
            Some(l) => {
                let n = byte_count(o, ty);
                let p = l.results[(m.at + 5) as usize];
                &&& m.leads_to(code, o, l)
                &&& l.at == m.at + 7
                &&& l.returned is None
                &&& l.parts == m.parts
                &&& forall|i: usize| i < m.at ==> #[trigger] l.results[i] == m.results[i]
                &&& spares(m.memory, l.memory)
                &&& sound(l.memory)
                &&& 0 <= p <= u64::MAX
                &&& in_memory(p, n as int)
                &&& all_taken(l.memory, p, n as int)
                &&& off_frame(o, code.slots, p, n as int)
                &&& number(l.memory, p, n) == read(o, m.results, value)
            },
            None => m.comes_to(code, o, goal),
        },
{
    let slots = code.slots;
    let n = byte_count(o, ty);
    let x = read(o, m.results, value);
    let room = n + HEADER_BYTES;
    let at = |k: int| Val::At((m.at + k) as usize);
    byte_limit_is_power(8);
    vstd::arithmetic::power2::lemma2_to64();
    address_in_range(room as int);
    combines(m, code, o, BinOp::Add, LType::I64, num(n as u64), num(HEADER_BYTES));
    let m1 = m.step(code, o);
    assert(m1.results[m.at as usize] == room);
    assert(arguments(o, m1.results, a1(at(0))) =~= seq![room as int]) by {
        reveal_with_fuel(arguments, 2);
    }
    calls(m1, code, o, Callee::Runtime(Rt::Malloc), a1(at(0)));
    let m2 = m1.step(code, o);
    malloc_call(o, m.memory, room as int);
    let base = m2.results[(m.at + 1) as usize];
    if base == 0 {
        assert(starved(code, m2));
        arrives(m2, code, o, goal);
        None
    } else {
        stores(m2, code, o, LType::I64, num(1), at(1));
        let m3 = m2.step(code, o);
        box_store_spares(m.memory, m2.memory, base, room as int, base, 1, 8);
        address_in_range(base + LENGTH_OFFSET);
        moves(m3, code, o, at(1), num(LENGTH_OFFSET));
        let m4 = m3.step(code, o);
        assert(m4.results[(m.at + 3) as usize] == base + LENGTH_OFFSET);
        stores(m4, code, o, LType::I64, num(n as u64), at(3));
        let m5 = m4.step(code, o);
        box_store_spares(
            m.memory,
            m3.memory,
            base,
            room as int,
            base + LENGTH_OFFSET,
            n as int,
            8,
        );
        address_in_range(base + HEADER_BYTES);
        moves(m5, code, o, at(1), num(HEADER_BYTES));
        let m6 = m5.step(code, o);
        let p = base + HEADER_BYTES;
        assert(m6.results[(m.at + 5) as usize] == p);
        assert(read(o, m6.results, value) == x);
        stores(m6, code, o, ty, value, at(5));
        let l = m6.step(code, o);
        box_store_spares(m.memory, m5.memory, base, room as int, p, x, n);
        store_is_read_back(m5.memory, p, x, n);
        fresh_is_off_frame(o, slots, m.memory, base, room as int);
        assert forall|g: int| p <= g < p + n implies !#[trigger] in_frame(o, slots, g) by {
            assert(base <= g < base + room);
        }
        assert forall|g: int| p <= g < p + n implies #[trigger] l.memory.taken.contains(g) by {
            assert(base <= g < base + room);
        }
        Some(l)
    }
}

/// What the value of a variant records.
proof fn variant_shape(c: &EmitContext, s: Code, ty: IRSymbol, tag: IRVariantTag, vals: Seq<Val>)
    requires
        tidy(s),
        s.log.len() + 13 <= usize::MAX,
        vals.len() <= 1,
    ensures
        ({
            let (t, v) = enum_value_code(c, s, ty, tag, vals);
            let n = s.log.len() as int;
            let k = box_len(c, ty, tag, vals.len());
            let slot = s.sv(0);
            let is = |k: int, inst: Inst| t.log[n + k] == Entry { block: s.cur, inst: inst };
            &&& tidy(t)
            &&& s.log.is_prefix_of(t.log)
            &&& t.edges == s.edges
            &&& t.cur == s.cur
            &&& t.blocks == s.blocks
            &&& t.slots == s.slots.push(LType::Enum(ty))
            &&& forall|i: int| n <= i < t.log.len() ==> (#[trigger] t.log[i]).block == s.cur
            &&& is(0, Inst::Field(LType::Variant(ty, tag.0), slot, 0))
            &&& is(1, Inst::Store(LType::I8, num(tag.0 as u64), s.v(0)))
            &&& if vals.len() == 0 {
                &&& t.log.len() == n + 3
                &&& v == s.v(2)
                &&& is(2, Inst::Load(LType::Enum(ty), slot))
            } else {
                let held = if k > 0 {
                    s.v(7)
                } else {
                    vals[0]
                };
                &&& t.log.len() == n + 6 + k
                &&& v == s.v(5 + k)
                &&& k > 0 ==> {
                    let inner = c.node(c.payload(ty, tag.0)[0]->Indirect_0);
                    let size = c.abi(value_type(inner));
                    box_stands(t, n + 2, s.cur, size, value_type(inner), vals[0])
                }
                &&& is(2 + k, Inst::Field(LType::Variant(ty, tag.0), slot, 2))
                &&& is(3 + k, Inst::Field(LType::Payload(ty, tag.0), s.v(2 + k), 0))
                &&& is(4 + k, Inst::Store(value_type(c.payload(ty, tag.0)[0]), held, s.v(3 + k)))
                &&& is(5 + k, Inst::Load(LType::Enum(ty), slot))
            }
        }),
{
    reveal_with_fuel(boxed_code, 2);
    reveal_with_fuel(write_fields_code, 2);
}

/// The value that a variant is made of is held: in place, or in a box.
pub open spec fn is_held(
    c: &EmitContext,
    o: Outside,
    memory: Memory,
    ty: IRSymbol,
    tag: IRVariantTag,
    n: nat,
    x: int,
    word: int,
) -> bool {
    if in_box(c, ty, tag) {
        number(memory, word, n) == x
    } else {
        word == x
    }
}

/// The size of what a variant holds in place of an element.
pub open spec fn held_size(c: &EmitContext, o: Outside, ty: IRSymbol, tag: IRVariantTag) -> nat {
    byte_count(o, value_type(c.payload(ty, tag.0)[0]))
}

/// A variant of one element: it holds the element in place or in a box,
/// and fits.
pub open spec fn holds_element(
    c: &EmitContext,
    o: Outside,
    ty: IRSymbol,
    tag: IRVariantTag,
    element: LType,
) -> bool {
    &&& c.payload(ty, tag.0).len() == 1
    &&& variant_fits(o, ty, tag, held_size(c, o, ty, tag))
    &&& match c.payload(ty, tag.0)[0] {
        IRType::Indirect(inner) => {
            &&& value_type(c.node(inner)) == element
            &&& c.abi(element) == byte_count(o, element)
            &&& byte_count(o, element) + HEADER_BYTES <= u64::MAX
        },
        slot => value_type(slot) == element,
    }
}

/// The machine makes the value of a variant without a payload.
proof fn unit_runs(
    c: &EmitContext,
    code: Code,
    o: Outside,
    s: Code,
    m: Machine,
    ty: IRSymbol,
    tag: IRVariantTag,
) -> (l: Machine)
    requires
        stands_at(code, s, enum_value_code(c, s, ty, tag, seq![]).0, m),
        tidy(s),
        s.log.len() + 13 <= usize::MAX,
        s.slots.len() < code.slots.len() <= usize::MAX,
        code.slots[s.slots.len() as int] == LType::Enum(ty),
        frame(o, code.slots, m.memory),
        sound(m.memory),
        variant_fits(o, ty, tag, 0),
    ensures
        ({
            let (t, v) = enum_value_code(c, s, ty, tag, seq![]);
            &&& behind(code, o, s, t, m, l)
            &&& keeps(o, code.slots, m.memory, l.memory)
            &&& frame(o, code.slots, l.memory)
            &&& is_variant(o, read(o, l.results, v), ty, tag, None)
        }),
{
    let (t, v) = enum_value_code(c, s, ty, tag, seq![]);
    variant_shape(c, s, ty, tag, seq![]);
    beginning_stands(code, t);
    let m2 = tag_runs(code, o, s, m, ty, tag);
    let p = slot_at(o, s.slots.len() as usize);
    loads(m2, code, o, LType::Enum(ty), s.sv(0));
    let l = m2.step(code, o);
    assert(holds_variant(o, m2.memory, p, ty, tag, None));
    l
}

/// The machine writes the tag of a variant.
proof fn tag_runs(code: Code, o: Outside, s: Code, m: Machine, ty: IRSymbol, tag: IRVariantTag) -> (l: Machine)
    requires
        ({
            let n = s.log.len() as int;
            &&& n + 2 < code.log.len() <= usize::MAX
            &&& code.log[n] == Entry {
                block: s.cur,
                inst: Inst::Field(LType::Variant(ty, tag.0), s.sv(0), 0),
            }
            &&& code.log[n + 1] == Entry {
                block: s.cur,
                inst: Inst::Store(LType::I8, num(tag.0 as u64), s.v(0)),
            }
            &&& code.log[n + 2].block == s.cur
        }),
        m.at == s.log.len(),
        m.returned is None,
        s.slots.len() < code.slots.len() <= usize::MAX,
        code.slots[s.slots.len() as int] == LType::Enum(ty),
        frame(o, code.slots, m.memory),
        sound(m.memory),
        variant_fits(o, ty, tag, 0) || exists|n: nat| variant_fits(o, ty, tag, n),
    ensures
        m.leads_to(code, o, l),
        l.at == s.log.len() + 2,
        l.returned is None,
        l.parts == m.parts,
        forall|i: usize| i < s.log.len() ==> #[trigger] l.results[i] == m.results[i],
        keeps(o, code.slots, m.memory, l.memory),
        frame(o, code.slots, l.memory),
        byte(
            l.memory,
            slot_at(o, s.slots.len() as usize) + (o.offsets)(LType::Variant(ty, tag.0), 0),
        ) == tag.0,
{
    let slots = code.slots;
    let k = s.slots.len() as usize;
    let p = slot_at(o, k);
    let at = (o.offsets)(LType::Variant(ty, tag.0), 0);
    assert(in_memory(p, slot_size(o, slots, k)));
    address_in_range(p + at);
    addresses(m, code, o, LType::Variant(ty, tag.0), s.sv(0), 0);
    let m1 = m.step(code, o);
    assert(read(o, m1.results, s.v(0)) == p + at);
    stores(m1, code, o, LType::I8, num(tag.0 as u64), s.v(0));
    let m2 = m1.step(code, o);
    slot_store_keeps(o, slots, m.memory, k, p + at, tag.0 as int, 1);
    assert(byte(m2.memory, p + at) == tag.0) by {
        reveal_with_fuel(stored, 2);
    }
    m2
}

/// The machine makes the value of a variant of one element, or an
/// allocation fails.
proof fn variant_runs(
    c: &EmitContext,
    code: Code,
    o: Outside,
    s: Code,
    m: Machine,
    ty: IRSymbol,
    tag: IRVariantTag,
    element: LType,
    value: Val,
    goal: spec_fn(Machine) -> bool,
) -> (r: Option<(Machine, int)>)
    requires
        stands_at(code, s, enum_value_code(c, s, ty, tag, seq![value]).0, m),
        tidy(s),
        s.log.len() + 13 <= usize::MAX,
        s.slots.len() < code.slots.len() <= usize::MAX,
        code.slots[s.slots.len() as int] == LType::Enum(ty),
        frame(o, code.slots, m.memory),
        sound(m.memory),
        heap_calls(o),
        holds_element(c, o, ty, tag, element),
        s.defines(value),
        0 <= read(o, m.results, value) < byte_limit(byte_count(o, element)),
        forall|l: Machine| starved(code, l) ==> #[trigger] goal(l),
    ensures
        match r {
            Some((l, word)) => {
                let (t, v) = enum_value_code(c, s, ty, tag, seq![value]);
                let n = byte_count(o, element);
                &&& behind(code, o, s, t, m, l)
                &&& keeps(o, code.slots, m.memory, l.memory)
                &&& frame(o, code.slots, l.memory)
                &&& is_variant(
                    o,
                    read(o, l.results, v),
                    ty,
                    tag,
                    Some((held_size(c, o, ty, tag), word)),
                )
                &&& is_held(c, o, l.memory, ty, tag, n, read(o, m.results, value), word)
                &&& in_box(c, ty, tag) ==> all_taken(l.memory, word, n as int) && off_frame(
                    o,
                    code.slots,
                    word,
                    n as int,
                )
            },
            None => m.comes_to(code, o, goal),
        },
{
    let vals = seq![value];
    let (t, v) = enum_value_code(c, s, ty, tag, vals);
    let slots = code.slots;
    let x = read(o, m.results, value);
    variant_shape(c, s, ty, tag, vals);
    beginning_stands(code, t);
    let m2 = tag_runs(code, o, s, m, ty, tag);
    assert(read(o, m2.results, value) == x);
    if in_box(c, ty, tag) {
        let n = s.log.len() as int;
        assert(code.log[n + 9] == t.log[n + 9]);
        assert(box_stands(code, n + 2, s.cur, byte_count(o, element) as u64, element, value));
        match box_runs(code, o, m2, s.cur, element, value, goal) {
            Some(k) => {
                let word = k.results[(n + 7) as usize];
                assert(keeps(o, slots, m2.memory, k.memory));
                keeps_again(o, slots, m.memory, m2.memory, k.memory);
                frame_stays(o, slots, m2.memory, k.memory);
                byte_limit_is_power(8);
                vstd::arithmetic::power2::lemma2_to64();
                let at = slot_at(o, s.slots.len() as usize) + (o.offsets)(LType::Variant(ty, tag.0), 0);
                assert(m2.memory.taken.contains(at));
                let l = payload_runs(c, code, o, s, k, ty, tag, s.v(7), word, 7);
                keeps_again(o, slots, m.memory, k.memory, l.memory);
                box_stays(o, slots, k.memory, l.memory, word, byte_count(o, element));
                Some((l, word))
            },
            None => None,
        }
    } else {
        let l = payload_runs(c, code, o, s, m2, ty, tag, value, x, 0);
        keeps_again(o, slots, m.memory, m2.memory, l.memory);
        Some((l, x))
    }
}

/// The machine writes the payload of a variant behind its tag and reads the
/// whole.
proof fn payload_runs(
    c: &EmitContext,
    code: Code,
    o: Outside,
    s: Code,
    m: Machine,
    ty: IRSymbol,
    tag: IRVariantTag,
    held: Val,
    word: int,
    k: int,
) -> (l: Machine)
    requires
        ({
            let n = s.log.len() as int;
            let is = |j: int, inst: Inst| code.log[n + j] == Entry { block: s.cur, inst: inst };
            &&& k == 0 || k == 7
            &&& n + 6 + k < code.log.len() <= usize::MAX
            &&& is(2 + k, Inst::Field(LType::Variant(ty, tag.0), s.sv(0), 2))
            &&& is(3 + k, Inst::Field(LType::Payload(ty, tag.0), s.v(2 + k), 0))
            &&& is(4 + k, Inst::Store(value_type(c.payload(ty, tag.0)[0]), held, s.v(3 + k)))
            &&& is(5 + k, Inst::Load(LType::Enum(ty), s.sv(0)))
            &&& code.log[n + 6 + k].block == s.cur
            &&& m.at == n + 2 + k
            &&& held matches Val::At(j) ==> j < n + 2 + k
        }),
        m.returned is None,
        s.slots.len() < code.slots.len() <= usize::MAX,
        code.slots[s.slots.len() as int] == LType::Enum(ty),
        frame(o, code.slots, m.memory),
        sound(m.memory),
        variant_fits(o, ty, tag, held_size(c, o, ty, tag)),
        read(o, m.results, held) == word,
        0 <= word < byte_limit(held_size(c, o, ty, tag)),
        byte(
            m.memory,
            slot_at(o, s.slots.len() as usize) + (o.offsets)(LType::Variant(ty, tag.0), 0),
        ) == tag.0,
    ensures
        m.leads_to(code, o, l),
        l.at == s.log.len() + 6 + k,
        l.returned is None,
        l.parts == m.parts,
        forall|i: usize| i < s.log.len() ==> #[trigger] l.results[i] == m.results[i],
        keeps(o, code.slots, m.memory, l.memory),
        frame(o, code.slots, l.memory),
        is_variant(
            o,
            read(o, l.results, s.v(5 + k)),
            ty,
            tag,
            Some((held_size(c, o, ty, tag), word)),
        ),
{
    let slots = code.slots;
    let j = s.slots.len() as usize;
    let p = slot_at(o, j);
    let first = (o.offsets)(LType::Variant(ty, tag.0), 2);
    let at = (o.offsets)(LType::Variant(ty, tag.0), 0);
    let q = p + payload_offset(o, ty, tag);
    let pty = value_type(c.payload(ty, tag.0)[0]);
    let n = byte_count(o, pty);
    assert(in_memory(p, slot_size(o, slots, j)));
    address_in_range(p + first);
    addresses(m, code, o, LType::Variant(ty, tag.0), s.sv(0), 2);
    let m3 = m.step(code, o);
    assert(read(o, m3.results, s.v(2 + k)) == p + first);
    address_in_range(q);
    addresses(m3, code, o, LType::Payload(ty, tag.0), s.v(2 + k), 0);
    let m4 = m3.step(code, o);
    assert(read(o, m4.results, s.v(3 + k)) == q);
    assert(read(o, m4.results, held) == word);
    stores(m4, code, o, pty, held, s.v(3 + k));
    let m5 = m4.step(code, o);
    slot_store_keeps(o, slots, m.memory, j, q, word, n);
    store_is_read_back(m.memory, q, word, n);
    store_spares_others(m.memory, q, word, n, p + at);
    loads(m5, code, o, LType::Enum(ty), s.sv(0));
    let l = m5.step(code, o);
    assert(holds_variant(o, m5.memory, p, ty, tag, Some((n, word))));
    l
}

/// What is boxed stays.
proof fn box_stays(o: Outside, slots: Seq<LType>, before: Memory, after: Memory, p: int, n: nat)
    requires
        keeps(o, slots, before, after),
        all_taken(before, p, n as int),
        off_frame(o, slots, p, n as int),
    ensures
        all_taken(after, p, n as int),
        number(after, p, n) == number(before, p, n),
{
    assert forall|i: int| 0 <= i < n implies #[trigger] byte(after, p + i) == byte(before, p + i) by {
        assert(before.taken.contains(p + i));
        assert(!in_frame(o, slots, p + i));
    }
    number_of_bytes(after, p, before, p, n);
    assert forall|q: int| p <= q < p + n implies #[trigger] after.taken.contains(q) by {
        assert(before.taken.contains(q));
    }
}

/// The front of `List.pop`.
spec fn pop_front() -> Code {
    let s = start();
    s.word("empty"@).word("nonempty"@)
        .i(Inst::Extract(LType::List, Val::Param(0), 0))
        .i(Inst::Extract(LType::List, Val::Param(0), 1))
        .i(itest(Pred::Eq, s.v(1), num(0)))
        .i(Inst::CondBr(s.v(2), s.b(0), s.b(1)))
        .at(s.b(0))
}

/// The empty list's side of `List.pop`: the option, the copy, and the list
/// made of it.
spec fn pop_none(c: &EmitContext, element: IRType, option: IRSymbol) -> (Code, Val, Code, Code) {
    let e = pop_front();
    let (n, none) = enum_value_code(c, e, option, IRVariantTag(OPTION_NONE), seq![]);
    let b = copy_buffer_code(
        c,
        n,
        Walk::Acquire,
        element,
        Val::At(0),
        Val::At(1),
        Val::At(1),
        size_of(element),
    );
    (n, none, b, list_struct_code(b, n.v(1), Val::At(1), Val::At(1)))
}

/// The other side of `List.pop`, behind code that the first side ends.
spec fn pop_some(c: &EmitContext, z: Code, element: IRType, option: IRSymbol) -> (
    Code,
    Code,
    Val,
    Code,
    Val,
    Code,
    Code,
) {
    let size = size_of(element);
    let e = z.i(isub(Val::At(1), num(1)))
        .i(imul(z.v(0), size))
        .i(gep(Val::At(0), z.v(1)))
        .i(Inst::Load(value_type(element), z.v(2)));
    let (a, value) = acquire_value_code(c, e, element, z.v(3));
    let (w, some) = enum_value_code(c, a, option, IRVariantTag(OPTION_SOME), seq![value]);
    let b = copy_buffer_code(c, w, Walk::Acquire, element, Val::At(0), z.v(0), z.v(0), size);
    (e, a, value, w, some, b, list_struct_code(b, w.v(1), z.v(0), z.v(0)))
}

/// The code of `List.pop` up to its other side.
spec fn pop_middle(c: &EmitContext, element: IRType, tuple: usize, option: IRSymbol) -> Code {
    let (n, none, b, _) = pop_none(c, element, option);
    ret_pop_code(b, tuple, option, none, n.v(1), Val::At(1)).at(2)
}

/// The machine of `List.pop` holds the option and the shorter list, about
/// to pair them: `Some` of the last element and the others, or `None` and
/// nothing, all of them acquired, the list in a buffer of its own. Or an
/// allocation has failed.
pub open spec fn popped(
    c: &EmitContext,
    code: Code,
    o: Outside,
    element: IRType,
    option: IRSymbol,
    items: Seq<int>,
    before: Memory,
) -> spec_fn(Machine) -> bool {
    unless_starved(
        code,
        |l: Machine|
            exists|pair: (Val, Val), rest: Seq<int>, y: int| #[trigger]
                pairs(c, code, o, element, option, items, before, l, pair, rest, y),
    )
}

/// An option is `Some` of an element, in place or in a box.
pub open spec fn is_some_of(
    c: &EmitContext,
    o: Outside,
    l: Machine,
    option: IRSymbol,
    size: nat,
    x: int,
    word: int,
) -> bool {
    let tag = IRVariantTag(OPTION_SOME);
    exists|held: int| #[trigger]
        is_held(c, o, l.memory, option, tag, size, x, held) && is_variant(
            o,
            word,
            option,
            tag,
            Some((held_size(c, o, option, tag), held)),
        )
}

/// The elements before the last one.
pub open spec fn shorter(items: Seq<int>) -> Seq<int> {
    if items.len() == 0 {
        items
    } else {
        items.drop_last()
    }
}

/// What is about to be paired: an option of `y`, which is a copy of the last
/// element, and a list of `rest`, which are copies of the others.
pub open spec fn pairs(
    c: &EmitContext,
    code: Code,
    o: Outside,
    element: IRType,
    option: IRSymbol,
    items: Seq<int>,
    before: Memory,
    l: Machine,
    pair: (Val, Val),
    rest: Seq<int>,
    y: int,
) -> bool {
    let size = byte_count(o, value_type(element));
    let list = l.parts_of(pair.1);
    &&& l.returned is None
    &&& l.at + 7 <= code.log.len()
    &&& (code.log[l.at as int + 2].inst matches Inst::Store(_, v, _) && v == pair.0)
    &&& (code.log[l.at as int + 4].inst matches Inst::Store(_, v, _) && v == pair.1)
    &&& code.log[l.at as int + 6].inst is Ret
    &&& if items.len() == 0 {
        is_variant(o, read(o, l.results, pair.0), option, IRVariantTag(OPTION_NONE), None)
    } else {
        &&& is_some_of(c, o, l, option, size, y, read(o, l.results, pair.0))
        &&& copied(c, o, element, code.slots, before, items.last(), l.memory, y)
    }
    &&& all_copied(c, o, element, code.slots, before, shorter(items), l.memory, rest)
    &&& list[1] == rest.len()
    &&& list[2] == rest.len()
    &&& holds_items(l.memory, list[0], size, rest)
    &&& none_taken(before, list[0], (rest.len() * size) as int)
    &&& keeps(o, code.slots, before, l.memory)
}

/// The body is that of `List.pop`.
spec fn pop_stands(c: &EmitContext, code: Code, element: IRType, tuple: usize, option: IRSymbol) -> bool {
    let e = pop_front();
    let (n, none, b, p) = pop_none(c, element, option);
    let z = pop_middle(c, element, tuple, option);
    let (x, a, value, w, some, d, q) = pop_some(c, z, element, option);
    &&& tidy(e) && tidy(n) && tidy(z) && tidy(x) && tidy(a) && tidy(w)
    &&& n.blocks + 3 <= 64 && w.blocks + 3 <= 64 && z.log.len() <= 64 && w.log.len() <= 96
    &&& begins_as(code, e) && begins_as(code, n) && begins_as(code, b)
    &&& begins_as(code, ret_pop_code(b, tuple, option, none, n.v(1), Val::At(1)))
    &&& begins_as(code, x) && begins_as(code, a) && begins_as(code, w) && begins_as(code, d)
    &&& begins_as(code, ret_pop_code(d, tuple, option, some, w.v(1), z.v(0)))
    &&& e.log.len() == 4
    &&& code.log[0].block == 0 && code.log[4].block == 1
    &&& n.log.len() < code.log.len() && code.log[n.log.len() as int].block == n.cur
    &&& b.log.len() < code.log.len() && code.log[b.log.len() as int].block == b.cur
    &&& z.log.len() < code.log.len() && code.log[z.log.len() as int].block == 2
    &&& x.log.len() < code.log.len() && code.log[x.log.len() as int].block == 2
    &&& a.log.len() < code.log.len() && code.log[a.log.len() as int].block == 2
    &&& w.log.len() < code.log.len() && code.log[w.log.len() as int].block == w.cur
    &&& d.log.len() < code.log.len() && code.log[d.log.len() as int].block == d.cur
    &&& forall|i: int| 0 <= i < 4 ==> (#[trigger] code.log[i]).block == 0
    &&& forall|i: int| 0 <= i < z.log.len() ==> (#[trigger] code.log[i]).block != 2
    &&& e.slots.len() == 0
    &&& n.slots == seq![LType::Enum(option)]
    &&& a.slots.len() < code.slots.len() <= 4
    &&& code.slots[0] == LType::Enum(option)
    &&& code.slots[a.slots.len() as int] == LType::Enum(option)
    &&& heap_owner(c, element) ==> code.slots[1] == LType::I64 && code.slots[3] == LType::I64
        && w.slots.len() == 3 && code.slots.len() == 4
}

/// A list made of a buffer is about to be paired with an option.
proof fn pair_is_made(
    c: &EmitContext,
    code: Code,
    o: Outside,
    b: Code,
    m: Machine,
    element: IRType,
    tuple: usize,
    option: IRSymbol,
    items: Seq<int>,
    rest: Seq<int>,
    y: int,
    before: Memory,
    one: Val,
    buf: Val,
    len: Val,
)
    requires
        begins_as(code, ret_pop_code(b, tuple, option, one, buf, len)),
        b.defines(one) && b.defines(buf) && b.defines(len),
        m.at == b.log.len(),
        m.returned is None,
        ({
            let size = byte_count(o, value_type(element));
            &&& if items.len() == 0 {
                is_variant(o, read(o, m.results, one), option, IRVariantTag(OPTION_NONE), None)
            } else {
                &&& is_some_of(c, o, m, option, size, y, read(o, m.results, one))
                &&& copied(c, o, element, code.slots, before, items.last(), m.memory, y)
            }
            &&& all_copied(c, o, element, code.slots, before, shorter(items), m.memory, rest)
            &&& read(o, m.results, len) == rest.len()
            &&& holds_items(m.memory, read(o, m.results, buf), size, rest)
            &&& none_taken(before, read(o, m.results, buf), (rest.len() * size) as int)
        }),
        keeps(o, code.slots, before, m.memory),
    ensures
        m.comes_to(code, o, popped(c, code, o, element, option, items, before)),
{
    let goal = popped(c, code, o, element, option, items, before);
    let t = ret_pop_code(b, tuple, option, one, buf, len);
    let n = b.log.len() as int;
    beginning_stands(code, t);
    assert(t.log.len() == n + 10);
    assert(t.log[n] == Entry {
        block: b.cur,
        inst: Inst::Insert(LType::List, Val::Undef, LType::Ptr, buf, 0),
    });
    inserts(m, code, o, LType::List, Val::Undef, LType::Ptr, buf, 0);
    let m1 = m.step(code, o);
    inserts(m1, code, o, LType::List, b.v(0), LType::I64, len, 1);
    let m2 = m1.step(code, o);
    inserts(m2, code, o, LType::List, b.v(1), LType::I64, len, 2);
    let m3 = m2.step(code, o);
    assert(m3.parts_of(b.v(2))[0] == read(o, m.results, buf));
    assert(read(o, m3.results, one) == read(o, m.results, one));
    if items.len() > 0 {
        let size = byte_count(o, value_type(element));
        let tag = IRVariantTag(OPTION_SOME);
        let x = y;
        let held = choose|held: int| #[trigger]
            is_held(c, o, m.memory, option, tag, size, x, held) && is_variant(
                o,
                read(o, m.results, one),
                option,
                tag,
                Some((held_size(c, o, option, tag), held)),
            );
        assert(is_held(c, o, m3.memory, option, tag, size, x, held));
    }
    assert(pairs(c, code, o, element, option, items, before, m3, (one, b.v(2)), rest, y));
    arrives(m3, code, o, goal);
}

/// The option that `List.pop` makes has the shape of one, and fits.
pub open spec fn pops_into(c: &EmitContext, o: Outside, element: IRType, option: IRSymbol) -> bool {
    &&& holds_element(c, o, option, IRVariantTag(OPTION_SOME), value_type(element))
    &&& variant_fits(o, option, IRVariantTag(OPTION_NONE), 0)
}

/// What the empty list's side of `List.pop` records.
proof fn pop_none_shape(c: &EmitContext, element: IRType, tuple: usize, option: IRSymbol)
    ensures
        ({
            let e = pop_front();
            let (n, none, b, p) = pop_none(c, element, option);
            let t = ret_pop_code(b, tuple, option, none, n.v(1), Val::At(1));
            let z = pop_middle(c, element, tuple, option);
            &&& tidy(e) && tidy(n) && tidy(z)
            &&& e.log.len() == 4 && n.log.len() == 7
            &&& n.blocks == 3 && z.blocks <= 6 && z.log.len() <= 40
            &&& e.log.is_prefix_of(n.log) && n.log.is_prefix_of(b.log) && b.log.is_prefix_of(t.log)
            &&& t.log == z.log && t.edges == e.edges && b.edges == e.edges && n.edges == e.edges
            &&& z.edges == e.edges
            &&& z.cur == 2
            &&& n.cur == 1
            &&& none == Val::At(6)
            &&& b.log.len() >= 11
            &&& t.log.len() == b.log.len() + 10
            &&& t.log[n.log.len() as int].block == 1
            &&& t.log[b.log.len() as int].block == b.cur
            &&& forall|i: int| 0 <= i < 4 ==> (#[trigger] t.log[i]).block == 0
            &&& t.log[4].block == 1
            &&& forall|i: int| 0 <= i < t.log.len() ==> (#[trigger] t.log[i]).block != 2
            &&& e.slots.len() == 0
            &&& n.slots == seq![LType::Enum(option)]
            &&& z.slots == if heap_owner(c, element) {
                seq![LType::Enum(option), LType::I64]
            } else {
                seq![LType::Enum(option)]
            }
        }),
{
    let e = pop_front();
    let (n, none, b, p) = pop_none(c, element, option);
    let t = ret_pop_code(b, tuple, option, none, n.v(1), Val::At(1));
    let z = pop_middle(c, element, tuple, option);
    assert(tidy(e));
    variant_shape(c, e, option, IRVariantTag(OPTION_NONE), seq![]);
    copy_shape(c, n, element, Val::At(0), Val::At(1), Val::At(1), size_of(element));
    assert(b.log.is_prefix_of(t.log));
    log_begins_further(t.log, b.log, n.log);
    log_begins_further(t.log, n.log, e.log);
    assert(n.slots =~= seq![LType::Enum(option)]);
    assert(heap_owner(c, element) ==> z.slots =~= seq![LType::Enum(option), LType::I64]);
    assert forall|i: int| 0 <= i < t.log.len() implies (#[trigger] t.log[i]).block != 2 by {
        if i < 4 {
            assert(t.log[i] == e.log[i]);
        } else if i < n.log.len() {
            assert(t.log[i] == n.log[i]);
        } else if i < b.log.len() {
            assert(t.log[i] == b.log[i]);
        }
    }
    assert(t.log[7] == b.log[7]);
    assert(t.log[4] == n.log[4]);
}

/// What the other side of `List.pop` records.
#[verifier::spinoff_prover]
#[verifier::rlimit(60)]
proof fn pop_some_shape(c: &EmitContext, z: Code, element: IRType, tuple: usize, option: IRSymbol)
    requires
        tidy(z),
        z.blocks <= 6,
        z.log.len() <= 40,
        z.cur == 2,
        c.payload(option, OPTION_SOME).len() == 1,
    ensures
        ({
            let (x, a, value, w, some, d, q) = pop_some(c, z, element, option);
            let t = ret_pop_code(d, tuple, option, some, w.v(1), z.v(0));
            &&& tidy(x) && tidy(a) && tidy(w)
            &&& w.blocks <= 6 && w.log.len() <= 96
            &&& z.log.is_prefix_of(x.log) && x.log.is_prefix_of(a.log) && a.log.is_prefix_of(w.log)
            &&& w.log.is_prefix_of(d.log) && d.log.is_prefix_of(t.log)
            &&& x.edges == z.edges && a.edges == z.edges && w.edges == z.edges && d.edges == z.edges
                && t.edges == z.edges
            &&& a.cur == 2 && x.cur == 2 && w.cur == 2
            &&& x.log.len() == z.log.len() + 4
            &&& w.log.len() <= a.log.len() + 13
            &&& t.log.len() == d.log.len() + 10
            &&& t.log[z.log.len() as int].block == 2
            &&& t.log[x.log.len() as int].block == 2
            &&& t.log[a.log.len() as int].block == 2
            &&& t.log[w.log.len() as int].block == 2
            &&& t.log[d.log.len() as int].block == d.cur
            &&& a.slots == z.slots
            &&& w.slots == z.slots.push(LType::Enum(option))
            &&& t.slots == if heap_owner(c, element) {
                w.slots.push(LType::I64)
            } else {
                w.slots
            }
        }),
{
    let (x, a, value, w, some, d, q) = pop_some(c, z, element, option);
    let t = ret_pop_code(d, tuple, option, some, w.v(1), z.v(0));
    assert(tidy(x));
    assert(z.log.is_prefix_of(x.log));
    assert(x.log.is_prefix_of(a.log));
    assert(tidy(a));
    variant_shape(c, a, option, IRVariantTag(OPTION_SOME), seq![value]);
    copy_shape(c, w, element, Val::At(0), z.v(0), z.v(0), size_of(element));
    assert(d.log.is_prefix_of(t.log));
    log_begins_further(t.log, d.log, w.log);
    log_begins_further(t.log, w.log, a.log);
    log_begins_further(t.log, a.log, x.log);
    log_begins_further(t.log, x.log, z.log);
    assert(t.log[z.log.len() as int] == x.log[z.log.len() as int]);
    assert(t.log[a.log.len() as int] == w.log[a.log.len() as int]);
    assert(t.log[x.log.len() as int].block == 2) by {
        if x.log.len() < a.log.len() {
            assert(t.log[x.log.len() as int] == a.log[x.log.len() as int]);
        }
    }
    assert(t.log[w.log.len() as int] == d.log[w.log.len() as int]);
}

/// What `List.pop` records.
#[verifier::spinoff_prover]
#[verifier::rlimit(80)]
proof fn pop_is_recorded(c: &EmitContext, element: IRType, tuple: usize, option: IRSymbol)
    requires
        c.payload(option, OPTION_SOME).len() == 1,
    ensures
        pop_stands(c, pop_code(c, start(), element, tuple, option), element, tuple, option),
{
    let e = pop_front();
    let (n, none, b, p) = pop_none(c, element, option);
    let t = ret_pop_code(b, tuple, option, none, n.v(1), Val::At(1));
    let z = pop_middle(c, element, tuple, option);
    let (x, a, value, w, some, d, q) = pop_some(c, z, element, option);
    let code = ret_pop_code(d, tuple, option, some, w.v(1), z.v(0));
    pop_none_shape(c, element, tuple, option);
    pop_some_shape(c, z, element, tuple, option);
    assert(code == pop_code(c, start(), element, tuple, option));
    log_begins_further(code.log, d.log, w.log);
    log_begins_further(code.log, w.log, a.log);
    log_begins_further(code.log, a.log, x.log);
    log_begins_further(code.log, x.log, z.log);
    log_begins_further(code.log, z.log, b.log);
    log_begins_further(code.log, b.log, n.log);
    log_begins_further(code.log, n.log, e.log);
    assert(code.log[4] == t.log[4]);
    assert(heap_owner(c, element) ==> code.slots =~= seq![
        LType::Enum(option),
        LType::I64,
        LType::Enum(option),
        LType::I64,
    ]);
    assert(!heap_owner(c, element) ==> code.slots =~= seq![LType::Enum(option), LType::Enum(option)]);
    assert(code.log[n.log.len() as int] == t.log[n.log.len() as int]);
    assert(code.log[b.log.len() as int] == t.log[b.log.len() as int]);
    assert forall|i: int| 0 <= i < 4 implies (#[trigger] code.log[i]).block == 0 by {
        assert(code.log[i] == t.log[i]);
    }
    assert forall|i: int| 0 <= i < z.log.len() implies (#[trigger] code.log[i]).block != 2 by {
        assert(code.log[i] == t.log[i]);
    }
}

/// `List.pop` takes the last element off: it comes to the pair of `Some` of
/// it and the elements before it, or of `None` and nothing where there is
/// none, all acquired, in a buffer of their own. The receiver is as it was.
pub proof fn pop_takes_the_last(
    c: &EmitContext,
    element: IRType,
    tuple: usize,
    option: IRSymbol,
    o: Outside,
    memory: Memory,
    items: Seq<int>,
)
    requires
        acquires(c, o, element),
        pops_into(c, o, element, option),
        list_param(
            o,
            0,
            pop_code(c, start(), element, tuple, option).slots,
            memory,
            value_type(element),
            items,
        ),
        size_fits(o, value_type(element), items.len() as int),
        forall|i: int|
            0 <= i < items.len() ==> 0 <= #[trigger] items[i] < byte_limit(
                byte_count(o, value_type(element)),
            ),
    ensures
        ({
            let code = pop_code(c, start(), element, tuple, option);
            booted(code, memory).comes_to(
                code,
                o,
                popped(c, code, o, element, option, items, memory),
            )
        }),
{
    let code = pop_code(c, start(), element, tuple, option);
    pop_is_recorded(c, element, tuple, option);
    pop_runs(c, code, element, tuple, option, o, memory, items);
}

/// A body that is made like a `List.pop` runs like one.
proof fn pop_runs(
    c: &EmitContext,
    code: Code,
    element: IRType,
    tuple: usize,
    option: IRSymbol,
    o: Outside,
    memory: Memory,
    items: Seq<int>,
)
    requires
        pop_stands(c, code, element, tuple, option),
        acquires(c, o, element),
        pops_into(c, o, element, option),
        list_param(o, 0, code.slots, memory, value_type(element), items),
        size_fits(o, value_type(element), items.len() as int),
        forall|i: int|
            0 <= i < items.len() ==> 0 <= #[trigger] items[i] < byte_limit(
                byte_count(o, value_type(element)),
            ),
    ensures
        booted(code, memory).comes_to(
            code,
            o,
            popped(c, code, o, element, option, items, memory),
        ),
{
    let e = pop_front();
    let z = pop_middle(c, element, tuple, option);
    let len = items.len() as int;
    beginning_stands(code, e);
    seek_finds(code.log, 0, 0, 0);
    seek_finds(code.log, 1, 0, 4);
    seek_finds(code.log, 2, 0, z.log.len());
    let m0 = booted(code, memory);
    extracts(m0, code, o, LType::List, 0, 0);
    let m1 = m0.step(code, o);
    extracts(m1, code, o, LType::List, 0, 1);
    let m2 = m1.step(code, o);
    tests(m2, code, o, Pred::Eq, LType::I64, Val::At(1), num(0));
    let m3 = m2.step(code, o);
    branches(m3, code, o, Val::At(2), 1, 2);
    let m4 = m3.step(code, o);
    if len == 0 {
        pop_empty(c, code, element, tuple, option, o, m4, memory, items);
    } else {
        pop_last(c, code, element, tuple, option, o, m4, memory, items);
    }
}

/// `List.pop` of an empty list.
proof fn pop_empty(
    c: &EmitContext,
    code: Code,
    element: IRType,
    tuple: usize,
    option: IRSymbol,
    o: Outside,
    m: Machine,
    memory: Memory,
    items: Seq<int>,
)
    requires
        pop_stands(c, code, element, tuple, option),
        acquires(c, o, element),
        pops_into(c, o, element, option),
        list_param(o, 0, code.slots, memory, value_type(element), items),
        items.len() == 0,
        m.at == 4,
        m.returned is None,
        m.memory == memory,
        m.results[0] == (o.parts)(0, 0),
        m.results[1] == (o.parts)(0, 1),
    ensures
        m.comes_to(code, o, popped(c, code, o, element, option, items, memory)),
{
    let goal = popped(c, code, o, element, option, items, memory);
    let e = pop_front();
    let (n, none, b, p) = pop_none(c, element, option);
    let size = byte_count(o, value_type(element));
    let k = unit_runs(c, code, o, e, m, option, IRVariantTag(OPTION_NONE));
    assert(k.results[0] == m.results[0] && k.results[1] == m.results[1]);
    list_stays(o, code.slots, memory, k.memory, (o.parts)(0, 0), size, items);
    variant_shape(c, e, option, IRVariantTag(OPTION_NONE), seq![]);
    assert(0 * size == 0) by (nonlinear_arith);
    match copy_runs(
        c,
        code,
        o,
        n,
        k,
        element,
        Val::At(0),
        Val::At(1),
        Val::At(1),
        items,
        code.slots,
        goal,
    ) {
        Some((l, rest)) => {
            keeps_again(o, code.slots, memory, k.memory, l.memory);
            assert(read(o, l.results, none) == read(o, k.results, none));
            assert(l.results[1] == 0);
            copy_shape(c, n, element, Val::At(0), Val::At(1), Val::At(1), size_of(element));
            pair_is_made(
                c,
                code,
                o,
                b,
                l,
                element,
                tuple,
                option,
                items,
                rest,
                0,
                memory,
                none,
                n.v(1),
                Val::At(1),
            );
        },
        None => {},
    }
}

/// `List.pop` of a list that is not empty.
#[verifier::spinoff_prover]
#[verifier::rlimit(80)]
proof fn pop_last(
    c: &EmitContext,
    code: Code,
    element: IRType,
    tuple: usize,
    option: IRSymbol,
    o: Outside,
    m: Machine,
    memory: Memory,
    items: Seq<int>,
)
    requires
        pop_stands(c, code, element, tuple, option),
        acquires(c, o, element),
        pops_into(c, o, element, option),
        list_param(o, 0, code.slots, memory, value_type(element), items),
        size_fits(o, value_type(element), items.len() as int),
        items.len() > 0,
        0 <= items.last() < byte_limit(byte_count(o, value_type(element))),
        m.at == pop_middle(c, element, tuple, option).log.len(),
        m.returned is None,
        m.memory == memory,
        m.results[0] == (o.parts)(0, 0),
        m.results[1] == (o.parts)(0, 1),
    ensures
        m.comes_to(code, o, popped(c, code, o, element, option, items, memory)),
{
    let z = pop_middle(c, element, tuple, option);
    let (x, a, value, w, some, d, q) = pop_some(c, z, element, option);
    let ty = value_type(element);
    let size = byte_count(o, ty);
    let buf = (o.parts)(0, 0);
    let last = items.len() - 1;
    beginning_stands(code, x);
    item_fits(last, size as int, items.len() as int);
    address_in_range(last);
    combines(m, code, o, BinOp::Sub, LType::I64, Val::At(1), num(1));
    let m1 = m.step(code, o);
    assert(m1.results[m.at as usize] == last);
    multiplies(m1, code, o, z.v(0), Val::SizeOf(ty));
    let m2 = m1.step(code, o);
    address_in_range(last * size);
    assert(read(o, m2.results, z.v(1)) == last * size);
    moves(m2, code, o, Val::At(0), z.v(1));
    let m3 = m2.step(code, o);
    address_in_range(buf + last * size);
    assert(read(o, m3.results, z.v(2)) == buf + last * size);
    loads(m3, code, o, ty, z.v(2));
    let m4 = m3.step(code, o);
    assert(item(memory, buf, size, last) == items[last]);
    assert(read(o, m4.results, z.v(3)) == items.last());
    let k = acquire_value_runs(c, code, o, x, m4, element, z.v(3));
    let y = read(o, k.results, value);
    clone_fits(c, o, element, memory, items.last(), k.memory, y);
    news_are_apart(o, code.slots, 0, 0, memory, k.memory);
    assert(made(c, o, element, code.slots, (0, 0), memory, items.last(), k.memory, y)) by {
        assert(clones(c, o, element, memory, items.last(), k.memory, y));
    }
    assert(k.results[0] == buf && read(o, k.results, z.v(0)) == last);
    pop_shortens(c, code, element, tuple, option, o, k, memory, items, y);
}

/// `List.pop` from the acquired element on.
proof fn pop_shortens(
    c: &EmitContext,
    code: Code,
    element: IRType,
    tuple: usize,
    option: IRSymbol,
    o: Outside,
    k: Machine,
    memory: Memory,
    items: Seq<int>,
    y: int,
)
    requires
        pop_stands(c, code, element, tuple, option),
        acquires(c, o, element),
        pops_into(c, o, element, option),
        list_param(o, 0, code.slots, memory, value_type(element), items),
        size_fits(o, value_type(element), items.len() as int),
        items.len() > 0,
        0 <= y < byte_limit(byte_count(o, value_type(element))),
        made(c, o, element, code.slots, (0, 0), memory, items.last(), k.memory, y),
        ({
            let z = pop_middle(c, element, tuple, option);
            let (x, a, value, w, some, d, q) = pop_some(c, z, element, option);
            &&& k.at == a.log.len()
            &&& read(o, k.results, value) == y
            &&& k.results[0] == (o.parts)(0, 0)
            &&& read(o, k.results, z.v(0)) == items.len() - 1
        }),
        k.returned is None,
        keeps(o, code.slots, memory, k.memory),
    ensures
        k.comes_to(code, o, popped(c, code, o, element, option, items, memory)),
{
    let goal = popped(c, code, o, element, option, items, memory);
    let z = pop_middle(c, element, tuple, option);
    let (x, a, value, w, some, d, q) = pop_some(c, z, element, option);
    let size = byte_count(o, value_type(element));
    let buf = (o.parts)(0, 0);
    let rest = items.drop_last();
    frame_stays(o, code.slots, memory, k.memory);
    variant_shape(c, a, option, IRVariantTag(OPTION_SOME), seq![value]);
    match variant_runs(
        c,
        code,
        o,
        a,
        k,
        option,
        IRVariantTag(OPTION_SOME),
        value_type(element),
        value,
        goal,
    ) {
        Some((v, held)) => {
            keeps_again(o, code.slots, memory, k.memory, v.memory);
            made_later(
                c,
                o,
                element,
                code.slots,
                (0, 0),
                memory,
                items.last(),
                k.memory,
                y,
                v.memory,
            );
            pop_copies(c, code, element, tuple, option, o, v, memory, items, held, y);
        },
        None => {},
    }
}

/// `List.pop` from its option on.
proof fn pop_copies(
    c: &EmitContext,
    code: Code,
    element: IRType,
    tuple: usize,
    option: IRSymbol,
    o: Outside,
    v: Machine,
    memory: Memory,
    items: Seq<int>,
    held: int,
    y: int,
)
    requires
        pop_stands(c, code, element, tuple, option),
        acquires(c, o, element),
        list_param(o, 0, code.slots, memory, value_type(element), items),
        size_fits(o, value_type(element), items.len() as int),
        items.len() > 0,
        ({
            let z = pop_middle(c, element, tuple, option);
            let (x, a, value, w, some, d, q) = pop_some(c, z, element, option);
            let tag = IRVariantTag(OPTION_SOME);
            let size = byte_count(o, value_type(element));
            &&& v.at == w.log.len()
            &&& v.results[0] == (o.parts)(0, 0)
            &&& read(o, v.results, z.v(0)) == items.len() - 1
            &&& z.log.len() < w.log.len()
            &&& w.defines(some)
            &&& is_variant(
                o,
                read(o, v.results, some),
                option,
                tag,
                Some((held_size(c, o, option, tag), held)),
            )
            &&& is_held(c, o, v.memory, option, tag, size, y, held)
            &&& in_box(c, option, tag) ==> all_taken(v.memory, held, size as int) && off_frame(
                o,
                code.slots,
                held,
                size as int,
            )
        }),
        v.returned is None,
        made(c, o, element, code.slots, (0, 0), memory, items.last(), v.memory, y),
        keeps(o, code.slots, memory, v.memory),
    ensures
        v.comes_to(code, o, popped(c, code, o, element, option, items, memory)),
{
    let goal = popped(c, code, o, element, option, items, memory);
    let z = pop_middle(c, element, tuple, option);
    let (x, a, value, w, some, d, q) = pop_some(c, z, element, option);
    let size = byte_count(o, value_type(element));
    let buf = (o.parts)(0, 0);
    let rest = items.drop_last();
    let tag = IRVariantTag(OPTION_SOME);
    shorter_list(o, code.slots, memory, buf, size, items);
    list_stays(o, code.slots, memory, v.memory, buf, size, rest);
    assert(rest.len() * size <= items.len() * size) by (nonlinear_arith)
        requires
            rest.len() <= items.len(),
            size >= 0,
    ;
    match copy_runs(
        c,
        code,
        o,
        w,
        v,
        element,
        Val::At(0),
        z.v(0),
        z.v(0),
        rest,
        code.slots,
        goal,
    ) {
        Some((l, copies)) => {
            let fresh = read(o, l.results, w.v(1));
            let own = (fresh, (rest.len() * size) as int);
            made_later(
                c,
                o,
                element,
                code.slots,
                (0, 0),
                memory,
                items.last(),
                v.memory,
                y,
                l.memory,
            );
            made_is_copied(c, o, element, code.slots, (0, 0), memory, items.last(), l.memory, y);
            assert(none_taken(memory, own.0, own.1)) by {
                assert forall|g: int| #[trigger] memory.taken.contains(g) implies v.memory.taken.contains(
                    g,
                ) by {}
            }
            all_made_earlier(
                c,
                o,
                element,
                code.slots,
                own,
                v.memory,
                rest,
                l.memory,
                copies,
                memory,
            );
            all_made_are_copied(c, o, element, code.slots, own, memory, rest, l.memory, copies);
            keeps_again(o, code.slots, memory, v.memory, l.memory);
            if in_box(c, option, tag) {
                box_stays(o, code.slots, v.memory, l.memory, held, size);
            }
            assert(read(o, l.results, some) == read(o, v.results, some));
            assert(read(o, l.results, z.v(0)) == rest.len());
            assert(is_held(c, o, l.memory, option, tag, size, y, held));
            assert(is_some_of(c, o, l, option, size, y, read(o, l.results, some)));
            assert forall|g: int| #[trigger] memory.taken.contains(g) implies v.memory.taken.contains(g) by {}
            copy_shape(c, w, element, Val::At(0), z.v(0), z.v(0), size_of(element));
            pair_is_made(
                c,
                code,
                o,
                d,
                l,
                element,
                tuple,
                option,
                items,
                copies,
                y,
                memory,
                some,
                w.v(1),
                z.v(0),
            );
        },
        None => {},
    }
}

/// The elements of a list before its last one.
proof fn shorter_list(
    o: Outside,
    slots: Seq<LType>,
    memory: Memory,
    buf: int,
    size: nat,
    items: Seq<int>,
)
    requires
        walking(o, slots, memory, buf, size, items),
        items.len() > 0,
    ensures
        walking(o, slots, memory, buf, size, items.drop_last()),
{
    let rest = items.drop_last();
    part_of_items(memory, buf, size, items, 0, rest.len() as int);
    assert(items.subrange(0, rest.len() as int) =~= rest);
    assert(0 * size == 0) by (nonlinear_arith);
    assert forall|q: int| buf <= q < buf + rest.len() * size implies #[trigger] memory.taken.contains(q) by {
        assert(q < buf + items.len() * size);
    }
    assert forall|q: int| buf <= q < buf + rest.len() * size implies !#[trigger] in_frame(o, slots, q) by {
        assert(q < buf + items.len() * size);
    }
}

/// `List.pop` on what `List.append` gave back comes to `Some` of a copy of
/// the item and to copies of the elements that it was appended to, where
/// `held` is what was given back.
pub proof fn pop_after_append(
    c: &EmitContext,
    element: IRType,
    tuple: usize,
    option: IRSymbol,
    o: Outside,
    later: Outside,
    l: Machine,
    before: Memory,
    items: Seq<int>,
    x: int,
    held: Seq<int>,
)
    requires
        ({
            let code = append_code(c, start(), element);
            let size = byte_count(o, value_type(element));
            &&& all_copied(c, o, element, code.slots, before, items.push(x), l.memory, held)
            &&& is_list(o, code.slots, size, held, before, l)
            &&& (later.parts)(0, 0) == l.returned_parts[0]
            &&& (later.parts)(0, 1) == l.returned_parts[1]
            &&& list_param(
                later,
                0,
                pop_code(c, start(), element, tuple, option).slots,
                l.memory,
                value_type(element),
                held,
            )
            &&& size_fits(later, value_type(element), held.len() as int)
            &&& forall|i: int|
                0 <= i < held.len() ==> 0 <= #[trigger] held[i] < byte_limit(
                    byte_count(later, value_type(element)),
                )
        }),
        acquires(c, later, element),
        pops_into(c, later, element, option),
    ensures
        ({
            let code = pop_code(c, start(), element, tuple, option);
            let slots = append_code(c, start(), element).slots;
            &&& booted(code, l.memory).comes_to(
                code,
                later,
                popped(c, code, later, element, option, held, l.memory),
            )
            &&& held.len() == items.len() + 1
            &&& all_copied(c, o, element, slots, before, items, l.memory, shorter(held))
            &&& copied(c, o, element, slots, before, x, l.memory, held.last())
        }),
{
    let slots = append_code(c, start(), element).slots;
    let n = items.len() as int;
    let all = items.push(x);
    assert(copied(c, o, element, slots, before, all[n], l.memory, held[n]));
    assert forall|i: int| 0 <= i < n implies #[trigger] copied(
        c,
        o,
        element,
        slots,
        before,
        items[i],
        l.memory,
        shorter(held)[i],
    ) by {
        assert(copied(c, o, element, slots, before, all[i], l.memory, held[i]));
    }
    pop_takes_the_last(c, element, tuple, option, later, l.memory, held);
}

} // verus!
