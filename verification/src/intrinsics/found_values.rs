//! What look-ups in collections give back.

use vstd::prelude::*;
use crate::ctx::EmitContext;
use crate::emit::enums::enum_value_code;

use crate::emit::variants::{is_variant, known_by, lies_in};
use crate::emit::variants::gave_variant;
use crate::intrinsics::acquiring::{acquires, clones};
use crate::intrinsics::element::acquire_value_code;
use crate::intrinsics::hashtable::lookup::{
    at_none, get_finds_the_value, get_misses, got_value, looked_blocks,
};
use crate::intrinsics::hashtable::probing::{
    found_at, in_table, key_calls, power_of_two, receiver, receives_table, KeyWords,
};
use crate::intrinsics::hashtable::read::{map_get_code, map_get_item_code, read_probe_at, read_probe_code};
use crate::intrinsics::hashtable::util::{extract_code, extracted, HashtableLayout, KeyHashOps, STATE_EMPTY};
use crate::intrinsics::hashtable::writing::{laid_out, value_in};
use crate::intrinsics::list::{get_code, get_item_code, get_load_code};
use crate::intrinsics::list_values::{get_reads_the_item, got, holds_items};
use crate::intrinsics::outcomes::{single_is_returned, single_stands, unit_is_returned, unit_stands};
use crate::ir::{IRSymbol, IRType, IRVariantTag};
use crate::llvm::{gep, num, start, Code, Inst, LType, Val};
use crate::memory::{byte_limit, sound, Memory};
use crate::semantics::{
    arrives, block_begins, booted, byte_count, goes_on, read, seek, slots_stand, stands, tidy, Machine, Outside,
};
use crate::types::value_type;

verus! {

/// The function gave back `Some` of what acquiring a value gives.
pub open spec fn gave_some(c: &EmitContext, o: Outside, option: IRSymbol, ty: IRType, before: Memory, x: int) -> spec_fn(
    Machine,
) -> bool {
    |l: Machine|
        l.returned matches Some(r) && exists|n: Memory, y: int|
            #[trigger] clones(c, o, ty, before, x, n, y) && is_variant(c, o, option, r, 0, seq![y])
}

/// What acquiring a value gives fits where such a value lies.
pub open spec fn acquired_fits(c: &EmitContext, o: Outside, ty: IRType, before: Memory, x: int) -> bool {
    forall|n: Memory, y: int| #[trigger]
        clones(c, o, ty, before, x, n, y) ==> 0 <= y < byte_limit(byte_count(o, value_type(ty)))
}

/// An option of a type is laid out.
pub open spec fn option_fits(c: &EmitContext, o: Outside, option: IRSymbol, ty: IRType) -> bool {
    &&& c.payload(option, 0) == seq![ty]
    &&& !(ty is Indirect)
    &&& c.payload(option, 1).len() == 0
    &&& lies_in(c, o, option, 0)
    &&& lies_in(c, o, option, 1)
}

proof fn acquiring_stays(c: &EmitContext, s: Code, element: IRType, value: Val)
    requires
        s.log.len() + 10 <= usize::MAX,
        known_by(value, s.log.len() as int),
    ensures
        ({
            let (a, v) = acquire_value_code(c, s, element, value);
            &&& a == Code { log: a.log, ..s }
            &&& s.log.len() <= a.log.len() <= s.log.len() + 4
            &&& known_by(v, a.log.len() as int)
            &&& forall|i: int| 0 <= i < s.log.len() ==> #[trigger] a.log[i] == s.log[i]
            &&& forall|i: int| s.log.len() <= i < a.log.len() ==> (#[trigger] a.log[i]).block == s.cur
        }),
{
}

/// The end of a look-up: what was found is given back as `Some`.
proof fn found_is_given_back(
    c: &EmitContext,
    code: Code,
    o: Outside,
    a: Code,
    m: Machine,
    option: IRSymbol,
    ty: IRType,
    owned: Val,
    before: Memory,
    x: int,
)
    requires
        option_fits(c, o, option, ty),
        slots_stand(o, code),
        a.log.len() + 20 <= usize::MAX,
        ({
            let (t, v) = enum_value_code(c, a, option, IRVariantTag(0), seq![owned]);
            stands(code, t.i(Inst::Ret(LType::Enum(option), v)))
        }),
        m.at == a.log.len(),
        m.returned is None,
        known_by(owned, a.log.len() as int),
        clones(c, o, ty, before, x, m.memory, read(o, m.results, owned)),
        acquired_fits(c, o, ty, before, x),
    ensures
        m.comes_to(code, o, gave_some(c, o, option, ty, before, x)),
{
    let y = read(o, m.results, owned);
    single_is_returned(c, code, o, a, m, option, 0, owned);
    let first = gave_variant(c, o, option, 0, seq![y]);
    let goal = gave_some(c, o, option, ty, before, x);
    let n = m.memory;
    assert forall|l: Machine| first(l) implies #[trigger] l.comes_to(code, o, goal) by {
        assert(clones(c, o, ty, before, x, n, y));
        arrives(l, code, o, goal);
    }
    goes_on(m, code, o, first, goal);
}

/// `List.get` gives back `Some` of the element at the index where there is
/// one, and `None` elsewhere.
pub proof fn list_get_gives_back_the_item(
    c: &EmitContext,
    element: IRType,
    option: IRSymbol,
    o: Outside,
    memory: Memory,
    items: Seq<int>,
)
    requires
        ({
            let size = byte_count(o, value_type(element));
            &&& (o.parts)(0, 1) == items.len()
            &&& items.len() <= u64::MAX
            &&& size <= u64::MAX
            &&& 0 <= (o.parts)(0, 0) <= u64::MAX
            &&& holds_items(memory, (o.parts)(0, 0), size, items)
        }),
        acquires(c, o, element),
        sound(memory),
        0 <= (o.values)(Val::Param(1)) <= u64::MAX,
        option_fits(c, o, option, element),
        slots_stand(o, get_code(c, start(), element, option)),
        forall|i: int| 0 <= i < items.len() ==> acquired_fits(c, o, element, memory, #[trigger] items[i]),
    ensures
        ({
            let code = get_code(c, start(), element, option);
            let index = (o.values)(Val::Param(1));
            booted(code, memory).comes_to(
                code,
                o,
                if index < items.len() {
                    gave_some(c, o, option, element, memory, items[index])
                } else {
                    gave_variant(c, o, option, 1, seq![])
                },
            )
        }),
{
    let s = start();
    let code = get_code(c, s, element, option);
    let index = (o.values)(Val::Param(1));
    let g = get_load_code(s, element);
    let (a, value) = get_item_code(c, s, element);
    acquiring_stays(c, g, element, s.v(6));
    let (w, some) = enum_value_code(c, a, option, IRVariantTag(0), seq![value]);
    let x = w.i(Inst::Ret(LType::Enum(option), some));
    let r = x.at(s.b(1));
    let (n, none) = enum_value_code(c, r, option, IRVariantTag(1), seq![]);
    assert(code == n.i(Inst::Ret(LType::Enum(option), none)));
    single_stands(c, a, option, 0, value);
    unit_stands(c, r, option, 1);
    assert(stands(code, r));
    assert(stands(code, x));
    get_reads_the_item(c, element, option, o, memory, items);
    let half = got(c, code, o, element, items, index, memory);
    let goal = if index < items.len() {
        gave_some(c, o, option, element, memory, items[index])
    } else {
        gave_variant(c, o, option, 1, seq![])
    };
    assert forall|i: int| 0 <= i < r.log.len() implies (#[trigger] r.log[i]).block != r.cur by {
        if i < g.log.len() {
            assert(a.log[i] == g.log[i]);
        } else if i < a.log.len() {
            assert(a.log[i].block == g.cur);
        } else if i < w.log.len() {
            assert(w.log[i].block == a.cur);
        }
    }
    block_begins(code, r);
    assert forall|l: Machine| half(l) implies #[trigger] l.comes_to(code, o, goal) by {
        if index < items.len() {
            assert(acquired_fits(c, o, element, memory, items[index]));
            found_is_given_back(c, code, o, a, l, option, element, value, memory, items[index]);
        } else {
            unit_is_returned(c, code, o, r, l, option, 1);
        }
    }
    goes_on(booted(code, memory), code, o, half, goal);
}

/// The pieces of a `Map.get`.
proof fn map_get_is_made_of_pieces(
    c: &EmitContext,
    o: Outside,
    layout: HashtableLayout,
    ops: KeyHashOps,
    value_ty: IRType,
    option: IRSymbol,
) -> (r: Code)
    requires
        option_fits(c, o, option, value_ty),
    ensures
        ({
            let code = map_get_code(c, start(), layout, ops, value_ty, option);
            let (a, owned) = map_get_item_code(c, start(), layout, ops, value_ty);
            let (w, some) = enum_value_code(c, a, option, IRVariantTag(0), seq![owned]);
            let x = w.i(Inst::Ret(LType::Enum(option), some));
            let (n, none) = enum_value_code(c, r, option, IRVariantTag(1), seq![]);
            &&& r == x.at(5)
            &&& code == n.i(Inst::Ret(LType::Enum(option), none))
            &&& a.log.len() <= 40
            &&& r.log.len() <= 60
            &&& known_by(owned, a.log.len() as int)
            &&& stands(code, x)
            &&& stands(code, r)
            &&& seek(code.log, 5, 0) == r.log.len()
        }),
{
    let s = start();
    let code = map_get_code(c, s, layout, ops, value_ty, option);
    let t = extract_code(s, Val::Param(0));
    let probe = read_probe_at(t);
    let p = read_probe_code(t, layout, extracted(s), Val::Param(1), ops);
    let found = p.at(probe.found_bb);
    assert(probe.found_bb == 4 && probe.not_found_bb == 5 && probe.e_ptr == Val::At(16));
    assert(tidy(t));
    let f = found.i(gep(probe.e_ptr, num(layout.key_size))).i(Inst::Load(value_type(value_ty), found.v(0)));
    looked_blocks(layout, ops);
    acquiring_stays(c, f, value_ty, found.v(1));
    let (a, owned) = map_get_item_code(c, s, layout, ops, value_ty);
    let (w, some) = enum_value_code(c, a, option, IRVariantTag(0), seq![owned]);
    let x = w.i(Inst::Ret(LType::Enum(option), some));
    let r = x.at(5);
    let (n, none) = enum_value_code(c, r, option, IRVariantTag(1), seq![]);
    assert(code == n.i(Inst::Ret(LType::Enum(option), none)));
    single_stands(c, a, option, 0, owned);
    unit_stands(c, r, option, 1);
    assert(stands(code, r));
    assert(stands(code, x));
    assert forall|i: int| 0 <= i < r.log.len() implies (#[trigger] r.log[i]).block != r.cur by {
        if i < f.log.len() {
            assert(a.log[i] == f.log[i]);
            if i < 23 {
                assert(f.log[i] == p.log[i]);
            }
        } else if i < a.log.len() {
            assert(a.log[i].block == f.cur);
        } else if i < w.log.len() {
            assert(w.log[i].block == a.cur);
        }
    }
    block_begins(code, r);
    r
}

/// `Map.get` of a key that a look-up ends at gives back `Some` of the
/// value beside it.
pub proof fn map_get_gives_back_the_value(
    c: &EmitContext,
    o: Outside,
    memory: Memory,
    layout: HashtableLayout,
    ops: KeyHashOps,
    value_ty: IRType,
    option: IRSymbol,
    k: KeyWords,
    b: int,
)
    requires
        acquires(c, o, value_ty),
        sound(memory),
        receives_table(o),
        k.key == (o.values)(Val::Param(1)),
        key_calls(o, ops, memory, k),
        ({
            let t = receiver(o, memory, layout, ops.key_basic_ty);
            &&& laid_out(o, t)
            &&& power_of_two(t.capacity)
            &&& layout.key_size <= t.entry_size
            &&& found_at(o, t, k, b)
            &&& acquired_fits(c, o, value_ty, memory, value_in(o, t, layout, value_type(value_ty), b))
        }),
        option_fits(c, o, option, value_ty),
        slots_stand(o, map_get_code(c, start(), layout, ops, value_ty, option)),
    ensures
        ({
            let code = map_get_code(c, start(), layout, ops, value_ty, option);
            let t = receiver(o, memory, layout, ops.key_basic_ty);
            booted(code, memory).comes_to(
                code,
                o,
                gave_some(c, o, option, value_ty, memory, value_in(o, t, layout, value_type(value_ty), b)),
            )
        }),
{
    let code = map_get_code(c, start(), layout, ops, value_ty, option);
    let t = receiver(o, memory, layout, ops.key_basic_ty);
    let value = value_in(o, t, layout, value_type(value_ty), b);
    let r = map_get_is_made_of_pieces(c, o, layout, ops, value_ty, option);
    let (a, owned) = map_get_item_code(c, start(), layout, ops, value_ty);
    get_finds_the_value(c, o, memory, layout, ops, value_ty, option, k, b);
    let half = got_value(c, o, layout, ops, value_ty, value, memory);
    let goal = gave_some(c, o, option, value_ty, memory, value);
    assert forall|l: Machine| half(l) implies #[trigger] l.comes_to(code, o, goal) by {
        found_is_given_back(c, code, o, a, l, option, value_ty, owned, memory, value);
    }
    goes_on(booted(code, memory), code, o, half, goal);
}

/// `Map.get` of a key that is not in the table gives back `None`.
pub proof fn map_get_gives_back_none(
    c: &EmitContext,
    o: Outside,
    memory: Memory,
    layout: HashtableLayout,
    ops: KeyHashOps,
    value_ty: IRType,
    option: IRSymbol,
    k: KeyWords,
    empty: int,
)
    requires
        receives_table(o),
        k.key == (o.values)(Val::Param(1)),
        key_calls(o, ops, memory, k),
        ({
            let t = receiver(o, memory, layout, ops.key_basic_ty);
            &&& power_of_two(t.capacity)
            &&& 0 <= empty < t.capacity
            &&& t.state(empty) == STATE_EMPTY
            &&& !in_table(o, t, k)
        }),
        option_fits(c, o, option, value_ty),
        slots_stand(o, map_get_code(c, start(), layout, ops, value_ty, option)),
    ensures
        ({
            let code = map_get_code(c, start(), layout, ops, value_ty, option);
            booted(code, memory).comes_to(code, o, gave_variant(c, o, option, 1, seq![]))
        }),
{
    let code = map_get_code(c, start(), layout, ops, value_ty, option);
    let r = map_get_is_made_of_pieces(c, o, layout, ops, value_ty, option);
    get_misses(c, o, memory, layout, ops, value_ty, option, k, empty);
    let half = at_none(code);
    let goal = gave_variant(c, o, option, 1, seq![]);
    assert forall|l: Machine| half(l) implies #[trigger] l.comes_to(code, o, goal) by {
        unit_is_returned(c, code, o, r, l, option, 1);
    }
    goes_on(booted(code, memory), code, o, half, goal);
}

} // verus!
