//! What acquiring and releasing elements does to a running body.
//!
//! An element that owns heap is acquired through a reference count or
//! through the clone glue of its type. Reference counts are not among what
//! is taken: they may change at any time. What is proved here holds of a
//! run in which no release is the last one of its value.

use vstd::prelude::*;
use crate::ctx::{EmitContext, GlueKind};
use crate::emit::heap_layout::{heap_leaf, NEG_HEADER};
use crate::intrinsics::element::{
    acquire_in_slot_code, acquire_value_code, element_slot_code, heap_owner, loop_begin, loop_end,
    release_in_slot_code, walk_buffer_code, Walk,
};
use crate::intrinsics::list_values::{holds_items, item, item_fits, items_apart, kept_bytes_hold_items};
use crate::ir::IRType;
use crate::llvm::{a1, call, gep, is_null, num, BinOp, Callee, Code, Entry, Inst, LType, Pred, Val};
use crate::memory::{
    address_in_range, all_taken, byte, byte_limit, byte_limit_is_power, in_memory, none_taken, number,
    number_of_bytes, sound, spares, store_is_read_back, store_spares_others, stored, with_byte, Memory,
};
use crate::runtime::Rt;
use crate::semantics::{
    arguments, beginning_stands, begins_as, branches, byte_count, calls, combines, jumps, loads, moves,
    multiplies, picks, read, seek_finds, stores, tests, tidy, Machine, Outside,
};
use crate::types::value_type;

verus! {

/// Memory goes on: what is taken stays taken and keeps its bytes, and
/// blocks stay what they are.
pub open spec fn grows(before: Memory, after: Memory) -> bool {
    &&& spares(before, after)
    &&& sound(after)
    &&& forall|p: int, n: int|
        before.blocks.contains_pair(p, n) ==> #[trigger] after.blocks.contains_pair(p, n)
}

/// A call leaves alone whatever is taken.
pub open spec fn harmless(o: Outside, callee: Callee) -> bool {
    forall|args: Seq<int>, memory: Memory|
        args.len() == 1 && sound(memory) ==> grows(
            memory,
            (#[trigger] (o.calls)(callee, args, memory)).1,
        )
}

/// Acquiring an element of a type leaves alone whatever is taken, and what
/// it gives has the size of an element.
pub open spec fn acquires(c: &EmitContext, o: Outside, element: IRType) -> bool {
    if heap_leaf(element) {
        harmless(o, Callee::Runtime(Rt::RcInc))
    } else {
        c.glue_of(GlueKind::Clone, element) matches Some(k) ==> {
            &&& harmless(o, Callee::Function(k))
            &&& forall|args: Seq<int>, memory: Memory|
                args.len() == 1 && sound(memory) ==> 0 <= (#[trigger] (o.calls)(
                    Callee::Function(k),
                    args,
                    memory,
                )).0 < byte_limit(byte_count(o, value_type(element)))
        }
    }
}

/// Acquiring `x` in memory `m` gives `y` and leaves memory `n`: a heap leaf
/// itself, after one more owner is counted, what the clone glue of a
/// composite gives, and anything else itself.
pub open spec fn clones(
    c: &EmitContext,
    o: Outside,
    element: IRType,
    m: Memory,
    x: int,
    n: Memory,
    y: int,
) -> bool {
    if heap_leaf(element) {
        y == x && grows(m, n)
    } else {
        match c.glue_of(GlueKind::Clone, element) {
            Some(k) => (o.calls)(Callee::Function(k), seq![x], m) == (y, n),
            None => y == x && m == n,
        }
    }
}

/// Acquiring an element of a type gives the same word.
pub open spec fn keeps_word(c: &EmitContext, o: Outside, element: IRType) -> bool {
    &&& acquires(c, o, element)
    &&& forall|m: Memory, x: int, n: Memory, y: int| #[trigger] clones(c, o, element, m, x, n, y) ==> y == x
}

/// What acquiring an element gives has the size of an element.
pub proof fn clone_fits(
    c: &EmitContext,
    o: Outside,
    element: IRType,
    m: Memory,
    x: int,
    n: Memory,
    y: int,
)
    requires
        acquires(c, o, element),
        clones(c, o, element, m, x, n, y),
        sound(m),
        0 <= x < byte_limit(byte_count(o, value_type(element))),
    ensures
        0 <= y < byte_limit(byte_count(o, value_type(element))),
{
    assert(seq![x].len() == 1);
}

/// Releasing an element of a type leaves alone whatever is taken.
pub open spec fn releases_harmlessly(c: &EmitContext, o: Outside, element: IRType) -> bool {
    if heap_leaf(element) {
        harmless(o, Callee::Runtime(Rt::RcDec))
    } else {
        c.glue_of(GlueKind::Drop, element) matches Some(k) ==> harmless(o, Callee::Function(k))
    }
}

/// A fragment of a body: it is recorded from where the machine stands on,
/// and the block that it ends in goes on behind it.
pub open spec fn stands_at(code: Code, s: Code, fragment: Code, m: Machine) -> bool {
    &&& begins_as(code, fragment)
    &&& m.at == s.log.len()
    &&& m.returned is None
    &&& fragment.log.len() < code.log.len()
    &&& code.log[fragment.log.len() as int].block == fragment.cur
}

/// The machine behind a fragment: what was known before is known still.
pub open spec fn behind(code: Code, o: Outside, s: Code, fragment: Code, m: Machine, l: Machine) -> bool {
    &&& m.leads_to(code, o, l)
    &&& l.at == fragment.log.len()
    &&& l.returned is None
    &&& l.parts == m.parts
    &&& forall|i: usize| i < s.log.len() ==> #[trigger] l.results[i] == m.results[i]
}

/// Growing and growing again.
pub proof fn grows_further(a: Memory, b: Memory, d: Memory)
    requires
        grows(a, b),
        grows(b, d),
    ensures
        grows(a, d),
{
    assert forall|q: int| #[trigger] a.taken.contains(q) implies d.taken.contains(q) && byte(d, q)
        == byte(a, q) by {
        assert(b.taken.contains(q));
    }
    assert forall|p: int, n: int| a.blocks.contains_pair(p, n) implies #[trigger] d.blocks.contains_pair(
        p,
        n,
    ) by {
        assert(b.blocks.contains_pair(p, n));
    }
}

/// One more owner is counted.
proof fn counting_runs(code: Code, o: Outside, s: Code, m: Machine, payload: Val, rt: Rt) -> (l: Machine)
    requires
        ({
            let at = |k: int| Val::At((s.log.len() + k) as usize);
            let n = s.log.len() as int;
            &&& n + 4 < code.log.len() <= usize::MAX
            &&& code.log[n] == (Entry { block: s.cur, inst: gep(payload, num(NEG_HEADER)) })
            &&& code.log[n + 1] == (Entry { block: s.cur, inst: is_null(payload) })
            &&& code.log[n + 2] == (Entry {
                block: s.cur,
                inst: Inst::Select(LType::Ptr, at(1), Val::Null, at(0)),
            })
            &&& code.log[n + 3] == (Entry { block: s.cur, inst: call(rt, a1(at(2))) })
            &&& code.log[n + 4].block == s.cur
        }),
        m.at == s.log.len(),
        m.returned is None,
        sound(m.memory),
        harmless(o, Callee::Runtime(rt)),
    ensures
        m.leads_to(code, o, l),
        l.at == s.log.len() + 4,
        l.returned is None,
        l.parts == m.parts,
        forall|i: usize| i < s.log.len() ==> #[trigger] l.results[i] == m.results[i],
        grows(m.memory, l.memory),
{
    let at = |k: int| Val::At((s.log.len() + k) as usize);
    moves(m, code, o, payload, num(NEG_HEADER));
    let m1 = m.step(code, o);
    tests(m1, code, o, Pred::Eq, LType::Ptr, payload, Val::Null);
    let m2 = m1.step(code, o);
    picks(m2, code, o, LType::Ptr, at(1), Val::Null, at(0));
    let m3 = m2.step(code, o);
    calls(m3, code, o, Callee::Runtime(rt), a1(at(2)));
    let args = arguments(o, m3.results, a1(at(2)));
    assert(args.len() == 1) by {
        reveal_with_fuel(arguments, 2);
    }
    m3.step(code, o)
}

/// Acquiring a value leaves alone whatever is taken.
pub proof fn acquire_value_runs(
    c: &EmitContext,
    code: Code,
    o: Outside,
    s: Code,
    m: Machine,
    element: IRType,
    value: Val,
) -> (l: Machine)
    requires
        stands_at(code, s, acquire_value_code(c, s, element, value).0, m),
        s.defines(value),
        acquires(c, o, element),
        sound(m.memory),
    ensures
        behind(code, o, s, acquire_value_code(c, s, element, value).0, m, l),
        grows(m.memory, l.memory),
        clones(
            c,
            o,
            element,
            m.memory,
            read(o, m.results, value),
            l.memory,
            read(o, l.results, acquire_value_code(c, s, element, value).1),
        ),
{
    let (fragment, owned) = acquire_value_code(c, s, element, value);
    beginning_stands(code, fragment);
    if heap_leaf(element) {
        counting_runs(code, o, s, m, value, Rt::RcInc)
    } else {
        match c.glue_of(GlueKind::Clone, element) {
            Some(k) => {
                calls(m, code, o, Callee::Function(k), a1(value));
                let args = arguments(o, m.results, a1(value));
                assert(args =~= seq![read(o, m.results, value)]) by {
                    reveal_with_fuel(arguments, 2);
                }
                m.step(code, o)
            },
            None => {
                assert(grows(m.memory, m.memory));
                m
            },
        }
    }
}

/// Two memories that agree on what was taken, but for a range.
pub open spec fn grows_but(before: Memory, after: Memory, p: int, n: int) -> bool {
    &&& forall|q: int| #[trigger]
        before.taken.contains(q) ==> after.taken.contains(q) && (p <= q < p + n || byte(after, q)
            == byte(before, q))
    &&& sound(after)
    &&& forall|b: int, k: int|
        before.blocks.contains_pair(b, k) ==> #[trigger] after.blocks.contains_pair(b, k)
}

/// Acquiring what is in a slot replaces it by what that gives, and leaves
/// alone whatever else is taken. The second result is the memory before the
/// replacement.
pub proof fn acquire_in_slot_runs(
    c: &EmitContext,
    code: Code,
    o: Outside,
    s: Code,
    m: Machine,
    element: IRType,
    slot: Val,
) -> (r: (Machine, Memory))
    requires
        stands_at(code, s, acquire_in_slot_code(c, s, element, slot), m),
        s.defines(slot),
        acquires(c, o, element),
        sound(m.memory),
        in_memory(read(o, m.results, slot), byte_count(o, value_type(element)) as int),
        all_taken(
            m.memory,
            read(o, m.results, slot),
            byte_count(o, value_type(element)) as int,
        ),
    ensures
        behind(code, o, s, acquire_in_slot_code(c, s, element, slot), m, r.0),
        ({
            let n = byte_count(o, value_type(element));
            let p = read(o, m.results, slot);
            let l = r.0;
            &&& grows_but(m.memory, l.memory, p, n as int)
            &&& grows(m.memory, r.1)
            &&& grows_but(r.1, l.memory, p, n as int)
            &&& clones(
                c,
                o,
                element,
                m.memory,
                number(m.memory, p, n),
                r.1,
                number(l.memory, p, n),
            )
        }),
{
    let fragment = acquire_in_slot_code(c, s, element, slot);
    let n = byte_count(o, value_type(element));
    let p = read(o, m.results, slot);
    let x = number(m.memory, p, n);
    beginning_stands(code, fragment);
    if heap_leaf(element) {
        loads(m, code, o, LType::Ptr, slot);
        let m1 = m.step(code, o);
        let t = s.i(Inst::Load(LType::Ptr, slot));
        let l = counting_runs(code, o, t, m1, s.v(0), Rt::RcInc);
        spared_number(m.memory, l.memory, p, n);
        (l, l.memory)
    } else {
        match c.glue_of(GlueKind::Clone, element) {
            Some(k) => {
                loads(m, code, o, value_type(element), slot);
                let m1 = m.step(code, o);
                calls(m1, code, o, Callee::Function(k), a1(s.v(0)));
                let args = arguments(o, m1.results, a1(s.v(0)));
                assert(args =~= seq![x]) by {
                    reveal_with_fuel(arguments, 2);
                }
                let m2 = m1.step(code, o);
                let y = m2.results[(s.log.len() + 1) as usize];
                assert(clones(c, o, element, m.memory, x, m2.memory, y));
                assert(read(o, m2.results, slot) == p);
                stores(m2, code, o, value_type(element), s.v(1), slot);
                let l = m2.step(code, o);
                assert(l.memory == stored(m2.memory, p, y, n));
                store_is_read_back(m2.memory, p, y, n);
                stored_keeps_shape(m2.memory, p, y, n);
                assert forall|q: int| #[trigger] m2.memory.taken.contains(
                    q,
                ) implies l.memory.taken.contains(q) && (p <= q < p + n || byte(l.memory, q) == byte(
                    m2.memory,
                    q,
                )) by {
                    assert(0 <= q <= u64::MAX);
                    if !(p <= q < p + n) {
                        store_spares_others(m2.memory, p, y, n, q);
                    }
                }
                assert forall|q: int| #[trigger] m.memory.taken.contains(
                    q,
                ) implies l.memory.taken.contains(q) && (p <= q < p + n || byte(l.memory, q) == byte(
                    m.memory,
                    q,
                )) by {
                    assert(m2.memory.taken.contains(q));
                }
                (l, m2.memory)
            },
            None => {
                assert(grows(m.memory, m.memory));
                (m, m.memory)
            },
        }
    }
}

/// A number of taken bytes stays while whatever is taken is spared.
pub proof fn spared_number(before: Memory, after: Memory, p: int, n: nat)
    requires
        spares(before, after),
        all_taken(before, p, n as int),
    ensures
        number(after, p, n) == number(before, p, n),
{
    assert forall|i: int| 0 <= i < n implies #[trigger] byte(after, p + i) == byte(before, p + i) by {
        assert(before.taken.contains(p + i));
    }
    number_of_bytes(after, p, before, p, n);
}

/// A store changes neither what is taken nor the blocks.
pub proof fn stored_keeps_shape(memory: Memory, p: int, x: int, n: nat)
    ensures
        stored(memory, p, x, n).taken == memory.taken,
        stored(memory, p, x, n).blocks == memory.blocks,
    decreases n,
{
    if n > 0 {
        stored_keeps_shape(
            with_byte(memory, p, (x % 0x100) as u8),
            p + 1,
            x / 0x100,
            (n - 1) as nat,
        );
    }
}

/// Releasing what is in a slot leaves alone whatever is taken.
pub proof fn release_in_slot_runs(
    c: &EmitContext,
    code: Code,
    o: Outside,
    s: Code,
    m: Machine,
    element: IRType,
    slot: Val,
) -> (l: Machine)
    requires
        stands_at(code, s, release_in_slot_code(c, s, element, slot), m),
        releases_harmlessly(c, o, element),
        sound(m.memory),
    ensures
        behind(code, o, s, release_in_slot_code(c, s, element, slot), m, l),
        grows(m.memory, l.memory),
{
    let fragment = release_in_slot_code(c, s, element, slot);
    beginning_stands(code, fragment);
    if heap_leaf(element) {
        loads(m, code, o, LType::Ptr, slot);
        let m1 = m.step(code, o);
        let t = s.i(Inst::Load(LType::Ptr, slot));
        counting_runs(code, o, t, m1, s.v(0), Rt::RcDec)
    } else {
        match c.glue_of(GlueKind::Drop, element) {
            Some(k) => {
                loads(m, code, o, value_type(element), slot);
                let m1 = m.step(code, o);
                calls(m1, code, o, Callee::Function(k), a1(s.v(0)));
                let args = arguments(o, m1.results, a1(s.v(0)));
                assert(args.len() == 1) by {
                    reveal_with_fuel(arguments, 2);
                }
                m1.step(code, o)
            },
            None => m,
        }
    }
}

/// The address of a stack slot.
pub open spec fn slot_at(o: Outside, k: usize) -> int {
    (o.values)(Val::Slot(k))
}

/// The size of a stack slot in bytes.
pub open spec fn slot_size(o: Outside, slots: Seq<LType>, k: usize) -> int {
    byte_count(o, slots[k as int]) as int
}

/// A counter in a stack slot.
pub open spec fn counts_in(slots: Seq<LType>, k: nat) -> bool {
    k < slots.len() <= usize::MAX && slots[k as int] == LType::I64
}

/// An address in one of the stack slots.
pub open spec fn in_frame(o: Outside, slots: Seq<LType>, q: int) -> bool {
    exists|k: usize|
        k < slots.len() && #[trigger] slot_at(o, k) <= q < slot_at(o, k) + slot_size(o, slots, k)
}

/// The stack slots are taken and lie apart.
pub open spec fn frame(o: Outside, slots: Seq<LType>, memory: Memory) -> bool {
    &&& forall|k: usize|
        k < slots.len() ==> in_memory(#[trigger] slot_at(o, k), slot_size(o, slots, k)) && all_taken(
            memory,
            slot_at(o, k),
            slot_size(o, slots, k),
        )
    &&& forall|j: usize, k: usize|
        j < k < slots.len() ==> #[trigger] slot_at(o, j) + slot_size(o, slots, j) <= #[trigger] slot_at(
            o,
            k,
        ) || slot_at(o, k) + slot_size(o, slots, k) <= slot_at(o, j)
}

/// A range that meets no stack slot.
pub open spec fn off_frame(o: Outside, slots: Seq<LType>, p: int, n: int) -> bool {
    forall|q: int| p <= q < p + n ==> !#[trigger] in_frame(o, slots, q)
}

/// What was taken is taken, and has changed at most in the stack slots.
pub open spec fn keeps(o: Outside, slots: Seq<LType>, before: Memory, after: Memory) -> bool {
    &&& forall|q: int| #[trigger]
        before.taken.contains(q) ==> after.taken.contains(q) && (in_frame(o, slots, q) || byte(after, q)
            == byte(before, q))
    &&& sound(after)
}

/// What was taken is taken, and has changed at most in the stack slots and
/// in a range.
pub open spec fn keeps_but(
    o: Outside,
    slots: Seq<LType>,
    before: Memory,
    after: Memory,
    p: int,
    n: int,
) -> bool {
    &&& forall|q: int| #[trigger]
        before.taken.contains(q) ==> after.taken.contains(q) && (in_frame(o, slots, q) || p <= q < p + n
            || byte(after, q) == byte(before, q))
    &&& sound(after)
}

/// What is newly taken in `n` meets neither a stack slot nor a range.
pub open spec fn news_apart(
    o: Outside,
    slots: Seq<LType>,
    p: int,
    len: int,
    m: Memory,
    n: Memory,
) -> bool {
    forall|q: int| #[trigger]
        n.taken.contains(q) && !m.taken.contains(q) ==> !in_frame(o, slots, q) && !(p <= q < p + len)
}

/// `y` was made by acquiring `x` after `before`, and since then at most the
/// stack slots and a range have changed, which what was taken for `y` does
/// not meet.
pub open spec fn made(
    c: &EmitContext,
    o: Outside,
    element: IRType,
    slots: Seq<LType>,
    own: (int, int),
    before: Memory,
    x: int,
    after: Memory,
    y: int,
) -> bool {
    exists|m: Memory, n: Memory| #[trigger]
        clones(c, o, element, m, x, n, y) && keeps_but(o, slots, before, m, own.0, own.1) && news_apart(
            o,
            slots,
            own.0,
            own.1,
            m,
            n,
        ) && keeps_but(o, slots, n, after, own.0, own.1)
}

/// Each of `held` was made of its one of `items`.
pub open spec fn all_made(
    c: &EmitContext,
    o: Outside,
    element: IRType,
    slots: Seq<LType>,
    own: (int, int),
    before: Memory,
    items: Seq<int>,
    after: Memory,
    held: Seq<int>,
) -> bool {
    &&& held.len() == items.len()
    &&& forall|i: int|
        0 <= i < items.len() ==> #[trigger] made(
            c,
            o,
            element,
            slots,
            own,
            before,
            items[i],
            after,
            held[i],
        )
}

/// Whatever `n` has and `m` had not is in `after` as it is in `n`.
pub open spec fn news_stay(m: Memory, n: Memory, after: Memory) -> bool {
    forall|q: int| #[trigger]
        n.taken.contains(q) && !m.taken.contains(q) ==> after.taken.contains(q) && byte(after, q) == byte(
            n,
            q,
        )
}

/// `y` is an independent copy of `x`: it was made by acquiring `x` in a
/// memory that had whatever was taken before, unchanged but for the stack
/// slots, and whatever was taken for it is in `after` as it was made.
pub open spec fn copied(
    c: &EmitContext,
    o: Outside,
    element: IRType,
    slots: Seq<LType>,
    before: Memory,
    x: int,
    after: Memory,
    y: int,
) -> bool {
    exists|m: Memory, n: Memory| #[trigger]
        clones(c, o, element, m, x, n, y) && keeps(o, slots, before, m) && news_stay(m, n, after)
}

/// Each of `held` is an independent copy of its one of `items`.
pub open spec fn all_copied(
    c: &EmitContext,
    o: Outside,
    element: IRType,
    slots: Seq<LType>,
    before: Memory,
    items: Seq<int>,
    after: Memory,
    held: Seq<int>,
) -> bool {
    &&& held.len() == items.len()
    &&& forall|i: int|
        0 <= i < items.len() ==> #[trigger] copied(
            c,
            o,
            element,
            slots,
            before,
            items[i],
            after,
            held[i],
        )
}

/// What was made after a memory was made after an earlier one.
pub proof fn made_earlier(
    c: &EmitContext,
    o: Outside,
    element: IRType,
    slots: Seq<LType>,
    own: (int, int),
    before: Memory,
    x: int,
    after: Memory,
    y: int,
    earlier: Memory,
)
    requires
        made(c, o, element, slots, own, before, x, after, y),
        keeps_but(o, slots, earlier, before, own.0, own.1),
    ensures
        made(c, o, element, slots, own, earlier, x, after, y),
{
    let (m, n) = choose|m: Memory, n: Memory| #[trigger]
        clones(c, o, element, m, x, n, y) && keeps_but(o, slots, before, m, own.0, own.1) && news_apart(
            o,
            slots,
            own.0,
            own.1,
            m,
            n,
        ) && keeps_but(o, slots, n, after, own.0, own.1);
    keeps_on(o, slots, earlier, before, m, own.0, own.1);
    assert(clones(c, o, element, m, x, n, y));
}

/// What was made after a memory was made after an earlier one.
pub proof fn all_made_earlier(
    c: &EmitContext,
    o: Outside,
    element: IRType,
    slots: Seq<LType>,
    own: (int, int),
    before: Memory,
    items: Seq<int>,
    after: Memory,
    held: Seq<int>,
    earlier: Memory,
)
    requires
        all_made(c, o, element, slots, own, before, items, after, held),
        keeps_but(o, slots, earlier, before, own.0, own.1),
    ensures
        all_made(c, o, element, slots, own, earlier, items, after, held),
{
    assert forall|i: int| 0 <= i < items.len() implies #[trigger] made(
        c,
        o,
        element,
        slots,
        own,
        earlier,
        items[i],
        after,
        held[i],
    ) by {
        assert(made(c, o, element, slots, own, before, items[i], after, held[i]));
        made_earlier(c, o, element, slots, own, before, items[i], after, held[i], earlier);
    }
}

/// What was made is there later.
pub proof fn made_later(
    c: &EmitContext,
    o: Outside,
    element: IRType,
    slots: Seq<LType>,
    own: (int, int),
    before: Memory,
    x: int,
    after: Memory,
    y: int,
    later: Memory,
)
    requires
        made(c, o, element, slots, own, before, x, after, y),
        keeps_but(o, slots, after, later, own.0, own.1),
    ensures
        made(c, o, element, slots, own, before, x, later, y),
{
    let (m, n) = choose|m: Memory, n: Memory| #[trigger]
        clones(c, o, element, m, x, n, y) && keeps_but(o, slots, before, m, own.0, own.1) && news_apart(
            o,
            slots,
            own.0,
            own.1,
            m,
            n,
        ) && keeps_but(o, slots, n, after, own.0, own.1);
    keeps_on(o, slots, n, after, later, own.0, own.1);
    assert(clones(c, o, element, m, x, n, y));
}

/// What was made is there later.
pub proof fn all_made_later(
    c: &EmitContext,
    o: Outside,
    element: IRType,
    slots: Seq<LType>,
    own: (int, int),
    before: Memory,
    items: Seq<int>,
    after: Memory,
    held: Seq<int>,
    later: Memory,
)
    requires
        all_made(c, o, element, slots, own, before, items, after, held),
        keeps_but(o, slots, after, later, own.0, own.1),
    ensures
        all_made(c, o, element, slots, own, before, items, later, held),
{
    assert forall|i: int| 0 <= i < items.len() implies #[trigger] made(
        c,
        o,
        element,
        slots,
        own,
        before,
        items[i],
        later,
        held[i],
    ) by {
        assert(made(c, o, element, slots, own, before, items[i], after, held[i]));
        made_later(c, o, element, slots, own, before, items[i], after, held[i], later);
    }
}

/// What was made after a memory was made after an earlier one, and beside a
/// wider range, where that was taken.
pub proof fn all_made_wider(
    c: &EmitContext,
    o: Outside,
    element: IRType,
    slots: Seq<LType>,
    own: (int, int),
    before: Memory,
    items: Seq<int>,
    after: Memory,
    held: Seq<int>,
    earlier: Memory,
    wide: (int, int),
)
    requires
        all_made(c, o, element, slots, own, before, items, after, held),
        keeps_but(o, slots, earlier, before, wide.0, wide.1),
        all_taken(before, wide.0, wide.1),
        own.1 <= 0 || wide.0 <= own.0 && own.0 + own.1 <= wide.0 + wide.1,
    ensures
        all_made(c, o, element, slots, wide, earlier, items, after, held),
{
    assert forall|i: int| 0 <= i < items.len() implies #[trigger] made(
        c,
        o,
        element,
        slots,
        wide,
        earlier,
        items[i],
        after,
        held[i],
    ) by {
        let (x, y) = (items[i], held[i]);
        assert(made(c, o, element, slots, own, before, x, after, y));
        let (m, n) = choose|m: Memory, n: Memory| #[trigger]
            clones(c, o, element, m, x, n, y) && keeps_but(o, slots, before, m, own.0, own.1)
                && news_apart(o, slots, own.0, own.1, m, n) && keeps_but(
                o,
                slots,
                n,
                after,
                own.0,
                own.1,
            );
        assert(keeps_but(o, slots, before, m, wide.0, wide.1));
        keeps_on(o, slots, earlier, before, m, wide.0, wide.1);
        assert forall|q: int| #[trigger]
            n.taken.contains(q) && !m.taken.contains(q) implies !in_frame(o, slots, q) && !(wide.0 <= q
            < wide.0 + wide.1) by {
            if wide.0 <= q < wide.0 + wide.1 {
                assert(before.taken.contains(q));
            }
        }
        assert(clones(c, o, element, m, x, n, y));
    }
}

/// What was made beside a range that was not taken before is an independent
/// copy.
pub proof fn made_is_copied(
    c: &EmitContext,
    o: Outside,
    element: IRType,
    slots: Seq<LType>,
    own: (int, int),
    before: Memory,
    x: int,
    after: Memory,
    y: int,
)
    requires
        made(c, o, element, slots, own, before, x, after, y),
        none_taken(before, own.0, own.1),
    ensures
        copied(c, o, element, slots, before, x, after, y),
{
    let (m, n) = choose|m: Memory, n: Memory| #[trigger]
        clones(c, o, element, m, x, n, y) && keeps_but(o, slots, before, m, own.0, own.1) && news_apart(
            o,
            slots,
            own.0,
            own.1,
            m,
            n,
        ) && keeps_but(o, slots, n, after, own.0, own.1);
    assert(keeps(o, slots, before, m));
    assert(news_stay(m, n, after));
    assert(clones(c, o, element, m, x, n, y));
}

/// What was made beside a range that was not taken before are independent
/// copies.
pub proof fn all_made_are_copied(
    c: &EmitContext,
    o: Outside,
    element: IRType,
    slots: Seq<LType>,
    own: (int, int),
    before: Memory,
    items: Seq<int>,
    after: Memory,
    held: Seq<int>,
)
    requires
        all_made(c, o, element, slots, own, before, items, after, held),
        none_taken(before, own.0, own.1),
    ensures
        all_copied(c, o, element, slots, before, items, after, held),
{
    assert forall|i: int| 0 <= i < items.len() implies #[trigger] copied(
        c,
        o,
        element,
        slots,
        before,
        items[i],
        after,
        held[i],
    ) by {
        assert(made(c, o, element, slots, own, before, items[i], after, held[i]));
        made_is_copied(c, o, element, slots, own, before, items[i], after, held[i]);
    }
}

/// What is newly taken does not meet stack slots and a range that were
/// taken.
pub proof fn news_are_apart(
    o: Outside,
    slots: Seq<LType>,
    p: int,
    len: int,
    m: Memory,
    n: Memory,
)
    requires
        frame(o, slots, m),
        all_taken(m, p, len) || none_taken(n, p, len),
    ensures
        news_apart(o, slots, p, len, m, n),
{
    assert forall|q: int| #[trigger]
        n.taken.contains(q) && !m.taken.contains(q) implies !in_frame(o, slots, q) && !(p <= q < p + len) by {
        if in_frame(o, slots, q) {
            let k = choose|k: usize|
                k < slots.len() && #[trigger] slot_at(o, k) <= q < slot_at(o, k) + slot_size(
                    o,
                    slots,
                    k,
                );
            assert(m.taken.contains(q));
        }
    }
}

/// What a walk works on: elements in a taken buffer apart from the stack
/// slots.
pub open spec fn walking(
    o: Outside,
    slots: Seq<LType>,
    memory: Memory,
    buf: int,
    size: nat,
    items: Seq<int>,
) -> bool {
    let n = (items.len() * size) as int;
    &&& holds_items(memory, buf, size, items)
    &&& all_taken(memory, buf, n)
    &&& off_frame(o, slots, buf, n)
    &&& frame(o, slots, memory)
    &&& sound(memory)
}

/// Elements stay in place while the counter changes.
proof fn counting_keeps_items(
    o: Outside,
    slots: Seq<LType>,
    memory: Memory,
    buf: int,
    size: nat,
    items: Seq<int>,
    k: usize,
    x: int,
)
    requires
        walking(o, slots, memory, buf, size, items),
        counts_in(slots, k as nat),
        0 <= x <= u64::MAX,
    ensures
        ({
            let after = stored(memory, slot_at(o, k), x, 8);
            &&& walking(o, slots, after, buf, size, items)
            &&& keeps(o, slots, memory, after)
            &&& number(after, slot_at(o, k), 8) == x
        }),
{
    let p = slot_at(o, k);
    let after = stored(memory, p, x, 8);
    byte_limit_is_power(8);
    vstd::arithmetic::power2::lemma2_to64();
    store_is_read_back(memory, p, x, 8);
    stored_keeps_shape(memory, p, x, 8);
    assert forall|q: int| #[trigger] memory.taken.contains(q) implies in_frame(o, slots, q) || byte(
        after,
        q,
    ) == byte(memory, q) by {
        if !(p <= q < p + 8) {
            store_spares_others(memory, p, x, 8, q);
        } else {
            assert(slot_at(o, k) <= q);
        }
    }
    assert forall|q: int| buf <= q < buf + items.len() * size implies #[trigger] byte(after, q) == byte(
        memory,
        q,
    ) by {
        assert(!in_frame(o, slots, q));
        assert(memory.taken.contains(q));
    }
    kept_bytes_hold_items(memory, after, buf, size, items);
}

/// An element acquired in its slot.
proof fn acquiring_keeps_items(
    o: Outside,
    slots: Seq<LType>,
    memory: Memory,
    after: Memory,
    buf: int,
    size: nat,
    items: Seq<int>,
    i: int,
)
    requires
        walking(o, slots, memory, buf, size, items),
        0 <= i < items.len(),
        grows_but(memory, after, buf + i * size, size as int),
    ensures
        walking(o, slots, after, buf, size, items.update(i, number(after, buf + i * size, size))),
        keeps_but(o, slots, memory, after, buf, (items.len() * size) as int),
        forall|k: usize|
            counts_in(slots, k as nat) ==> number(after, #[trigger] slot_at(o, k), 8) == number(
                memory,
                slot_at(o, k),
                8,
            ),
{
    let n = (items.len() * size) as int;
    let b = items.update(i, number(after, buf + i * size, size));
    item_fits(i, size as int, items.len() as int);
    assert(item(memory, buf, size, i) == items[i]);
    assert forall|j: int| 0 <= j < items.len() implies #[trigger] item(after, buf, size, j) == b[j] by {
        if j != i {
            items_apart(i, j, size as int);
            item_fits(j, size as int, items.len() as int);
            assert forall|x: int| 0 <= x < size implies #[trigger] byte(after, buf + j * size + x) == byte(
                memory,
                buf + j * size + x,
            ) by {
                assert(memory.taken.contains(buf + j * size + x));
            }
            number_of_bytes(after, buf + j * size, memory, buf + j * size, size);
            assert(item(memory, buf, size, j) == items[j]);
        }
    }
    assert forall|k: usize| counts_in(slots, k as nat) implies number(after, #[trigger] slot_at(o, k), 8) == number(
        memory,
        slot_at(o, k),
        8,
    ) by {
        let p = slot_at(o, k);
        assert forall|x: int| 0 <= x < 8 implies #[trigger] byte(after, p + x) == byte(memory, p + x) by {
            assert(memory.taken.contains(p + x));
            assert(slot_at(o, k) <= p + x);
            assert(in_frame(o, slots, p + x));
        }
        number_of_bytes(after, p, memory, p, 8);
    }
    assert forall|k: usize| k < slots.len() implies all_taken(
        after,
        #[trigger] slot_at(o, k),
        slot_size(o, slots, k),
    ) by {
        let p = slot_at(o, k);
        assert forall|q: int| p <= q < p + slot_size(o, slots, k) implies #[trigger] after.taken.contains(q) by {
            assert(memory.taken.contains(q));
        }
    }
    assert forall|q: int| buf <= q < buf + n implies #[trigger] after.taken.contains(q) by {
        assert(memory.taken.contains(q));
    }
}

/// Keeping and keeping again.
pub proof fn keeps_on(
    o: Outside,
    slots: Seq<LType>,
    a: Memory,
    b: Memory,
    d: Memory,
    p: int,
    n: int,
)
    requires
        keeps_but(o, slots, a, b, p, n),
        keeps_but(o, slots, b, d, p, n),
    ensures
        keeps_but(o, slots, a, d, p, n),
{
    assert forall|q: int| #[trigger] a.taken.contains(q) implies d.taken.contains(q) && (in_frame(
        o,
        slots,
        q,
    ) || p <= q < p + n || byte(d, q) == byte(a, q)) by {
        assert(b.taken.contains(q));
    }
}

/// The rounds of a walk.
proof fn walk_goes(
    c: &EmitContext,
    code: Code,
    o: Outside,
    s: Code,
    m: Machine,
    element: IRType,
    buf: Val,
    count: Val,
    base: Memory,
    items: Seq<int>,
    mix: Seq<int>,
    slots: Seq<LType>,
    i: int,
) -> (r: (Machine, Seq<int>))
    requires
        ({
            let size = byte_count(o, value_type(element));
            let w = walk_buffer_code(
                c,
                s,
                Walk::Acquire,
                element,
                buf,
                count,
                Val::SizeOf(value_type(element)),
            );
            let p = read(o, m.results, buf);
            let own = (p, (items.len() * size) as int);
            &&& begins_as(code, w)
            &&& w.log.len() < code.log.len()
            &&& code.log[w.log.len() as int].block == w.cur
            &&& counts_in(slots, s.slots.len())
            &&& number(m.memory, slot_at(o, s.slots.len() as usize), 8) == i
            &&& size <= u64::MAX
            &&& walking(o, slots, m.memory, p, size, mix)
            &&& mix.len() == items.len()
            &&& forall|j: int| i <= j < items.len() ==> #[trigger] mix[j] == items[j]
            &&& forall|j: int|
                0 <= j < i ==> #[trigger] made(
                    c,
                    o,
                    element,
                    slots,
                    own,
                    base,
                    items[j],
                    m.memory,
                    mix[j],
                )
            &&& keeps_but(o, slots, base, m.memory, own.0, own.1)
        }),
        heap_owner(c, element),
        tidy(s),
        s.blocks + 3 <= usize::MAX,
        s.defines(buf),
        s.defines(count),
        acquires(c, o, element),
        m.at == s.log.len() + 2,
        m.returned is None,
        read(o, m.results, count) == items.len(),
        0 <= i <= items.len() <= u64::MAX,
    ensures
        ({
            let size = byte_count(o, value_type(element));
            let w = walk_buffer_code(
                c,
                s,
                Walk::Acquire,
                element,
                buf,
                count,
                Val::SizeOf(value_type(element)),
            );
            let p = read(o, m.results, buf);
            let own = (p, (items.len() * size) as int);
            let (l, held) = r;
            &&& behind(code, o, s, w, m, l)
            &&& walking(o, slots, l.memory, p, size, held)
            &&& all_made(c, o, element, slots, own, base, items, l.memory, held)
            &&& keeps_but(o, slots, m.memory, l.memory, p, (items.len() * size) as int)
        }),
    decreases items.len() - i,
{
    let ty = value_type(element);
    let size = byte_count(o, ty);
    let b = loop_begin(s, count);
    let e = element_slot_code(b, buf, s.v(2), Val::SizeOf(ty));
    let f = acquire_in_slot_code(c, e, element, b.v(1));
    let w = loop_end(s, f);
    let n = s.log.len();
    let k = s.slots.len() as usize;
    let p = read(o, m.results, buf);
    let at = |j: int| Val::At((n + j) as usize);
    beginning_stands(code, w);
    assert(f.log.is_prefix_of(w.log));
    assert(e.log.is_prefix_of(f.log));
    assert(w.log.len() == f.log.len() + 3);
    assert(forall|j: int| 0 <= j < n ==> w.log[j] == s.log[j]);
    assert(forall|j: int| n + 5 <= j < w.log.len() ==> (#[trigger] w.log[j]).block == s.b(1));
    seek_finds(code.log, s.b(0), 0, n + 2);
    seek_finds(code.log, s.b(1), 0, n + 5);
    seek_finds(code.log, s.b(2), 0, w.log.len());
    loads(m, code, o, LType::I64, Val::Slot(k));
    let m3 = m.step(code, o);
    tests(m3, code, o, Pred::Ult, LType::I64, at(2), count);
    let m4 = m3.step(code, o);
    branches(m4, code, o, at(3), s.b(1), s.b(2));
    let m5 = m4.step(code, o);
    let own = (p, (items.len() * size) as int);
    if i == items.len() {
        (m5, mix)
    } else {
        item_fits(i, size as int, items.len() as int);
        multiplies(m5, code, o, at(2), Val::SizeOf(ty));
        let m6 = m5.step(code, o);
        address_in_range(i * size);
        assert(m6.results[(n + 5) as usize] == i * size);
        moves(m6, code, o, buf, at(5));
        let m7 = m6.step(code, o);
        address_in_range(p + i * size);
        assert(m7.results[(n + 6) as usize] == p + i * size);
        assert(begins_as(code, f)) by {
            assert(f.log =~= code.log.subrange(0, f.log.len() as int));
        }
        assert forall|q: int|
            p + i * size <= q < p + i * size + size implies #[trigger] m7.memory.taken.contains(q) by {}
        let (m8, mid) = acquire_in_slot_runs(c, code, o, e, m7, element, b.v(1));
        acquiring_keeps_items(o, slots, m.memory, m8.memory, p, size, mix, i);
        let y = number(m8.memory, p + i * size, size);
        let next_mix = mix.update(i, y);
        assert(item(m.memory, p, size, i) == mix[i]);
        news_are_apart(o, slots, own.0, own.1, m.memory, mid);
        assert(keeps_but(o, slots, mid, m8.memory, own.0, own.1));
        assert(clones(c, o, element, m.memory, items[i], mid, y));
        assert(made(c, o, element, slots, own, base, items[i], m8.memory, y));
        assert(m8.results[(n + 2) as usize] == i);
        combines(m8, code, o, BinOp::Add, LType::I64, at(2), num(1));
        let m9 = m8.step(code, o);
        stores(m9, code, o, LType::I64, f.v(0), Val::Slot(k));
        let m10 = m9.step(code, o);
        jumps(m10, code, o, s.b(0));
        let next = m10.step(code, o);
        counting_keeps_items(o, slots, m8.memory, p, size, next_mix, k, i + 1);
        keeps_on(o, slots, m.memory, m8.memory, next.memory, p, (items.len() * size) as int);
        keeps_on(o, slots, base, m.memory, next.memory, own.0, own.1);
        assert forall|j: int| 0 <= j < i + 1 implies #[trigger] made(
            c,
            o,
            element,
            slots,
            own,
            base,
            items[j],
            next.memory,
            next_mix[j],
        ) by {
            if j < i {
                assert(made(c, o, element, slots, own, base, items[j], m.memory, mix[j]));
                made_later(
                    c,
                    o,
                    element,
                    slots,
                    own,
                    base,
                    items[j],
                    m.memory,
                    mix[j],
                    next.memory,
                );
            } else {
                made_later(c, o, element, slots, own, base, items[i], m8.memory, y, next.memory);
            }
        }
        let (l, held) = walk_goes(
            c,
            code,
            o,
            s,
            next,
            element,
            buf,
            count,
            base,
            items,
            next_mix,
            slots,
            i + 1,
        );
        keeps_on(o, slots, m.memory, next.memory, l.memory, p, (items.len() * size) as int);
        (l, held)
    }
}

/// A walk that acquires replaces every element of a buffer by what that
/// gives, and leaves alone whatever else is taken.
pub proof fn walk_runs(
    c: &EmitContext,
    code: Code,
    o: Outside,
    s: Code,
    m: Machine,
    element: IRType,
    buf: Val,
    count: Val,
    items: Seq<int>,
    slots: Seq<LType>,
) -> (r: (Machine, Seq<int>))
    requires
        ({
            let size = byte_count(o, value_type(element));
            let w = walk_buffer_code(
                c,
                s,
                Walk::Acquire,
                element,
                buf,
                count,
                Val::SizeOf(value_type(element)),
            );
            &&& stands_at(code, s, w, m)
            &&& heap_owner(c, element) ==> counts_in(slots, s.slots.len())
            &&& size <= u64::MAX
            &&& walking(o, slots, m.memory, read(o, m.results, buf), size, items)
        }),
        tidy(s),
        s.blocks + 3 <= usize::MAX,
        s.defines(buf),
        s.defines(count),
        acquires(c, o, element),
        read(o, m.results, count) == items.len(),
        items.len() <= u64::MAX,
    ensures
        ({
            let size = byte_count(o, value_type(element));
            let w = walk_buffer_code(
                c,
                s,
                Walk::Acquire,
                element,
                buf,
                count,
                Val::SizeOf(value_type(element)),
            );
            let p = read(o, m.results, buf);
            let own = (p, (items.len() * size) as int);
            let (l, held) = r;
            &&& behind(code, o, s, w, m, l)
            &&& walking(o, slots, l.memory, p, size, held)
            &&& all_made(c, o, element, slots, own, m.memory, items, l.memory, held)
            &&& keeps_but(o, slots, m.memory, l.memory, p, (items.len() * size) as int)
        }),
{
    let ty = value_type(element);
    let size = byte_count(o, ty);
    let n = s.log.len();
    let p = read(o, m.results, buf);
    let w = walk_buffer_code(c, s, Walk::Acquire, element, buf, count, Val::SizeOf(ty));
    let own = (p, (items.len() * size) as int);
    if heap_owner(c, element) {
        let k = s.slots.len() as usize;
        let b = loop_begin(s, count);
        let f = acquire_in_slot_code(
            c,
            element_slot_code(b, buf, s.v(2), Val::SizeOf(ty)),
            element,
            b.v(1),
        );
        beginning_stands(code, w);
        assert(b.log.is_prefix_of(f.log));
        assert(f.log.is_prefix_of(w.log));
        assert(forall|j: int| 0 <= j < n ==> w.log[j] == s.log[j]);
        seek_finds(code.log, s.b(0), 0, n + 2);
        stores(m, code, o, LType::I64, num(0), Val::Slot(k));
        let m1 = m.step(code, o);
        jumps(m1, code, o, s.b(0));
        let m2 = m1.step(code, o);
        counting_keeps_items(o, slots, m.memory, p, size, items, k, 0);
        let (l, held) = walk_goes(
            c,
            code,
            o,
            s,
            m2,
            element,
            buf,
            count,
            m.memory,
            items,
            items,
            slots,
            0,
        );
        keeps_on(o, slots, m.memory, m2.memory, l.memory, p, (items.len() * size) as int);
        (l, held)
    } else {
        assert forall|i: int| 0 <= i < items.len() implies #[trigger] made(
            c,
            o,
            element,
            slots,
            own,
            m.memory,
            items[i],
            m.memory,
            items[i],
        ) by {
            assert(clones(c, o, element, m.memory, items[i], m.memory, items[i]));
        }
        (m, items)
    }
}

} // verus!
