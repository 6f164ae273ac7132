//! What the list methods give back.
//!
//! A list is a buffer in memory, read element by element. Every method
//! that changes a list gives back another buffer and leaves the bytes of
//! its receiver as they were.

use vstd::prelude::*;
use crate::ctx::EmitContext;
use crate::emit::enums::{enum_value_appends, enum_value_code};
use crate::intrinsics::acquiring::{
    acquire_value_runs, acquires, all_copied, all_made, all_made_are_copied, all_made_earlier, all_made_later, all_made_wider,
    behind, clone_fits, clones, copied, counts_in, frame, in_frame, keeps, keeps_but, keeps_on, made, made_later,
    news_are_apart, off_frame, release_in_slot_runs, releases_harmlessly, slot_at, slot_size, stands_at,
    stored_keeps_shape, walk_runs, walking,
};
use crate::intrinsics::element::{
    acquire_in_slot_code, acquire_value_code, element_slot_code, heap_owner, loop_begin,
    release_in_slot_code, walk_buffer_code, Walk,
};
use crate::intrinsics::hashtable::read::{OPTION_NONE, OPTION_SOME};
use crate::intrinsics::list::{
    append_code, clone_list_code, concat_code, copy_buffer_code, get_code, get_item_code,
    get_load_code, length_code, replace_at_code, ret_list_code, slice_code,
};
use crate::ir::{IRSymbol, IRType, IRVariantTag};
use crate::llvm::{
    a1, a3, call, gep, iadd, imul, isub, itest, num, start, BinOp, Callee, Code, Entry, Inst, LType,
    Pred, Val,
};
use crate::runtime::Rt;
use crate::memory::{
    address_in_range, all_taken, apart, byte, byte_limit, copies, heap_calls, in_memory, malloc_call,
    memcpy_call, none_taken, number, number_of_bytes, sound, spares, starved, store_is_read_back,
    store_spares_others, stored, unless_starved, Memory,
};
use crate::semantics::{
    arguments, arrives, beginning_stands, begins_as, booted, branches, byte_count, calls, combines,
    ends, extracts, finishes, inserts, loads, moves, multiplies, picks, read, seek, seek_finds,
    stores, tests, tidy, Machine, Outside,
};
use crate::types::value_type;

verus! {

/// The `i`-th of the elements at `buf`, each of `size` bytes.
pub open spec fn item(memory: Memory, buf: int, size: nat, i: int) -> int {
    number(memory, buf + i * size, size)
}

/// The elements at `buf` are `items`.
pub open spec fn holds_items(memory: Memory, buf: int, size: nat, items: Seq<int>) -> bool {
    &&& in_memory(buf, (items.len() * size) as int)
    &&& forall|i: int| 0 <= i < items.len() ==> #[trigger] item(memory, buf, size, i) == items[i]
}

/// The function has given back a list of `items`, and what was taken is as
/// it was.
pub open spec fn is_list(
    o: Outside,
    slots: Seq<LType>,
    size: nat,
    items: Seq<int>,
    before: Memory,
    l: Machine,
) -> bool {
    &&& l.returned is Some
    &&& l.returned_parts[1] == items.len()
    &&& l.returned_parts[2] == items.len()
    &&& holds_items(l.memory, l.returned_parts[0], size, items)
    &&& keeps(o, slots, before, l.memory)
}

/// The function has given back a list of independent copies of `items`, and
/// what was taken is as it was; or an allocation has failed.
pub open spec fn gave_copies(
    c: &EmitContext,
    code: Code,
    o: Outside,
    element: IRType,
    items: Seq<int>,
    before: Memory,
) -> spec_fn(Machine) -> bool {
    unless_starved(
        code,
        |l: Machine|
            exists|held: Seq<int>| #[trigger]
                all_copied(c, o, element, code.slots, before, items, l.memory, held) && is_list(
                    o,
                    code.slots,
                    byte_count(o, value_type(element)),
                    held,
                    before,
                    l,
                ),
    )
}

/// An element lies inside its buffer.
proof fn item_inside(i: int, j: int, size: int, n: int)
    by (nonlinear_arith)
    requires
        0 <= i < n,
        0 <= j < size,
    ensures
        0 <= i * size + j < n * size,
        (i + 1) * size == i * size + size,
        i * size + size <= n * size,
{
}

/// A copied range of memory holds the same elements.
pub proof fn copy_holds_items(
    before: Memory,
    src: int,
    after: Memory,
    dst: int,
    size: nat,
    items: Seq<int>,
)
    requires
        holds_items(before, src, size, items),
        in_memory(dst, (items.len() * size) as int),
        forall|i: int|
            0 <= i < items.len() * size ==> #[trigger] byte(after, dst + i) == byte(before, src + i),
    ensures
        holds_items(after, dst, size, items),
{
    assert forall|i: int| 0 <= i < items.len() implies #[trigger] item(after, dst, size, i)
        == items[i] by {
        assert forall|j: int| 0 <= j < size implies #[trigger] byte(after, dst + i * size + j)
            == byte(before, src + i * size + j) by {
            item_inside(i, j, size as int, items.len() as int);
            assert(byte(after, dst + (i * size + j)) == byte(before, src + (i * size + j)));
        }
        number_of_bytes(after, dst + i * size, before, src + i * size, size);
        assert(item(before, src, size, i) == items[i]);
    }
}

/// Elements stay what they are while their bytes do.
pub proof fn kept_bytes_hold_items(
    before: Memory,
    after: Memory,
    buf: int,
    size: nat,
    items: Seq<int>,
)
    requires
        holds_items(before, buf, size, items),
        forall|q: int| buf <= q < buf + items.len() * size ==> #[trigger] byte(after, q) == byte(before, q),
    ensures
        holds_items(after, buf, size, items),
{
    assert forall|i: int| 0 <= i < items.len() * size implies #[trigger] byte(after, buf + i) == byte(
        before,
        buf + i,
    ) by {}
    copy_holds_items(before, buf, after, buf, size, items);
}

/// The instruction at place `n` of a body.
spec fn stands(code: Code, n: int, block: usize, inst: Inst) -> bool {
    code.log[n] == Entry { block: block, inst: inst }
}

/// An operand is known before place `n`.
spec fn known_before(v: Val, n: int) -> bool {
    v matches Val::At(k) ==> k < n
}

/// Code that goes on from other code in its current block and in new ones.
pub open spec fn continues(t: Code, s: Code, k: nat) -> bool {
    &&& s.log.is_prefix_of(t.log)
    &&& t.edges == s.edges
    &&& s.log.len() <= t.log.len() <= s.log.len() + k
    &&& tidy(t)
    &&& s.blocks <= t.blocks <= s.blocks + 3
    &&& t.cur == s.cur || s.blocks <= t.cur
    &&& forall|i: int|
        s.log.len() <= i < t.log.len() ==> (#[trigger] t.log[i]).block == s.cur || s.blocks
            <= t.log[i].block
    &&& t.cur != s.cur ==> forall|i: int|
        0 <= i < t.log.len() ==> (#[trigger] t.log[i]).block != t.cur
}

/// What a walk over a buffer records.
pub proof fn walk_shape(c: &EmitContext, s: Code, element: IRType, buf: Val, count: Val, size: Val)
    requires
        tidy(s),
        s.log.len() + 15 <= usize::MAX,
        s.blocks + 3 <= usize::MAX,
    ensures
        ({
            let w = walk_buffer_code(c, s, Walk::Acquire, element, buf, count, size);
            &&& continues(w, s, 15)
            &&& w.slots == if heap_owner(c, element) {
                s.slots.push(LType::I64)
            } else {
                s.slots
            }
        }),
{
    let w = walk_buffer_code(c, s, Walk::Acquire, element, buf, count, size);
    if heap_owner(c, element) {
        let b = loop_begin(s, count);
        let e = element_slot_code(b, buf, s.v(2), size);
        let f = acquire_in_slot_code(c, e, element, b.v(1));
        assert(s.log.is_prefix_of(b.log));
        assert(b.log.is_prefix_of(f.log));
        assert(f.log.is_prefix_of(w.log));
        assert(forall|i: int| 0 <= i < s.log.len() ==> w.log[i] == s.log[i]);
        assert(forall|i: int| s.log.len() <= i < b.log.len() ==> w.log[i] == b.log[i]);
        assert(s.log =~= w.log.subrange(0, s.log.len() as int));
        assert forall|i: int| s.log.len() <= i < w.log.len() implies ({
            let block = (#[trigger] w.log[i]).block;
            (block == s.cur || s.blocks <= block) && block < w.blocks && block != w.cur
        }) by {}
    }
}

/// What a copy of a buffer records.
pub proof fn copy_shape(c: &EmitContext, s: Code, element: IRType, src: Val, count: Val, cap: Val, size: Val)
    requires
        tidy(s),
        s.log.len() + 19 <= usize::MAX,
        s.blocks + 3 <= usize::MAX,
    ensures
        ({
            let b = copy_buffer_code(c, s, Walk::Acquire, element, src, count, cap, size);
            &&& continues(b, s, 19)
            &&& b.log.len() >= s.log.len() + 4
            &&& b.slots == if heap_owner(c, element) {
                s.slots.push(LType::I64)
            } else {
                s.slots
            }
        }),
{
    let t = s.i(imul(cap, size))
        .i(call(Rt::Malloc, a1(s.v(0))))
        .i(imul(count, size))
        .i(call(Rt::Memcpy, a3(s.v(1), src, s.v(2))));
    let b = copy_buffer_code(c, s, Walk::Acquire, element, src, count, cap, size);
    walk_shape(c, t, element, s.v(1), count, size);
    assert(s.log.is_prefix_of(t.log));
    log_begins_further(b.log, t.log, s.log);
    assert(forall|i: int| s.log.len() <= i < t.log.len() ==> b.log[i] == t.log[i]);
}

/// Beginnings of beginnings.
pub proof fn log_begins_further(a: Seq<Entry>, b: Seq<Entry>, d: Seq<Entry>)
    requires
        b.is_prefix_of(a),
        d.is_prefix_of(b),
    ensures
        d.is_prefix_of(a),
        forall|i: int| 0 <= i < b.len() ==> #[trigger] a[i] == b[i],
        forall|i: int| 0 <= i < d.len() ==> #[trigger] a[i] == d[i],
{
    assert forall|i: int| 0 <= i < b.len() implies #[trigger] a[i] == b[i] by {
        assert(a.subrange(0, b.len() as int)[i] == b[i]);
    }
    assert forall|i: int| 0 <= i < d.len() implies #[trigger] a[i] == d[i] by {
        assert(b.subrange(0, d.len() as int)[i] == d[i]);
    }
    assert(d =~= a.subrange(0, d.len() as int));
}

/// Memory that keeps what was taken and changes only where nothing was
/// keeps all.
pub proof fn fresh_keeps(o: Outside, slots: Seq<LType>, before: Memory, after: Memory, p: int, n: int)
    requires
        keeps_but(o, slots, before, after, p, n),
        none_taken(before, p, n),
    ensures
        keeps(o, slots, before, after),
{
}

/// Keeping and keeping again.
pub proof fn keeps_again(o: Outside, slots: Seq<LType>, a: Memory, b: Memory, d: Memory)
    requires
        keeps(o, slots, a, b),
        keeps(o, slots, b, d),
    ensures
        keeps(o, slots, a, d),
{
    keeps_on(o, slots, a, b, d, 0, 0);
}

/// A store in memory of one's own keeps what was taken before.
proof fn own_store_keeps(
    o: Outside,
    slots: Seq<LType>,
    before: Memory,
    now: Memory,
    p: int,
    room: int,
    at: int,
    x: int,
    n: nat,
)
    requires
        keeps(o, slots, before, now),
        none_taken(before, p, room),
        in_memory(p, room),
        p <= at,
        at + n <= p + room,
        sound(before),
    ensures
        keeps(o, slots, before, stored(now, at, x, n)),
{
    stored_keeps_shape(now, at, x, n);
    assert forall|q: int| #[trigger] before.taken.contains(q) implies in_frame(o, slots, q) || byte(
        stored(now, at, x, n),
        q,
    ) == byte(before, q) by {
        store_spares_others(now, at, x, n, q);
    }
}

/// A store in a range changes nothing else.
pub proof fn store_keeps_but(
    o: Outside,
    slots: Seq<LType>,
    now: Memory,
    p: int,
    room: int,
    at: int,
    x: int,
    n: nat,
)
    requires
        in_memory(p, room),
        p <= at,
        at + n <= p + room,
        sound(now),
    ensures
        keeps_but(o, slots, now, stored(now, at, x, n), p, room),
{
    stored_keeps_shape(now, at, x, n);
    assert forall|q: int| #[trigger] now.taken.contains(q) implies in_frame(o, slots, q) || p <= q < p + room
        || byte(stored(now, at, x, n), q) == byte(now, q) by {
        if !(p <= q < p + room) {
            store_spares_others(now, at, x, n, q);
        }
    }
}

/// A list stays where it is.
pub proof fn list_stays(
    o: Outside,
    slots: Seq<LType>,
    before: Memory,
    after: Memory,
    buf: int,
    size: nat,
    items: Seq<int>,
)
    requires
        walking(o, slots, before, buf, size, items),
        keeps(o, slots, before, after),
    ensures
        walking(o, slots, after, buf, size, items),
{
    assert forall|q: int| buf <= q < buf + items.len() * size implies #[trigger] byte(after, q) == byte(
        before,
        q,
    ) by {
        assert(!in_frame(o, slots, q));
        assert(before.taken.contains(q));
    }
    kept_bytes_hold_items(before, after, buf, size, items);
    frame_stays(o, slots, before, after);
    assert forall|q: int| buf <= q < buf + items.len() * size implies #[trigger] after.taken.contains(
        q,
    ) by {
        assert(before.taken.contains(q));
    }
}

/// The stack slots stay taken.
pub proof fn frame_stays(o: Outside, slots: Seq<LType>, before: Memory, after: Memory)
    requires
        frame(o, slots, before),
        keeps(o, slots, before, after),
    ensures
        frame(o, slots, after),
{
    assert forall|k: usize| k < slots.len() implies all_taken(
        after,
        #[trigger] slot_at(o, k),
        slot_size(o, slots, k),
    ) by {
        let p = slot_at(o, k);
        assert forall|q: int| p <= q < p + slot_size(o, slots, k) implies #[trigger] after.taken.contains(
            q,
        ) by {
            assert(before.taken.contains(q));
        }
    }
}

/// What is allocated lies apart from the stack slots.
pub proof fn fresh_is_off_frame(o: Outside, slots: Seq<LType>, before: Memory, p: int, n: int)
    requires
        frame(o, slots, before),
        none_taken(before, p, n),
    ensures
        off_frame(o, slots, p, n),
{
    assert forall|q: int| p <= q < p + n implies !#[trigger] in_frame(o, slots, q) by {
        if in_frame(o, slots, q) {
            let k = choose|k: usize|
                k < slots.len() && #[trigger] slot_at(o, k) <= q < slot_at(o, k) + slot_size(o, slots, k);
            assert(all_taken(before, slot_at(o, k), slot_size(o, slots, k)));
            assert(before.taken.contains(q));
        }
    }
}

/// Where a copy leads: the new buffer holds what the copied elements are
/// acquired as, and nothing that was taken has changed; or an allocation has
/// failed.
pub proof fn copy_runs(
    c: &EmitContext,
    code: Code,
    o: Outside,
    s: Code,
    m: Machine,
    element: IRType,
    src: Val,
    count: Val,
    cap: Val,
    items: Seq<int>,
    slots: Seq<LType>,
    goal: spec_fn(Machine) -> bool,
) -> (r: Option<(Machine, Seq<int>)>)
    requires
        ({
            let ty = value_type(element);
            let size = byte_count(o, ty);
            let b = copy_buffer_code(
                c,
                s,
                Walk::Acquire,
                element,
                src,
                count,
                cap,
                Val::SizeOf(ty),
            );
            &&& stands_at(code, s, b, m)
            &&& heap_owner(c, element) ==> counts_in(slots, s.slots.len())
            &&& size <= u64::MAX
            &&& items.len() <= read(o, m.results, cap) <= u64::MAX
            &&& read(o, m.results, cap) * size <= u64::MAX
            &&& walking(o, slots, m.memory, read(o, m.results, src), size, items)
        }),
        tidy(s),
        s.blocks + 3 <= usize::MAX,
        s.log.len() + 19 <= usize::MAX,
        s.defines(src),
        s.defines(count),
        s.defines(cap),
        read(o, m.results, count) == items.len(),
        acquires(c, o, element),
        heap_calls(o),
        forall|l: Machine| starved(code, l) ==> #[trigger] goal(l),
    ensures
        match r {
            Some((l, held)) => {
                let ty = value_type(element);
                let size = byte_count(o, ty);
                let b = copy_buffer_code(
                    c,
                    s,
                    Walk::Acquire,
                    element,
                    src,
                    count,
                    cap,
                    Val::SizeOf(ty),
                );
                let room = read(o, m.results, cap) * size;
                let fresh = read(o, l.results, s.v(1));
                &&& behind(code, o, s, b, m, l)
                &&& in_memory(fresh, room)
                &&& none_taken(m.memory, fresh, room)
                &&& all_taken(l.memory, fresh, room)
                &&& off_frame(o, slots, fresh, room)
                &&& keeps(o, slots, m.memory, l.memory)
                &&& walking(o, slots, l.memory, fresh, size, held)
                &&& all_made(
                    c,
                    o,
                    element,
                    slots,
                    (fresh, room),
                    m.memory,
                    items,
                    l.memory,
                    held,
                )
            },
            None => m.comes_to(code, o, goal),
        },
{
    let ty = value_type(element);
    let size = byte_count(o, ty);
    let n = items.len();
    let room = read(o, m.results, cap);
    let buf = read(o, m.results, src);
    let at = |k: int| Val::At((m.at + k) as usize);
    let t = s.i(imul(cap, Val::SizeOf(ty)))
        .i(call(Rt::Malloc, a1(s.v(0))))
        .i(imul(count, Val::SizeOf(ty)))
        .i(call(Rt::Memcpy, a3(s.v(1), src, s.v(2))));
    let b = copy_buffer_code(c, s, Walk::Acquire, element, src, count, cap, Val::SizeOf(ty));
    walk_shape(c, t, element, s.v(1), count, Val::SizeOf(ty));
    log_begins_further(code.log, b.log, t.log);
    assert(code.log[(m.at + 4) as int].block == s.cur) by {
        if heap_owner(c, element) {
            assert(b.log[(m.at + 4) as int] == loop_begin(t, count).log[(m.at + 4) as int]);
        }
    }
    assert(0 <= n * size <= room * size) by (nonlinear_arith)
        requires
            n <= room,
            size >= 0,
    ;
    multiplies(m, code, o, cap, Val::SizeOf(ty));
    let m1 = m.step(code, o);
    assert(m1.results[m.at as usize] == room * size);
    assert(arguments(o, m1.results, a1(at(0))) =~= seq![room * size]) by {
        reveal_with_fuel(arguments, 2);
    }
    calls(m1, code, o, Callee::Runtime(Rt::Malloc), a1(at(0)));
    let m2 = m1.step(code, o);
    let fresh = m2.results[(m.at + 1) as usize];
    malloc_call(o, m.memory, room * size);
    if fresh == 0 {
        assert(starved(code, m2));
        arrives(m2, code, o, goal);
        None
    } else {
        multiplies(m2, code, o, count, Val::SizeOf(ty));
        let m3 = m2.step(code, o);
        assert(m3.results[(m.at + 2) as usize] == n * size);
        assert(arguments(o, m3.results, a3(at(1), src, at(2))) =~= seq![
            fresh,
            buf,
            (n * size) as int,
        ]) by {
            reveal_with_fuel(arguments, 4);
        }
        calls(m3, code, o, Callee::Runtime(Rt::Memcpy), a3(at(1), src, at(2)));
        let m4 = m3.step(code, o);
        apart(m.memory, fresh, room * size, buf, (n * size) as int);
        memcpy_call(o, m3.memory, fresh, buf, (n * size) as int);
        assert forall|i: int| 0 <= i < n * size implies #[trigger] byte(m4.memory, fresh + i)
            == byte(m.memory, buf + i) by {
            assert(m.memory.taken.contains(buf + i));
            assert(byte(m4.memory, fresh + i) == byte(m3.memory, buf + i));
        }
        copy_holds_items(m.memory, buf, m4.memory, fresh, size, items);
        assert forall|q: int| #[trigger] m.memory.taken.contains(q) implies m4.memory.taken.contains(
            q,
        ) && byte(m4.memory, q) == byte(m.memory, q) by {
            assert(byte(m4.memory, q) == byte(m3.memory, q));
        }
        fresh_is_off_frame(o, slots, m.memory, fresh, room * size);
        frame_stays(o, slots, m.memory, m4.memory);
        let (l, held) = walk_runs(c, code, o, t, m4, element, s.v(1), count, items, slots);
        all_made_wider(
            c,
            o,
            element,
            slots,
            (fresh, (n * size) as int),
            m4.memory,
            items,
            l.memory,
            held,
            m.memory,
            (fresh, room * size),
        );
        keeps_on(o, slots, m.memory, m4.memory, l.memory, fresh, (n * size) as int);
        fresh_keeps(o, slots, m.memory, l.memory, fresh, (n * size) as int);
        assert forall|q: int| fresh <= q < fresh + room * size implies #[trigger] l.memory.taken.contains(
            q,
        ) by {
            assert(m4.memory.taken.contains(q));
        }
        Some((l, held))
    }
}

/// Giving back a list whose buffer is exactly full, as it stands at place
/// `n`.
spec fn return_stands(code: Code, n: int, block: usize, buf: Val, len: Val) -> bool {
    let at = |k: int| Val::At((n + k) as usize);
    &&& n + 4 <= code.log.len() <= usize::MAX
    &&& stands(code, n, block, Inst::Insert(LType::List, Val::Undef, LType::Ptr, buf, 0))
    &&& stands(code, n + 1, block, Inst::Insert(LType::List, at(0), LType::I64, len, 1))
    &&& stands(code, n + 2, block, Inst::Insert(LType::List, at(1), LType::I64, len, 2))
    &&& stands(code, n + 3, block, Inst::Ret(LType::List, at(2)))
}

/// A list that is given back is the one that its buffer holds.
proof fn return_runs(
    c: &EmitContext,
    code: Code,
    o: Outside,
    m: Machine,
    block: usize,
    buf: Val,
    len: Val,
    element: IRType,
    items: Seq<int>,
    held: Seq<int>,
    before: Memory,
)
    requires
        m.returned is None,
        return_stands(code, m.at as int, block, buf, len),
        known_before(buf, m.at as int),
        known_before(len, m.at as int),
        read(o, m.results, len) == held.len(),
        holds_items(
            m.memory,
            read(o, m.results, buf),
            byte_count(o, value_type(element)),
            held,
        ),
        keeps(o, code.slots, before, m.memory),
        all_copied(c, o, element, code.slots, before, items, m.memory, held),
    ensures
        m.comes_to(code, o, gave_copies(c, code, o, element, items, before)),
{
    let at = |k: int| Val::At((m.at + k) as usize);
    inserts(m, code, o, LType::List, Val::Undef, LType::Ptr, buf, 0);
    let m1 = m.step(code, o);
    inserts(m1, code, o, LType::List, at(0), LType::I64, len, 1);
    let m2 = m1.step(code, o);
    inserts(m2, code, o, LType::List, at(1), LType::I64, len, 2);
    let m3 = m2.step(code, o);
    ends(m3, code, o, LType::List, at(2));
    let l = m3.step(code, o);
    assert(all_copied(c, o, element, code.slots, before, items, l.memory, held));
    arrives(l, code, o, gave_copies(c, code, o, element, items, before));
}

/// A list parameter of elements of a type: its buffer holds `items`, is
/// taken, and lies apart from the stack slots.
pub open spec fn list_param(
    o: Outside,
    i: usize,
    slots: Seq<LType>,
    memory: Memory,
    ty: LType,
    items: Seq<int>,
) -> bool {
    &&& (o.parts)(i, 1) == items.len()
    &&& items.len() <= u64::MAX
    &&& byte_count(o, ty) <= u64::MAX
    &&& walking(o, slots, memory, (o.parts)(i, 0), byte_count(o, ty), items)
    &&& heap_calls(o)
}

/// The size of a list of `n` elements in bytes is a word.
pub open spec fn size_fits(o: Outside, ty: LType, n: int) -> bool {
    0 <= n <= u64::MAX && n * byte_count(o, ty) <= u64::MAX
}

/// `List.append` gives back the receiver's elements and then the item,
/// acquired all of them, in a buffer of their own.
#[verifier::spinoff_prover]
#[verifier::rlimit(80)]
pub proof fn append_adds_at_the_end(
    c: &EmitContext,
    element: IRType,
    o: Outside,
    memory: Memory,
    items: Seq<int>,
)
    requires
        acquires(c, o, element),
        list_param(
            o,
            0,
            append_code(c, start(), element).slots,
            memory,
            value_type(element),
            items,
        ),
        size_fits(o, value_type(element), items.len() as int + 1),
        0 <= (o.values)(Val::Param(1)) < byte_limit(byte_count(o, value_type(element))),
    ensures
        ({
            let code = append_code(c, start(), element);
            let appended = items.push((o.values)(Val::Param(1)));
            booted(code, memory).comes_to(code, o, gave_copies(c, code, o, element, appended, memory))
        }),
{
    let code = append_code(c, start(), element);
    let slots = code.slots;
    let ty = value_type(element);
    let size = byte_count(o, ty);
    let n = items.len();
    let x = (o.values)(Val::Param(1));
    let goal = gave_copies(c, code, o, element, items.push(x), memory);
    let s = start();
    let (a, item) = acquire_value_code(c, s, element, Val::Param(1));
    let e = a.i(Inst::Extract(LType::List, Val::Param(0), 0))
        .i(Inst::Extract(LType::List, Val::Param(0), 1))
        .i(iadd(a.v(1), num(1)));
    let b = copy_buffer_code(c, e, Walk::Acquire, element, a.v(0), a.v(1), a.v(2), Val::SizeOf(ty));
    assert(n * size + size == (n + 1) * size) by (nonlinear_arith);
    assert(0 <= n * size) by (nonlinear_arith);
    assert(tidy(e));
    copy_shape(c, e, element, a.v(0), a.v(1), a.v(2), Val::SizeOf(ty));
    assert(a.log.is_prefix_of(e.log));
    assert(b.log.is_prefix_of(code.log));
    log_begins_further(code.log, b.log, e.log);
    log_begins_further(code.log, e.log, a.log);
    seek_finds(code.log, 0, 0, 0);
    let m0 = booted(code, memory);
    let k = acquire_value_runs(c, code, o, s, m0, element, Val::Param(1));
    let y = read(o, k.results, item);
    extracts(k, code, o, LType::List, 0, 0);
    let m1 = k.step(code, o);
    extracts(m1, code, o, LType::List, 0, 1);
    let m2 = m1.step(code, o);
    combines(m2, code, o, BinOp::Add, LType::I64, a.v(1), num(1));
    let m3 = m2.step(code, o);
    list_stays(o, slots, memory, k.memory, (o.parts)(0, 0), size, items);
    assert(read(o, m3.results, a.v(0)) == (o.parts)(0, 0));
    assert(read(o, m3.results, a.v(1)) == n);
    assert(read(o, m3.results, a.v(2)) == n + 1);
    match copy_runs(
        c,
        code,
        o,
        e,
        m3,
        element,
        a.v(0),
        a.v(1),
        a.v(2),
        items,
        slots,
        goal,
    ) {
        Some((m7, held)) => {
            let fresh = read(o, m7.results, e.v(1));
            let room = ((n + 1) * size) as int;
            clone_fits(c, o, element, memory, x, k.memory, y);
            news_are_apart(o, slots, fresh, room, memory, k.memory);
            assert(made(c, o, element, slots, (fresh, room), memory, x, m7.memory, y)) by {
                assert(clones(c, o, element, memory, x, k.memory, y));
            }
            all_made_earlier(
                c,
                o,
                element,
                slots,
                (fresh, room),
                k.memory,
                items,
                m7.memory,
                held,
                memory,
            );
            append_ends(
                c,
                code,
                o,
                m7,
                b.cur,
                e.v(1),
                a.v(1),
                a.v(2),
                item,
                element,
                items,
                held,
                x,
                y,
                memory,
                k.memory,
            );
        },
        None => {},
    }
}

/// The end of `List.append`: the item is stored behind the others.
proof fn append_ends(
    c: &EmitContext,
    code: Code,
    o: Outside,
    m: Machine,
    block: usize,
    buf: Val,
    len: Val,
    total: Val,
    item: Val,
    element: IRType,
    items: Seq<int>,
    held: Seq<int>,
    x: int,
    y: int,
    before: Memory,
    mid: Memory,
)
    requires
        m.returned is None,
        stands(code, m.at as int, block, imul(len, Val::SizeOf(value_type(element)))),
        stands(code, (m.at + 1) as int, block, gep(buf, Val::At(m.at as usize))),
        stands(
            code,
            (m.at + 2) as int,
            block,
            Inst::Store(value_type(element), item, Val::At((m.at + 1) as usize)),
        ),
        return_stands(code, (m.at + 3) as int, block, buf, total),
        known_before(buf, m.at as int),
        known_before(len, m.at as int),
        known_before(total, m.at as int),
        known_before(item, m.at as int),
        read(o, m.results, len) == held.len(),
        read(o, m.results, total) == held.len() + 1,
        read(o, m.results, item) == y,
        0 <= y < byte_limit(byte_count(o, value_type(element))),
        size_fits(o, value_type(element), held.len() as int + 1),
        byte_count(o, value_type(element)) <= u64::MAX,
        ({
            let size = byte_count(o, value_type(element));
            let fresh = read(o, m.results, buf);
            let room = ((held.len() + 1) * size) as int;
            &&& holds_items(m.memory, fresh, size, held)
            &&& in_memory(fresh, room)
            &&& none_taken(mid, fresh, room)
            &&& all_made(
                c,
                o,
                element,
                code.slots,
                (fresh, room),
                before,
                items,
                m.memory,
                held,
            )
            &&& made(c, o, element, code.slots, (fresh, room), before, x, m.memory, y)
        }),
        keeps(o, code.slots, mid, m.memory),
        keeps(o, code.slots, before, mid),
    ensures
        m.comes_to(code, o, gave_copies(c, code, o, element, items.push(x), before)),
{
    let slots = code.slots;
    let ty = value_type(element);
    let size = byte_count(o, ty);
    let n = held.len();
    let fresh = read(o, m.results, buf);
    assert(n * size + size == (n + 1) * size) by (nonlinear_arith);
    assert(0 <= n * size) by (nonlinear_arith);
    multiplies(m, code, o, len, Val::SizeOf(ty));
    let m1 = m.step(code, o);
    address_in_range((n * size) as int);
    assert(m1.results[m.at as usize] == n * size);
    moves(m1, code, o, buf, Val::At(m.at as usize));
    let m2 = m1.step(code, o);
    address_in_range(fresh + n * size);
    stores(m2, code, o, ty, item, Val::At((m.at + 1) as usize));
    let m3 = m2.step(code, o);
    let room = ((n + 1) * size) as int;
    stored_behind(m.memory, fresh, size, held, y);
    own_store_keeps(
        o,
        slots,
        mid,
        m.memory,
        fresh,
        ((n + 1) * size) as int,
        (fresh + n * size) as int,
        y,
        size,
    );
    keeps_again(o, slots, before, mid, m3.memory);
    store_keeps_but(o, slots, m.memory, fresh, room, (fresh + n * size) as int, y, size);
    let own = (fresh, room);
    all_made_later(c, o, element, slots, own, before, items, m.memory, held, m3.memory);
    made_later(c, o, element, slots, own, before, x, m.memory, y, m3.memory);
    assert(all_made(c, o, element, slots, own, before, items.push(x), m3.memory, held.push(y))) by {
        assert forall|i: int| 0 <= i < n + 1 implies #[trigger] made(
            c,
            o,
            element,
            slots,
            own,
            before,
            items.push(x)[i],
            m3.memory,
            held.push(y)[i],
        ) by {
            if i < n {
                assert(made(c, o, element, slots, own, before, items[i], m3.memory, held[i]));
            }
        }
    }
    all_made_are_copied(c, o, element, slots, own, before, items.push(x), m3.memory, held.push(y));
    return_runs(
        c,
        code,
        o,
        m3,
        block,
        buf,
        total,
        element,
        items.push(x),
        held.push(y),
        before,
    );
}

/// An element stored behind others makes one more.
pub proof fn stored_behind(memory: Memory, buf: int, size: nat, items: Seq<int>, x: int)
    requires
        holds_items(memory, buf, size, items),
        in_memory(buf, ((items.len() + 1) * size) as int),
        0 <= x < byte_limit(size),
    ensures
        holds_items(
            stored(memory, buf + items.len() * size, x, size),
            buf,
            size,
            items.push(x),
        ),
{
    let n = items.len();
    let after = stored(memory, buf + n * size, x, size);
    assert(n * size + size == (n + 1) * size) by (nonlinear_arith);
    assert(0 <= n * size) by (nonlinear_arith);
    assert forall|q: int| buf <= q < buf + n * size implies #[trigger] byte(after, q) == byte(
        memory,
        q,
    ) by {
        store_spares_others(memory, buf + n * size, x, size, q);
    }
    kept_bytes_hold_items(memory, after, buf, size, items);
    store_is_read_back(memory, buf + n * size, x, size);
    assert forall|i: int| 0 <= i < n + 1 implies #[trigger] item(after, buf, size, i) == items.push(
        x,
    )[i] by {
        if i < n {
            assert(item(after, buf, size, i) == items[i]);
        }
    }
}

/// An element stored over another takes its place.
pub proof fn stored_over(memory: Memory, buf: int, size: nat, items: Seq<int>, k: int, x: int)
    requires
        holds_items(memory, buf, size, items),
        0 <= k < items.len(),
        0 <= x < byte_limit(size),
    ensures
        in_memory(buf + k * size, size as int),
        holds_items(stored(memory, buf + k * size, x, size), buf, size, items.update(k, x)),
{
    let n = items.len();
    let after = stored(memory, buf + k * size, x, size);
    item_fits(k, size as int, n as int);
    store_is_read_back(memory, buf + k * size, x, size);
    assert forall|i: int| 0 <= i < n implies #[trigger] item(after, buf, size, i) == items.update(
        k,
        x,
    )[i] by {
        if i != k {
            items_apart(i, k, size as int);
            item_fits(i, size as int, n as int);
            assert forall|j: int| 0 <= j < size implies #[trigger] byte(after, buf + i * size + j)
                == byte(memory, buf + i * size + j) by {
                store_spares_others(memory, buf + k * size, x, size, buf + i * size + j);
            }
            number_of_bytes(after, buf + i * size, memory, buf + i * size, size);
            assert(item(memory, buf, size, i) == items[i]);
        }
    }
}

/// An element lies between the beginning and the end of its buffer.
pub proof fn item_fits(k: int, size: int, n: int)
    by (nonlinear_arith)
    requires
        0 <= k < n,
        0 <= size,
    ensures
        0 <= k * size,
        k * size + size <= n * size,
{
}

/// Elements do not meet.
pub proof fn items_apart(i: int, k: int, size: int)
    by (nonlinear_arith)
    requires
        i != k,
        0 <= size,
    ensures
        i * size + size <= k * size || k * size + size <= i * size,
{
}

/// A copy of the receiver that is given back holds copies of its elements.
proof fn clone_runs(
    c: &EmitContext,
    code: Code,
    o: Outside,
    s: Code,
    m: Machine,
    element: IRType,
    items: Seq<int>,
)
    requires
        begins_as(code, clone_list_code(c, s, element)),
        tidy(s),
        s.blocks + 3 <= usize::MAX,
        s.log.len() + 64 <= usize::MAX,
        heap_owner(c, element) ==> counts_in(code.slots, s.slots.len()),
        m.at == s.log.len(),
        m.returned is None,
        acquires(c, o, element),
        list_param(o, 0, code.slots, m.memory, value_type(element), items),
        size_fits(o, value_type(element), items.len() as int),
    ensures
        m.comes_to(
            code,
            o,
            gave_copies(c, code, o, element, items, m.memory),
        ),
{
    let ty = value_type(element);
    let size = byte_count(o, ty);
    let goal = gave_copies(c, code, o, element, items, m.memory);
    let e = s.i(Inst::Extract(LType::List, Val::Param(0), 0)).i(
        Inst::Extract(LType::List, Val::Param(0), 1),
    );
    let b = copy_buffer_code(c, e, Walk::Acquire, element, s.v(0), s.v(1), s.v(1), Val::SizeOf(ty));
    let r = clone_list_code(c, s, element);
    assert(tidy(e));
    copy_shape(c, e, element, s.v(0), s.v(1), s.v(1), Val::SizeOf(ty));
    assert(r == ret_list_code(b, e.v(1), s.v(1)));
    assert(b.log.is_prefix_of(r.log));
    log_begins_further(code.log, r.log, b.log);
    log_begins_further(code.log, b.log, e.log);
    extracts(m, code, o, LType::List, 0, 0);
    let m1 = m.step(code, o);
    extracts(m1, code, o, LType::List, 0, 1);
    let m2 = m1.step(code, o);
    match copy_runs(
        c,
        code,
        o,
        e,
        m2,
        element,
        s.v(0),
        s.v(1),
        s.v(1),
        items,
        code.slots,
        goal,
    ) {
        Some((m6, held)) => {
            let fresh = read(o, m6.results, e.v(1));
            let own = (fresh, (items.len() * size) as int);
            assert(read(o, m6.results, s.v(1)) == items.len());
            all_made_are_copied(c, o, element, code.slots, own, m.memory, items, m6.memory, held);
            return_runs(c, code, o, m6, b.cur, e.v(1), s.v(1), element, items, held, m.memory);
        },
        None => {},
    }
}

/// `List.from_list` gives back independent copies of the same elements in a
/// buffer of their own.
pub proof fn clone_keeps_items(
    c: &EmitContext,
    element: IRType,
    o: Outside,
    memory: Memory,
    items: Seq<int>,
)
    requires
        acquires(c, o, element),
        list_param(
            o,
            0,
            clone_list_code(c, start(), element).slots,
            memory,
            value_type(element),
            items,
        ),
        size_fits(o, value_type(element), items.len() as int),
    ensures
        ({
            let code = clone_list_code(c, start(), element);
            booted(code, memory).comes_to(code, o, gave_copies(c, code, o, element, items, memory))
        }),
{
    let code = clone_list_code(c, start(), element);
    let s = start();
    let e = s.i(Inst::Extract(LType::List, Val::Param(0), 0)).i(
        Inst::Extract(LType::List, Val::Param(0), 1),
    );
    let ty = value_type(element);
    let b = copy_buffer_code(c, e, Walk::Acquire, element, s.v(0), s.v(1), s.v(1), Val::SizeOf(ty));
    copy_shape(c, e, element, s.v(0), s.v(1), s.v(1), Val::SizeOf(ty));
    assert(code == ret_list_code(b, e.v(1), s.v(1)));
    assert(b.log.is_prefix_of(code.log));
    log_begins_further(code.log, b.log, e.log);
    seek_finds(code.log, 0, 0, 0);
    clone_runs(c, code, o, s, booted(code, memory), element, items);
}

/// The end of `List.replace_at`: the element in the slot gives way to the
/// item.
proof fn replace_ends(
    c: &EmitContext,
    code: Code,
    o: Outside,
    b: Code,
    m: Machine,
    element: IRType,
    buf: Val,
    len: Val,
    items: Seq<int>,
    held: Seq<int>,
    before: Memory,
)
    requires
        ({
            let ty = value_type(element);
            let size = byte_count(o, ty);
            let e = element_slot_code(b, buf, Val::Param(1), Val::SizeOf(ty));
            let r = release_in_slot_code(c, e, element, b.v(1));
            let (a, value) = acquire_value_code(c, r, element, Val::Param(2));
            let t = ret_list_code(a.i(Inst::Store(ty, value, b.v(1))), buf, len);
            let fresh = read(o, m.results, buf);
            &&& begins_as(code, t)
            &&& size <= u64::MAX
            &&& walking(o, code.slots, m.memory, fresh, size, held)
            &&& none_taken(before, fresh, (held.len() * size) as int)
            &&& 0 <= (o.values)(Val::Param(2)) < byte_limit(size)
            &&& all_made(
                c,
                o,
                element,
                code.slots,
                (fresh, (held.len() * size) as int),
                before,
                items,
                m.memory,
                held,
            )
        }),
        b.log.len() + 64 <= usize::MAX,
        m.at == b.log.len(),
        m.returned is None,
        b.defines(buf),
        b.defines(len),
        acquires(c, o, element),
        releases_harmlessly(c, o, element),
        0 <= (o.values)(Val::Param(1)) < held.len() <= u64::MAX,
        read(o, m.results, len) == held.len(),
        size_fits(o, value_type(element), held.len() as int),
        keeps(o, code.slots, before, m.memory),
        sound(before),
    ensures
        m.comes_to(
            code,
            o,
            gave_copies(
                c,
                code,
                o,
                element,
                items.update((o.values)(Val::Param(1)), (o.values)(Val::Param(2))),
                before,
            ),
        ),
{
    let slots = code.slots;
    let ty = value_type(element);
    let size = byte_count(o, ty);
    let index = (o.values)(Val::Param(1));
    let x = (o.values)(Val::Param(2));
    let e = element_slot_code(b, buf, Val::Param(1), Val::SizeOf(ty));
    let r = release_in_slot_code(c, e, element, b.v(1));
    let (a, value) = acquire_value_code(c, r, element, Val::Param(2));
    let st = a.i(Inst::Store(ty, value, b.v(1)));
    let t = ret_list_code(st, buf, len);
    let fresh = read(o, m.results, buf);
    assert(e.log.is_prefix_of(r.log));
    assert(r.log.is_prefix_of(a.log));
    assert(a.log.is_prefix_of(t.log));
    log_begins_further(code.log, t.log, a.log);
    log_begins_further(code.log, a.log, r.log);
    log_begins_further(code.log, r.log, e.log);
    assert(begins_as(code, a) && begins_as(code, r));
    assert(code.log[a.log.len() as int] == t.log[a.log.len() as int]);
    assert(code.log[r.log.len() as int].block == b.cur);
    item_fits(index, size as int, held.len() as int);
    multiplies(m, code, o, Val::Param(1), Val::SizeOf(ty));
    let m1 = m.step(code, o);
    address_in_range(index * size);
    assert(m1.results[m.at as usize] == index * size);
    moves(m1, code, o, buf, b.v(0));
    let m2 = m1.step(code, o);
    address_in_range(fresh + index * size);
    assert(read(o, m2.results, b.v(1)) == fresh + index * size);
    let m3 = release_in_slot_runs(c, code, o, e, m2, element, b.v(1));
    let m4 = acquire_value_runs(c, code, o, r, m3, element, Val::Param(2));
    let y = read(o, m4.results, value);
    assert(read(o, m4.results, b.v(1)) == fresh + index * size);
    assert(read(o, m4.results, buf) == fresh);
    stores(m4, code, o, ty, value, b.v(1));
    let m5 = m4.step(code, o);
    assert(keeps(o, slots, m.memory, m3.memory));
    assert(keeps(o, slots, m3.memory, m4.memory));
    keeps_again(o, slots, m.memory, m3.memory, m4.memory);
    keeps_again(o, slots, before, m.memory, m4.memory);
    list_stays(o, slots, m.memory, m4.memory, fresh, size, held);
    clone_fits(c, o, element, m3.memory, x, m4.memory, y);
    stored_over(m4.memory, fresh, size, held, index, y);
    own_store_keeps(
        o,
        slots,
        before,
        m4.memory,
        fresh,
        (held.len() * size) as int,
        fresh + index * size,
        y,
        size,
    );
    let own = (fresh, (held.len() * size) as int);
    store_keeps_but(o, slots, m4.memory, fresh, own.1, fresh + index * size, y, size);
    frame_stays(o, slots, m.memory, m3.memory);
    assert forall|q: int| fresh <= q < fresh + own.1 implies #[trigger] m3.memory.taken.contains(q) by {
        assert(m.memory.taken.contains(q));
    }
    news_are_apart(o, slots, fresh, own.1, m3.memory, m4.memory);
    keeps_again(o, slots, before, m.memory, m3.memory);
    assert(made(c, o, element, slots, own, before, x, m5.memory, y)) by {
        assert(clones(c, o, element, m3.memory, x, m4.memory, y));
    }
    keeps_on(o, slots, m.memory, m4.memory, m5.memory, own.0, own.1);
    all_made_later(c, o, element, slots, own, before, items, m.memory, held, m5.memory);
    let new_items = items.update(index, x);
    let new_held = held.update(index, y);
    assert forall|i: int| 0 <= i < items.len() implies #[trigger] made(
        c,
        o,
        element,
        slots,
        own,
        before,
        new_items[i],
        m5.memory,
        new_held[i],
    ) by {
        if i != index {
            assert(made(c, o, element, slots, own, before, items[i], m5.memory, held[i]));
        }
    }
    all_made_are_copied(c, o, element, slots, own, before, new_items, m5.memory, new_held);
    return_runs(c, code, o, m5, b.cur, buf, len, element, new_items, new_held, before);
}

/// `List.replace_at` gives back the receiver's elements with the one at
/// the index replaced, or the same elements where the index, as an
/// unsigned number, is not below the length; acquired all of them.
pub proof fn replace_at_updates(
    c: &EmitContext,
    element: IRType,
    o: Outside,
    memory: Memory,
    items: Seq<int>,
)
    requires
        acquires(c, o, element),
        releases_harmlessly(c, o, element),
        list_param(
            o,
            0,
            replace_at_code(c, start(), element).slots,
            memory,
            value_type(element),
            items,
        ),
        size_fits(o, value_type(element), items.len() as int),
        0 <= (o.values)(Val::Param(1)) <= u64::MAX,
        0 <= (o.values)(Val::Param(2)) < byte_limit(byte_count(o, value_type(element))),
    ensures
        ({
            let code = replace_at_code(c, start(), element);
            let index = (o.values)(Val::Param(1));
            let x = (o.values)(Val::Param(2));
            let updated = if index < items.len() {
                items.update(index, x)
            } else {
                items
            };
            booted(code, memory).comes_to(code, o, gave_copies(c, code, o, element, updated, memory))
        }),
{
    replace_shape(c, element);
    replace_runs(c, replace_at_code(c, start(), element), element, o, memory, items);
}

/// The front of `List.replace_at`.
spec fn replace_front() -> Code {
    let s = start();
    s.word("in_bounds"@).word("done"@)
        .i(Inst::Extract(LType::List, Val::Param(0), 0))
        .i(Inst::Extract(LType::List, Val::Param(0), 1))
        .i(itest(Pred::Ult, Val::Param(1), s.v(1)))
        .i(Inst::CondBr(s.v(2), s.b(0), s.b(1)))
        .at(s.b(0))
}

/// The block of `List.replace_at` for an index in bounds.
spec fn replace_inside(c: &EmitContext, element: IRType) -> (Code, Code) {
    let e = replace_front();
    let size = Val::SizeOf(value_type(element));
    let b = copy_buffer_code(c, e, Walk::Acquire, element, Val::At(0), Val::At(1), Val::At(1), size);
    (b, replaced_code(c, b, element, e.v(1), Val::At(1)))
}

/// The body is that of `List.replace_at`.
spec fn replace_stands(c: &EmitContext, code: Code, element: IRType) -> bool {
    let e = replace_front();
    let (b, t) = replace_inside(c, element);
    let d = t.at(2);
    &&& tidy(e)
    &&& tidy(d)
    &&& d.blocks <= 64
    &&& d.log.len() <= 64
    &&& begins_as(code, e)
    &&& begins_as(code, b)
    &&& begins_as(code, t)
    &&& begins_as(code, clone_list_code(c, d, element))
    &&& 4 < b.log.len() < t.log.len() < code.log.len()
    &&& code.log[4].block == 1
    &&& code.log[b.log.len() as int].block == b.cur
    &&& code.log[t.log.len() as int].block == 2
    &&& forall|i: int| 0 <= i < t.log.len() ==> (#[trigger] code.log[i]).block != 2
    &&& heap_owner(c, element) ==> code.slots == seq![LType::I64, LType::I64] && d.slots.len() == 1
}

/// What `List.replace_at` records.
#[verifier::spinoff_prover]
#[verifier::rlimit(80)]
proof fn replace_shape(c: &EmitContext, element: IRType)
    ensures
        replace_stands(c, replace_at_code(c, start(), element), element),
{
    let code = replace_at_code(c, start(), element);
    let s = start();
    let ty = value_type(element);
    let e = replace_front();
    let (b, t) = replace_inside(c, element);
    let d = t.at(2);
    assert(tidy(e));
    copy_shape(c, e, element, s.v(0), s.v(1), s.v(1), Val::SizeOf(ty));
    replaced_shape(c, b, element, e.v(1), s.v(1));
    assert(code == clone_list_code(c, d, element));
    clone_shape(c, d, element);
    log_begins_further(code.log, d.log, b.log);
    log_begins_further(code.log, b.log, e.log);
    assert(b.log[4].block == 1);
    assert(heap_owner(c, element) ==> code.slots =~= seq![LType::I64, LType::I64]);
    assert forall|i: int| 0 <= i < t.log.len() implies (#[trigger] code.log[i]).block != 2 by {
        assert(code.log[i] == t.log[i]);
        if i < b.log.len() {
            assert(t.log[i] == b.log[i]);
            if i < 4 {
                assert(b.log[i] == e.log[i]);
            }
        }
    }
}

/// The way through `List.replace_at`.
proof fn replace_runs(
    c: &EmitContext,
    code: Code,
    element: IRType,
    o: Outside,
    memory: Memory,
    items: Seq<int>,
)
    requires
        replace_stands(c, code, element),
        acquires(c, o, element),
        releases_harmlessly(c, o, element),
        list_param(o, 0, code.slots, memory, value_type(element), items),
        size_fits(o, value_type(element), items.len() as int),
        0 <= (o.values)(Val::Param(1)) <= u64::MAX,
        0 <= (o.values)(Val::Param(2)) < byte_limit(byte_count(o, value_type(element))),
    ensures
        ({
            let index = (o.values)(Val::Param(1));
            let x = (o.values)(Val::Param(2));
            let updated = if index < items.len() {
                items.update(index, x)
            } else {
                items
            };
            booted(code, memory).comes_to(code, o, gave_copies(c, code, o, element, updated, memory))
        }),
{
    let s = start();
    let slots = code.slots;
    let ty = value_type(element);
    let size = byte_count(o, ty);
    let n = items.len();
    let index = (o.values)(Val::Param(1));
    let x = (o.values)(Val::Param(2));
    let updated = if index < n {
        items.update(index, x)
    } else {
        items
    };
    let goal = gave_copies(c, code, o, element, updated, memory);
    let e = replace_front();
    let (b, t) = replace_inside(c, element);
    let d = t.at(2);
    beginning_stands(code, e);
    seek_finds(code.log, 0, 0, 0);
    seek_finds(code.log, 1, 0, 4);
    seek_finds(code.log, 2, 0, d.log.len());
    let m0 = booted(code, memory);
    extracts(m0, code, o, LType::List, 0, 0);
    let m1 = m0.step(code, o);
    extracts(m1, code, o, LType::List, 0, 1);
    let m2 = m1.step(code, o);
    tests(m2, code, o, Pred::Ult, LType::I64, Val::Param(1), Val::At(1));
    let m3 = m2.step(code, o);
    branches(m3, code, o, Val::At(2), 1, 2);
    let m4 = m3.step(code, o);
    if index < n {
        assert(m4.at == 4);
        match copy_runs(
            c,
            code,
            o,
            e,
            m4,
            element,
            s.v(0),
            s.v(1),
            s.v(1),
            items,
            slots,
            goal,
        ) {
            Some((m8, held)) => {
                assert(read(o, m8.results, s.v(1)) == n);
                replace_ends(c, code, o, b, m8, element, e.v(1), s.v(1), items, held, memory);
            },
            None => {},
        }
    } else {
        assert(m4.at == d.log.len());
        clone_runs(c, code, o, d, m4, element, items);
    }
}

/// The end of `List.replace_at` in the block of an index in bounds.
spec fn replaced_code(c: &EmitContext, b: Code, element: IRType, buf: Val, len: Val) -> Code {
    let ty = value_type(element);
    let e = element_slot_code(b, buf, Val::Param(1), Val::SizeOf(ty));
    let r = release_in_slot_code(c, e, element, b.v(1));
    let (a, value) = acquire_value_code(c, r, element, Val::Param(2));
    ret_list_code(a.i(Inst::Store(ty, value, b.v(1))), buf, len)
}

/// What the end of `List.replace_at` records.
proof fn replaced_shape(c: &EmitContext, b: Code, element: IRType, buf: Val, len: Val)
    requires
        tidy(b),
        b.log.len() + 20 <= usize::MAX,
    ensures
        ({
            let t = replaced_code(c, b, element, buf, len);
            &&& continues(t, b, 20)
            &&& t.cur == b.cur
            &&& t.blocks == b.blocks
            &&& t.slots == b.slots
            &&& t.log.len() > b.log.len()
            &&& t.log[b.log.len() as int].block == b.cur
            &&& forall|i: int| b.log.len() <= i < t.log.len() ==> (#[trigger] t.log[i]).block == b.cur
        }),
{
    let ty = value_type(element);
    let e = element_slot_code(b, buf, Val::Param(1), Val::SizeOf(ty));
    let r = release_in_slot_code(c, e, element, b.v(1));
    let (a, value) = acquire_value_code(c, r, element, Val::Param(2));
    let t = replaced_code(c, b, element, buf, len);
    assert(e.log.is_prefix_of(r.log));
    assert(r.log.is_prefix_of(a.log));
    assert(a.log.is_prefix_of(t.log));
    log_begins_further(t.log, a.log, r.log);
    log_begins_further(t.log, r.log, e.log);
    assert(b.log.is_prefix_of(e.log));
    log_begins_further(t.log, e.log, b.log);
    assert forall|i: int| b.log.len() <= i < t.log.len() implies (#[trigger] t.log[i]).block == b.cur by {
        if i < a.log.len() {
            assert(t.log[i] == a.log[i]);
        }
    }
}

/// What a copy of the receiver records.
proof fn clone_shape(c: &EmitContext, s: Code, element: IRType)
    requires
        tidy(s),
        s.log.len() + 32 <= usize::MAX,
        s.blocks + 3 <= usize::MAX,
    ensures
        ({
            let t = clone_list_code(c, s, element);
            &&& s.log.is_prefix_of(t.log)
            &&& t.edges == s.edges
            &&& s.log.len() < t.log.len() <= s.log.len() + 32
            &&& t.log[s.log.len() as int].block == s.cur
            &&& t.slots == if heap_owner(c, element) {
                s.slots.push(LType::I64)
            } else {
                s.slots
            }
        }),
{
    let e = s.i(Inst::Extract(LType::List, Val::Param(0), 0)).i(
        Inst::Extract(LType::List, Val::Param(0), 1),
    );
    let ty = value_type(element);
    let b = copy_buffer_code(c, e, Walk::Acquire, element, s.v(0), s.v(1), s.v(1), Val::SizeOf(ty));
    let t = clone_list_code(c, s, element);
    assert(tidy(e));
    copy_shape(c, e, element, s.v(0), s.v(1), s.v(1), Val::SizeOf(ty));
    assert(t == ret_list_code(b, e.v(1), s.v(1)));
    assert(b.log.is_prefix_of(t.log));
    log_begins_further(t.log, b.log, e.log);
    assert(s.log.is_prefix_of(e.log));
    log_begins_further(t.log, e.log, s.log);
}

/// Some of the elements, from `from` on.
pub proof fn part_of_items(memory: Memory, buf: int, size: nat, items: Seq<int>, from: int, n: int)
    requires
        holds_items(memory, buf, size, items),
        0 <= from,
        0 <= n,
        from + n <= items.len(),
    ensures
        0 <= from * size,
        0 <= n * size,
        from * size + n * size <= items.len() * size,
        holds_items(memory, buf + from * size, size, items.subrange(from, from + n)),
{
    let part = items.subrange(from, from + n);
    assert(0 <= from * size && 0 <= n * size && from * size + n * size == (from + n) * size && (from
        + n) * size <= items.len() * size) by (nonlinear_arith)
        requires
            0 <= from,
            0 <= n,
            0 <= size,
            from + n <= items.len(),
    ;
    assert(part.len() * size == n * size);
    assert forall|i: int| 0 <= i < n implies #[trigger] item(memory, buf + from * size, size, i)
        == part[i] by {
        assert((from + i) * size == from * size + i * size) by (nonlinear_arith);
        assert(item(memory, buf, size, from + i) == items[from + i]);
    }
}

/// A copied part of a taken buffer holds the same elements.
proof fn slice_copied(
    o: Outside,
    memory: Memory,
    now: Memory,
    fresh: int,
    src: int,
    size: nat,
    part: Seq<int>,
)
    requires
        heap_calls(o),
        spares(memory, now),
        holds_items(memory, src, size, part),
        all_taken(memory, src, (part.len() * size) as int),
        in_memory(fresh, (part.len() * size) as int),
        none_taken(memory, fresh, (part.len() * size) as int),
        sound(memory),
    ensures
        ({
            let n = (part.len() * size) as int;
            let after = (o.calls)(Callee::Runtime(Rt::Memcpy), seq![fresh, src, n], now).1;
            &&& copies(now, fresh, src, n, after)
            &&& holds_items(after, fresh, size, part)
            &&& spares(memory, after)
        }),
{
    let n = (part.len() * size) as int;
    let after = (o.calls)(Callee::Runtime(Rt::Memcpy), seq![fresh, src, n], now).1;
    assert(0 <= n) by (nonlinear_arith)
        requires
            n == part.len() * size,
    ;
    apart(memory, fresh, n, src, n);
    memcpy_call(o, now, fresh, src, n);
    assert forall|i: int| 0 <= i < n implies #[trigger] byte(after, fresh + i) == byte(
        memory,
        src + i,
    ) by {
        assert(memory.taken.contains(src + i));
        assert(byte(after, fresh + i) == byte(now, src + i));
    }
    copy_holds_items(memory, src, after, fresh, size, part);
    assert forall|q: int| #[trigger] memory.taken.contains(q) implies after.taken.contains(q)
        && byte(after, q) == byte(memory, q) by {
        assert(byte(after, q) == byte(now, q));
    }
}

/// Elements behind one another make up one sequence.
proof fn items_join(memory: Memory, buf: int, size: nat, a: Seq<int>, b: Seq<int>)
    requires
        holds_items(memory, buf, size, a),
        holds_items(memory, buf + a.len() * size, size, b),
    ensures
        holds_items(memory, buf, size, a + b),
{
    assert((a.len() + b.len()) * size == a.len() * size + b.len() * size) by (nonlinear_arith);
    let whole = a + b;
    assert forall|i: int| 0 <= i < whole.len() implies #[trigger] item(memory, buf, size, i)
        == whole[i] by {
        if i >= a.len() {
            let j = i - a.len();
            assert(i * size == a.len() * size + j * size) by (nonlinear_arith)
                requires
                    i == a.len() + j,
            ;
            assert(item(memory, buf + a.len() * size, size, j) == b[j]);
        }
    }
}

/// The copied part of a list is acquired and given back.
proof fn slice_ends(
    c: &EmitContext,
    code: Code,
    o: Outside,
    s: Code,
    m: Machine,
    element: IRType,
    buf: Val,
    count: Val,
    part: Seq<int>,
    before: Memory,
)
    requires
        ({
            let ty = value_type(element);
            let size = byte_count(o, ty);
            let w = walk_buffer_code(c, s, Walk::Acquire, element, buf, count, Val::SizeOf(ty));
            let fresh = read(o, m.results, buf);
            &&& begins_as(code, ret_list_code(w, buf, count))
            &&& size <= u64::MAX
            &&& walking(o, code.slots, m.memory, fresh, size, part)
            &&& none_taken(before, fresh, (part.len() * size) as int)
        }),
        heap_owner(c, element) ==> counts_in(code.slots, s.slots.len()),
        tidy(s),
        s.blocks + 3 <= usize::MAX,
        s.log.len() + 32 <= usize::MAX,
        s.defines(buf),
        s.defines(count),
        m.at == s.log.len(),
        m.returned is None,
        acquires(c, o, element),
        read(o, m.results, count) == part.len(),
        part.len() <= u64::MAX,
        keeps(o, code.slots, before, m.memory),
    ensures
        m.comes_to(
            code,
            o,
            gave_copies(c, code, o, element, part, before),
        ),
{
    let ty = value_type(element);
    let size = byte_count(o, ty);
    let slots = code.slots;
    let w = walk_buffer_code(c, s, Walk::Acquire, element, buf, count, Val::SizeOf(ty));
    let r = ret_list_code(w, buf, count);
    let fresh = read(o, m.results, buf);
    walk_shape(c, s, element, buf, count, Val::SizeOf(ty));
    assert(w.log.is_prefix_of(r.log));
    log_begins_further(code.log, r.log, w.log);
    let (l, held) = walk_runs(c, code, o, s, m, element, buf, count, part, slots);
    let own = (fresh, (part.len() * size) as int);
    all_made_earlier(c, o, element, slots, own, m.memory, part, l.memory, held, before);
    all_made_are_copied(c, o, element, slots, own, before, part, l.memory, held);
    keeps_on(o, slots, before, m.memory, l.memory, fresh, (part.len() * size) as int);
    fresh_keeps(o, slots, before, l.memory, fresh, (part.len() * size) as int);
    return_runs(c, code, o, l, w.cur, buf, count, element, part, held, before);
}

/// The front of `List.slice`.
spec fn slice_front(element: IRType) -> Code {
    let s = start();
    let size = Val::SizeOf(value_type(element));
    s.word("nonempty"@).word("empty"@)
        .i(Inst::Extract(LType::List, Val::Param(0), 0))
        .i(Inst::Extract(LType::List, Val::Param(0), 1))
        .i(itest(Pred::Ult, Val::Param(1), s.v(1)))
        .i(Inst::Select(LType::I64, s.v(2), Val::Param(1), s.v(1)))
        .i(isub(s.v(1), s.v(3)))
        .i(itest(Pred::Ule, Val::Param(2), s.v(4)))
        .i(Inst::Select(LType::I64, s.v(5), Val::Param(2), s.v(4)))
        .i(itest(Pred::Ugt, s.v(6), num(0)))
        .i(Inst::CondBr(s.v(7), s.b(0), s.b(1)))
        .at(s.b(0))
        .i(imul(s.v(6), size))
        .i(call(Rt::Malloc, a1(s.v(9))))
        .i(imul(s.v(3), size))
        .i(gep(s.v(0), s.v(11)))
        .i(call(Rt::Memcpy, a3(s.v(10), s.v(12), s.v(9))))
}

/// What `List.slice` records.
proof fn slice_shape(c: &EmitContext, element: IRType)
    ensures
        ({
            let code = slice_code(c, start(), element);
            let front = slice_front(element);
            let size = Val::SizeOf(value_type(element));
            let w = walk_buffer_code(c, front, Walk::Acquire, element, Val::At(10), Val::At(6), size);
            let r = ret_list_code(w, Val::At(10), Val::At(6));
            let n = r.log.len() as int;
            &&& tidy(front)
            &&& front.slots.len() == 0
            &&& front.blocks == 3
            &&& front.log.len() == 14
            &&& begins_as(code, r)
            &&& begins_as(code, front)
            &&& code.log.len() == n + 5
            &&& heap_owner(c, element) ==> code.slots == seq![LType::I64]
            &&& stands(code, n, 2, call(Rt::Malloc, a1(num(0))))
            &&& return_stands(code, n + 1, 2, Val::At(n as usize), num(0))
            &&& forall|i: int| 0 <= i < n ==> (#[trigger] code.log[i]).block != 2
            &&& n <= 64
            &&& code.log[14].block == 1
        }),
{
    let code = slice_code(c, start(), element);
    let front = slice_front(element);
    let size = Val::SizeOf(value_type(element));
    let w = walk_buffer_code(c, front, Walk::Acquire, element, Val::At(10), Val::At(6), size);
    let r = ret_list_code(w, Val::At(10), Val::At(6));
    assert(tidy(front));
    walk_shape(c, front, element, Val::At(10), Val::At(6), size);
    assert(w.log.is_prefix_of(r.log));
    let full = r.at(start().b(1));
    let end = ret_list_code(full.i(call(Rt::Malloc, a1(num(0)))), full.v(0), num(0));
    assert(code == end);
    assert(r.log.is_prefix_of(end.log));
    log_begins_further(code.log, r.log, w.log);
    log_begins_further(code.log, w.log, front.log);
    assert(code.log[14].block == 1) by {
        if heap_owner(c, element) {
            let b = loop_begin(front, Val::At(6));
            let f = acquire_in_slot_code(
                c,
                element_slot_code(b, Val::At(10), front.v(2), size),
                element,
                b.v(1),
            );
            assert(b.log.is_prefix_of(f.log));
            assert(f.log.is_prefix_of(w.log));
            log_begins_further(w.log, f.log, b.log);
            assert(w.log[14] == b.log[14]);
        }
    }
}

/// `List.slice` gives back the elements from the start on, as many as
/// asked for, and fewer or none where the receiver ends before; acquired
/// all of them. Start and count are unsigned.
pub proof fn slice_takes_a_part(
    c: &EmitContext,
    element: IRType,
    o: Outside,
    memory: Memory,
    items: Seq<int>,
)
    requires
        acquires(c, o, element),
        list_param(
            o,
            0,
            slice_code(c, start(), element).slots,
            memory,
            value_type(element),
            items,
        ),
        size_fits(o, value_type(element), items.len() as int),
        0 <= (o.values)(Val::Param(1)) <= u64::MAX,
        0 <= (o.values)(Val::Param(2)) <= u64::MAX,
    ensures
        ({
            let code = slice_code(c, start(), element);
            let size = byte_count(o, value_type(element));
            let first = (o.values)(Val::Param(1));
            let count = (o.values)(Val::Param(2));
            let from = if first < items.len() {
                first
            } else {
                items.len() as int
            };
            let n = if count <= items.len() - from {
                count
            } else {
                items.len() - from
            };
            booted(code, memory).comes_to(
                code,
                o,
                gave_copies(c, code, o, element, items.subrange(from, from + n), memory),
            )
        }),
{
    slice_shape(c, element);
    slice_runs(c, slice_code(c, start(), element), element, o, memory, items);
}

/// The way through `List.slice`.
proof fn slice_runs(
    c: &EmitContext,
    code: Code,
    element: IRType,
    o: Outside,
    memory: Memory,
    items: Seq<int>,
)
    requires
        ({
            let front = slice_front(element);
            let size = Val::SizeOf(value_type(element));
            let w = walk_buffer_code(c, front, Walk::Acquire, element, Val::At(10), Val::At(6), size);
            let r = ret_list_code(w, Val::At(10), Val::At(6));
            let n = r.log.len() as int;
            &&& tidy(front)
            &&& front.slots.len() == 0
            &&& front.blocks == 3
            &&& front.log.len() == 14
            &&& begins_as(code, r)
            &&& begins_as(code, front)
            &&& code.log.len() == n + 5
            &&& heap_owner(c, element) ==> code.slots == seq![LType::I64]
            &&& stands(code, n, 2, call(Rt::Malloc, a1(num(0))))
            &&& return_stands(code, n + 1, 2, Val::At(n as usize), num(0))
            &&& forall|i: int| 0 <= i < n ==> (#[trigger] code.log[i]).block != 2
            &&& n <= 64
            &&& code.log[14].block == 1
        }),
        acquires(c, o, element),
        list_param(o, 0, code.slots, memory, value_type(element), items),
        size_fits(o, value_type(element), items.len() as int),
        0 <= (o.values)(Val::Param(1)) <= u64::MAX,
        0 <= (o.values)(Val::Param(2)) <= u64::MAX,
    ensures
        ({
            let size = byte_count(o, value_type(element));
            let first = (o.values)(Val::Param(1));
            let count = (o.values)(Val::Param(2));
            let from = if first < items.len() {
                first
            } else {
                items.len() as int
            };
            let n = if count <= items.len() - from {
                count
            } else {
                items.len() - from
            };
            booted(code, memory).comes_to(
                code,
                o,
                gave_copies(c, code, o, element, items.subrange(from, from + n), memory),
            )
        }),
{
    let slots = code.slots;
    let front = slice_front(element);
    let ty = value_type(element);
    let size = byte_count(o, ty);
    let len = items.len() as int;
    let buf = (o.parts)(0, 0);
    let first = (o.values)(Val::Param(1));
    let count = (o.values)(Val::Param(2));
    let from = if first < len {
        first
    } else {
        len
    };
    let n = if count <= len - from {
        count
    } else {
        len - from
    };
    let part = items.subrange(from, from + n);
    let w = walk_buffer_code(
        c,
        front,
        Walk::Acquire,
        element,
        Val::At(10),
        Val::At(6),
        Val::SizeOf(ty),
    );
    let end = ret_list_code(w, Val::At(10), Val::At(6)).log.len();
    beginning_stands(code, front);
    part_of_items(memory, buf, size, items, from, n);
    seek_finds(code.log, 0, 0, 0);
    seek_finds(code.log, 1, 0, 9);
    seek_finds(code.log, 2, 0, end);
    let m0 = booted(code, memory);
    extracts(m0, code, o, LType::List, 0, 0);
    let m1 = m0.step(code, o);
    extracts(m1, code, o, LType::List, 0, 1);
    let m2 = m1.step(code, o);
    tests(m2, code, o, Pred::Ult, LType::I64, Val::Param(1), Val::At(1));
    let m3 = m2.step(code, o);
    picks(m3, code, o, LType::I64, Val::At(2), Val::Param(1), Val::At(1));
    let m4 = m3.step(code, o);
    assert(m4.results[3] == from);
    combines(m4, code, o, BinOp::Sub, LType::I64, Val::At(1), Val::At(3));
    let m5 = m4.step(code, o);
    assert(m5.results[4] == len - from);
    tests(m5, code, o, Pred::Ule, LType::I64, Val::Param(2), Val::At(4));
    let m6 = m5.step(code, o);
    picks(m6, code, o, LType::I64, Val::At(5), Val::Param(2), Val::At(4));
    let m7 = m6.step(code, o);
    assert(m7.results[6] == n);
    tests(m7, code, o, Pred::Ugt, LType::I64, Val::At(6), num(0));
    let m8 = m7.step(code, o);
    branches(m8, code, o, Val::At(7), 1, 2);
    let m9 = m8.step(code, o);
    if n > 0 {
        assert(m9.at == 9);
        slice_copies(c, code, element, o, m9, memory, items, from, n);
    } else {
        assert(m9.at == end);
        assert(arguments(o, m9.results, a1(num(0))) =~= seq![0int]) by {
            reveal_with_fuel(arguments, 2);
        }
        calls(m9, code, o, Callee::Runtime(Rt::Malloc), a1(num(0)));
        let m19 = m9.step(code, o);
        malloc_call(o, memory, 0);
        assert(part.len() * size == 0) by (nonlinear_arith)
            requires
                part.len() == 0,
        ;
        return_runs(
            c,
            code,
            o,
            m19,
            2,
            Val::At(end as usize),
            num(0),
            element,
            part,
            part,
            memory,
        );
    }
}

/// The way through `List.slice` from the allocation on.
proof fn slice_copies(
    c: &EmitContext,
    code: Code,
    element: IRType,
    o: Outside,
    m9: Machine,
    memory: Memory,
    items: Seq<int>,
    from: int,
    n: int,
)
    requires
        ({
            let front = slice_front(element);
            let size = Val::SizeOf(value_type(element));
            let w = walk_buffer_code(c, front, Walk::Acquire, element, Val::At(10), Val::At(6), size);
            &&& tidy(front)
            &&& front.slots.len() == 0
            &&& front.blocks == 3
            &&& front.log.len() == 14
            &&& begins_as(code, ret_list_code(w, Val::At(10), Val::At(6)))
            &&& begins_as(code, front)
            &&& code.log.len() > 14
            &&& heap_owner(c, element) ==> code.slots == seq![LType::I64]
            &&& code.log[14].block == 1
        }),
        acquires(c, o, element),
        list_param(o, 0, code.slots, memory, value_type(element), items),
        size_fits(o, value_type(element), items.len() as int),
        0 <= from,
        0 < n,
        from + n <= items.len(),
        m9.at == 9,
        m9.returned is None,
        m9.memory == memory,
        m9.results[0] == (o.parts)(0, 0),
        m9.results[3] == from,
        m9.results[6] == n,
    ensures
        m9.comes_to(
            code,
            o,
            gave_copies(c, code, o, element, items.subrange(from, from + n), memory),
        ),
{
    let slots = code.slots;
    let front = slice_front(element);
    let ty = value_type(element);
    let size = byte_count(o, ty);
    let buf = (o.parts)(0, 0);
    let part = items.subrange(from, from + n);
    let goal = gave_copies(c, code, o, element, part, memory);
    beginning_stands(code, front);
    part_of_items(memory, buf, size, items, from, n);
    multiplies(m9, code, o, Val::At(6), Val::SizeOf(ty));
    let m10 = m9.step(code, o);
    assert(m10.results[9] == n * size);
    assert(arguments(o, m10.results, a1(Val::At(9))) =~= seq![n * size]) by {
        reveal_with_fuel(arguments, 2);
    }
    calls(m10, code, o, Callee::Runtime(Rt::Malloc), a1(Val::At(9)));
    let m11 = m10.step(code, o);
    let fresh = m11.results[10];
    malloc_call(o, memory, n * size);
    if fresh == 0 {
        assert(starved(code, m11));
        arrives(m11, code, o, goal);
    } else {
        multiplies(m11, code, o, Val::At(3), Val::SizeOf(ty));
        let m12 = m11.step(code, o);
        address_in_range(from * size);
        assert(m12.results[11] == from * size);
        moves(m12, code, o, Val::At(0), Val::At(11));
        let m13 = m12.step(code, o);
        let src = buf + from * size;
        address_in_range(src);
        assert(m13.results[12] == src);
        assert(arguments(o, m13.results, a3(Val::At(10), Val::At(12), Val::At(9))) =~= seq![
            fresh,
            src,
            n * size,
        ]) by {
            reveal_with_fuel(arguments, 4);
        }
        calls(
            m13,
            code,
            o,
            Callee::Runtime(Rt::Memcpy),
            a3(Val::At(10), Val::At(12), Val::At(9)),
        );
        let m14 = m13.step(code, o);
        slice_copied(o, memory, m13.memory, fresh, src, size, part);
        fresh_is_off_frame(o, slots, memory, fresh, n * size);
        frame_stays(o, slots, memory, m14.memory);
        slice_ends(
            c,
            code,
            o,
            front,
            m14,
            element,
            Val::At(10),
            Val::At(6),
            part,
            memory,
        );
    }
}

/// The front of `List.concat`, the copy of the receiver, and the copy of
/// the other list behind it.
spec fn concat_parts(c: &EmitContext, element: IRType) -> (Code, Code, Code, Code) {
    let s = start();
    let size = Val::SizeOf(value_type(element));
    let e = s.i(Inst::Extract(LType::List, Val::Param(0), 0))
        .i(Inst::Extract(LType::List, Val::Param(0), 1))
        .i(Inst::Extract(LType::List, Val::Param(1), 0))
        .i(Inst::Extract(LType::List, Val::Param(1), 1))
        .i(iadd(s.v(1), s.v(3)));
    let b = copy_buffer_code(c, e, Walk::Acquire, element, Val::At(0), Val::At(1), Val::At(4), size);
    let d = b.i(imul(Val::At(1), size))
        .i(gep(Val::At(6), b.v(0)))
        .i(imul(Val::At(3), size))
        .i(call(Rt::Memcpy, a3(b.v(1), Val::At(2), b.v(2))));
    (e, b, d, walk_buffer_code(c, d, Walk::Acquire, element, b.v(1), Val::At(3), size))
}

/// The body is that of `List.concat`.
spec fn concat_stands(c: &EmitContext, code: Code, element: IRType) -> bool {
    let (e, b, d, w) = concat_parts(c, element);
    &&& tidy(e)
    &&& tidy(d)
    &&& d.blocks <= 64
    &&& begins_as(code, e)
    &&& begins_as(code, b)
    &&& begins_as(code, d)
    &&& begins_as(code, w)
    &&& return_stands(code, w.log.len() as int, w.cur, Val::At(6), Val::At(4))
    &&& 9 <= b.log.len() <= 32
    &&& d.log.len() == b.log.len() + 4
    &&& d.log.len() <= w.log.len() < code.log.len()
    &&& d.cur == b.cur
    &&& code.log[0].block == 0
    &&& code.log[5].block == 0
    &&& code.log[b.log.len() as int].block == b.cur
    &&& code.log[d.log.len() as int].block == d.cur
    &&& code.log[w.log.len() as int].block == w.cur
    &&& heap_owner(c, element) ==> code.slots == seq![LType::I64, LType::I64] && d.slots.len() == 1
}

/// What `List.concat` records.
#[verifier::spinoff_prover]
#[verifier::rlimit(80)]
proof fn concat_shape(c: &EmitContext, element: IRType)
    ensures
        concat_stands(c, concat_code(c, start(), element), element),
{
    let code = concat_code(c, start(), element);
    let size = Val::SizeOf(value_type(element));
    let (e, b, d, w) = concat_parts(c, element);
    let r = ret_list_code(w, Val::At(6), Val::At(4));
    assert(tidy(e));
    copy_shape(c, e, element, Val::At(0), Val::At(1), Val::At(4), size);
    assert(b.log.is_prefix_of(d.log));
    assert(tidy(d));
    walk_shape(c, d, element, b.v(1), Val::At(3), size);
    assert(code == r);
    assert(w.log.is_prefix_of(r.log));
    log_begins_further(code.log, w.log, d.log);
    log_begins_further(code.log, d.log, b.log);
    log_begins_further(code.log, b.log, e.log);
    assert(code.log[0] == e.log[0]);
    assert(code.log[5] == b.log[5]);
    assert(b.log[5].block == 0);
    assert(code.log[b.log.len() as int] == d.log[b.log.len() as int]);
    assert(heap_owner(c, element) ==> code.slots =~= seq![LType::I64, LType::I64]);
    assert(code.log[d.log.len() as int].block == d.cur) by {
        if heap_owner(c, element) {
            let l = loop_begin(d, Val::At(3));
            let f = acquire_in_slot_code(
                c,
                element_slot_code(l, b.v(1), d.v(2), size),
                element,
                l.v(1),
            );
            assert(l.log.is_prefix_of(f.log));
            assert(f.log.is_prefix_of(w.log));
            log_begins_further(w.log, f.log, l.log);
            assert(w.log[d.log.len() as int] == l.log[d.log.len() as int]);
        }
    }
}

/// `List.concat` gives back the receiver's elements and then the other
/// list's, acquired all of them.
pub proof fn concat_joins(
    c: &EmitContext,
    element: IRType,
    o: Outside,
    memory: Memory,
    items: Seq<int>,
    more: Seq<int>,
)
    requires
        acquires(c, o, element),
        ({
            let slots = concat_code(c, start(), element).slots;
            &&& list_param(o, 0, slots, memory, value_type(element), items)
            &&& list_param(o, 1, slots, memory, value_type(element), more)
        }),
        size_fits(o, value_type(element), (items.len() + more.len()) as int),
    ensures
        ({
            let code = concat_code(c, start(), element);
            booted(code, memory).comes_to(
                code,
                o,
                gave_copies(c, code, o, element, items + more, memory),
            )
        }),
{
    let code = concat_code(c, start(), element);
    let slots = code.slots;
    let ty = value_type(element);
    let size = byte_count(o, ty);
    let (n, k) = (items.len(), more.len());
    let (e, b, d, w) = concat_parts(c, element);
    let goal = gave_copies(c, code, o, element, items + more, memory);
    concat_shape(c, element);
    beginning_stands(code, e);
    assert(0 <= n * size && 0 <= k * size && (n + k) * size == n * size + k * size)
        by (nonlinear_arith)
        requires
            0 <= n,
            0 <= k,
            0 <= size,
    ;
    seek_finds(code.log, 0, 0, 0);
    let m0 = booted(code, memory);
    extracts(m0, code, o, LType::List, 0, 0);
    let m1 = m0.step(code, o);
    extracts(m1, code, o, LType::List, 0, 1);
    let m2 = m1.step(code, o);
    extracts(m2, code, o, LType::List, 1, 0);
    let m3 = m2.step(code, o);
    extracts(m3, code, o, LType::List, 1, 1);
    let m4 = m3.step(code, o);
    assert(m4.results[1] == n && m4.results[3] == k);
    address_in_range((n + k) as int);
    combines(m4, code, o, BinOp::Add, LType::I64, Val::At(1), Val::At(3));
    let m5 = m4.step(code, o);
    assert(m5.results[4] == n + k);
    match copy_runs(
        c,
        code,
        o,
        e,
        m5,
        element,
        Val::At(0),
        Val::At(1),
        Val::At(4),
        items,
        slots,
        goal,
    ) {
        Some((m9, held)) => {
            list_stays(o, slots, memory, m9.memory, (o.parts)(1, 0), size, more);
            concat_ends(c, code, element, o, m9, memory, items, held, more);
        },
        None => {},
    }
}

/// The way through `List.concat` behind the copy of the receiver.
#[verifier::spinoff_prover]
#[verifier::rlimit(80)]
proof fn concat_ends(
    c: &EmitContext,
    code: Code,
    element: IRType,
    o: Outside,
    m: Machine,
    memory: Memory,
    items: Seq<int>,
    held: Seq<int>,
    more: Seq<int>,
)
    requires
        concat_stands(c, code, element),
        acquires(c, o, element),
        ({
            let size = byte_count(o, value_type(element));
            let room = ((held.len() + more.len()) * size) as int;
            let fresh = m.results[6];
            &&& m.at == concat_parts(c, element).1.log.len()
            &&& walking(o, code.slots, m.memory, fresh, size, held)
            &&& walking(o, code.slots, m.memory, (o.parts)(1, 0), size, more)
            &&& walking(o, code.slots, memory, (o.parts)(1, 0), size, more)
            &&& in_memory(fresh, room)
            &&& none_taken(memory, fresh, room)
            &&& all_taken(m.memory, fresh, room)
            &&& off_frame(o, code.slots, fresh, room)
            &&& size <= u64::MAX
            &&& all_made(
                c,
                o,
                element,
                code.slots,
                (fresh, room),
                memory,
                items,
                m.memory,
                held,
            )
        }),
        size_fits(o, value_type(element), (held.len() + more.len()) as int),
        heap_calls(o),
        m.returned is None,
        m.results[1] == held.len(),
        m.results[2] == (o.parts)(1, 0),
        m.results[3] == more.len(),
        m.results[4] == held.len() + more.len(),
        keeps(o, code.slots, memory, m.memory),
    ensures
        m.comes_to(
            code,
            o,
            gave_copies(c, code, o, element, items + more, memory),
        ),
{
    let slots = code.slots;
    let ty = value_type(element);
    let size = byte_count(o, ty);
    let (n, k) = (held.len(), more.len());
    let other = (o.parts)(1, 0);
    let fresh = m.results[6];
    let (e, b, d, w) = concat_parts(c, element);
    let room = ((n + k) * size) as int;
    let dst = (fresh + n * size) as int;
    assert(0 <= n * size && 0 <= k * size && (n + k) * size == n * size + k * size)
        by (nonlinear_arith)
        requires
            0 <= n,
            0 <= k,
            0 <= size,
    ;
    beginning_stands(code, d);
    multiplies(m, code, o, Val::At(1), Val::SizeOf(ty));
    let m10 = m.step(code, o);
    moves(m10, code, o, Val::At(6), b.v(0));
    let m11 = m10.step(code, o);
    multiplies(m11, code, o, Val::At(3), Val::SizeOf(ty));
    let m12 = m11.step(code, o);
    let to = read(o, m12.results, b.v(1));
    let copy_args = seq![to, other, (k * size) as int];
    assert(arguments(o, m12.results, a3(b.v(1), Val::At(2), b.v(2))) =~= copy_args) by {
        reveal_with_fuel(arguments, 4);
    }
    calls(m12, code, o, Callee::Runtime(Rt::Memcpy), a3(b.v(1), Val::At(2), b.v(2)));
    let m13 = m12.step(code, o);
    assert(copy_args.len() == 3 && copy_args[0] == to && copy_args[1] == other && copy_args[2] == k
        * size);
    if k * size > 0 {
        address_in_range(dst);
    }
    concat_copied(o, slots, memory, m12.memory, m13.memory, fresh, to, other, size, held, more);
    let (l, others) = walk_runs(c, code, o, d, m13, element, b.v(1), Val::At(3), more, slots);
    let own = (fresh, room);
    concat_made(
        c,
        o,
        element,
        slots,
        own,
        (to, (k * size) as int),
        memory,
        m.memory,
        m13.memory,
        l.memory,
        items,
        held,
        more,
        others,
    );
    assert forall|q: int| fresh <= q < fresh + n * size implies #[trigger] byte(l.memory, q) == byte(
        m13.memory,
        q,
    ) by {
        assert(!in_frame(o, slots, q));
        assert(m13.memory.taken.contains(q));
    }
    kept_bytes_hold_items(m13.memory, l.memory, fresh, size, held);
    concat_held(o, l.memory, to, fresh, size, held, others);
    assert(keeps(o, slots, memory, l.memory)) by {
        assert forall|q: int| #[trigger] memory.taken.contains(q) implies l.memory.taken.contains(q) && (
        in_frame(o, slots, q) || byte(l.memory, q) == byte(memory, q)) by {
            assert(m.memory.taken.contains(q));
            assert(m13.memory.taken.contains(q));
        }
    }
    assert(l.results[6] == fresh && l.results[4] == n + k);
    return_runs(
        c,
        code,
        o,
        l,
        w.cur,
        Val::At(6),
        Val::At(4),
        element,
        items + more,
        held + others,
        memory,
    );
}

/// The copies of both lists are independent.
proof fn concat_made(
    c: &EmitContext,
    o: Outside,
    element: IRType,
    slots: Seq<LType>,
    own: (int, int),
    part: (int, int),
    memory: Memory,
    now: Memory,
    mid: Memory,
    after: Memory,
    items: Seq<int>,
    held: Seq<int>,
    more: Seq<int>,
    others: Seq<int>,
)
    requires
        all_made(c, o, element, slots, own, memory, items, now, held),
        all_made(c, o, element, slots, part, mid, more, after, others),
        keeps(o, slots, memory, now),
        keeps_but(o, slots, now, mid, part.0, part.1),
        keeps_but(o, slots, mid, after, part.0, part.1),
        part.1 <= 0 || own.0 <= part.0 && part.0 + part.1 <= own.0 + own.1,
        none_taken(memory, own.0, own.1),
        all_taken(now, own.0, own.1),
    ensures
        all_copied(c, o, element, slots, memory, items + more, after, held + others),
{
    assert(keeps_but(o, slots, now, mid, own.0, own.1));
    assert(keeps_but(o, slots, mid, after, own.0, own.1));
    keeps_on(o, slots, now, mid, after, own.0, own.1);
    keeps_on(o, slots, memory, now, mid, own.0, own.1);
    all_made_later(c, o, element, slots, own, memory, items, now, held, after);
    assert forall|q: int| own.0 <= q < own.0 + own.1 implies #[trigger] mid.taken.contains(q) by {
        assert(now.taken.contains(q));
    }
    all_made_wider(c, o, element, slots, part, mid, more, after, others, memory, own);
    all_made_are_copied(c, o, element, slots, own, memory, items, after, held);
    all_made_are_copied(c, o, element, slots, own, memory, more, after, others);
    let (a, b) = (items + more, held + others);
    assert forall|i: int| 0 <= i < a.len() implies #[trigger] copied(
        c,
        o,
        element,
        slots,
        memory,
        a[i],
        after,
        b[i],
    ) by {
        if i < items.len() {
            assert(copied(c, o, element, slots, memory, items[i], after, held[i]));
        } else {
            let k = i - items.len();
            assert(copied(c, o, element, slots, memory, more[k], after, others[k]));
        }
    }
}

/// The copy of the other list behind the receiver's elements.
proof fn concat_copied(
    o: Outside,
    slots: Seq<LType>,
    memory: Memory,
    now: Memory,
    after: Memory,
    fresh: int,
    to: int,
    other: int,
    size: nat,
    held: Seq<int>,
    more: Seq<int>,
)
    requires
        ({
            let room = ((held.len() + more.len()) * size) as int;
            let copy_args = seq![to, other, (more.len() * size) as int];
            &&& after == (o.calls)(Callee::Runtime(Rt::Memcpy), copy_args, now).1
            &&& walking(o, slots, now, fresh, size, held)
            &&& walking(o, slots, now, other, size, more)
            &&& walking(o, slots, memory, other, size, more)
            &&& in_memory(fresh, room)
            &&& none_taken(memory, fresh, room)
            &&& all_taken(now, fresh, room)
            &&& off_frame(o, slots, fresh, room)
        }),
        0 <= to <= u64::MAX,
        more.len() * size > 0 ==> to == fresh + held.len() * size,
        heap_calls(o),
    ensures
        walking(o, slots, after, fresh, size, held),
        walking(o, slots, after, to, size, more),
        keeps_but(o, slots, now, after, to, (more.len() * size) as int),
{
    let (n, k) = (held.len(), more.len());
    let room = ((n + k) * size) as int;
    let copy_args = seq![to, other, (k * size) as int];
    assert(0 <= n * size && 0 <= k * size && (n + k) * size == n * size + k * size)
        by (nonlinear_arith)
        requires
            0 <= n,
            0 <= k,
            0 <= size,
    ;
    assert(copy_args.len() == 3 && copy_args[0] == to && copy_args[1] == other && copy_args[2] == k
        * size);
    if k * size > 0 {
        assert(none_taken(memory, to, (k * size) as int));
        apart(memory, to, (k * size) as int, other, (k * size) as int);
        memcpy_call(o, now, to, other, (k * size) as int);
        copy_holds_items(now, other, after, to, size, more);
    } else {
        memcpy_call(o, now, to, other, 0);
        assert forall|i: int| 0 <= i < k implies #[trigger] item(after, to, size, i) == more[i] by {
            assert(size == 0) by (nonlinear_arith)
                requires
                    k * size == 0,
                    k > 0,
                    size >= 0,
            ;
            assert(item(memory, other, size, i) == more[i]);
        }
    }
    assert forall|q: int| fresh <= q < fresh + n * size implies #[trigger] byte(after, q) == byte(
        now,
        q,
    ) by {}
    kept_bytes_hold_items(now, after, fresh, size, held);
    assert forall|q: int| to <= q < to + more.len() * size implies !#[trigger] in_frame(o, slots, q) by {
        assert(fresh <= q < fresh + room);
    }
}

/// The two parts of a joined list.
proof fn concat_held(o: Outside, memory: Memory, to: int, fresh: int, size: nat, a: Seq<int>, b: Seq<int>)
    requires
        holds_items(memory, fresh, size, a),
        holds_items(memory, to, size, b),
        in_memory(fresh, ((a.len() + b.len()) * size) as int),
        b.len() * size > 0 ==> to == fresh + a.len() * size,
    ensures
        holds_items(memory, fresh, size, a + b),
{
    let (n, k) = (a.len(), b.len());
    assert(0 <= n * size && 0 <= k * size && (n + k) * size == n * size + k * size)
        by (nonlinear_arith)
        requires
            0 <= n,
            0 <= k,
            0 <= size,
    ;
    if k * size == 0 {
        assert forall|i: int| 0 <= i < k implies #[trigger] item(memory, fresh + n * size, size, i)
            == b[i] by {
            assert(size == 0) by (nonlinear_arith)
                requires
                    k * size == 0,
                    k > 0,
                    size >= 0,
            ;
            assert(item(memory, to, size, i) == b[i]);
        }
    }
    items_join(memory, fresh, size, a, b);
}

/// The machine of a `List.get` holds the acquired element, in the block
/// that gives back `Some` of it; or it is at the block that gives back
/// `None`.
pub open spec fn got(
    c: &EmitContext,
    code: Code,
    o: Outside,
    element: IRType,
    items: Seq<int>,
    index: int,
    before: Memory,
) -> spec_fn(Machine) -> bool {
    let (a, value) = get_item_code(c, start(), element);
    |l: Machine|
        if index < items.len() {
            &&& l.at == a.log.len()
            &&& l.returned is None
            &&& a.cur == 1
            &&& clones(c, o, element, before, items[index], l.memory, read(o, l.results, value))
            &&& spares(before, l.memory)
        } else {
            l.at == seek(code.log, 2, 0) && l.returned is None && l.memory == before
        }
}

/// The front of `List.get`.
proof fn get_begins(c: &EmitContext, element: IRType, option: IRSymbol)
    ensures
        ({
            let code = get_code(c, start(), element, option);
            let a = get_item_code(c, start(), element).0;
            &&& begins_as(code, a)
            &&& a.log.len() < code.log.len()
            &&& code.log[a.log.len() as int].block == 1
        }),
{
    let s = start();
    let (a, value) = get_item_code(c, s, element);
    let some_tag = IRVariantTag(OPTION_SOME);
    let none_tag = IRVariantTag(OPTION_NONE);
    let (w, some) = enum_value_code(c, a, option, some_tag, seq![value]);
    let x = w.i(Inst::Ret(LType::Enum(option), some));
    let r = x.at(s.b(1));
    let (n, none) = enum_value_code(c, r, option, none_tag, seq![]);
    enum_value_appends(c, a, option, some_tag, seq![value]);
    enum_value_appends(c, r, option, none_tag, seq![]);
    let code = get_code(c, s, element, option);
    assert(code.log == n.i(Inst::Ret(LType::Enum(option), none)).log);
    assert(x.log.subrange(0, a.log.len() as int) =~= a.log);
    assert(a.log =~= code.log.subrange(0, a.log.len() as int));
    assert(code.log[a.log.len() as int] == x.log[a.log.len() as int]);
    assert(w.log[a.log.len() as int].block == a.cur);
}

/// `List.get` reads and acquires the element at the index where that, as
/// an unsigned number, is below the length, and gives back `None`
/// elsewhere.
pub proof fn get_reads_the_item(
    c: &EmitContext,
    element: IRType,
    option: IRSymbol,
    o: Outside,
    memory: Memory,
    items: Seq<int>,
)
    requires
        ({
            let size = byte_count(o, value_type(element));
            &&& (o.parts)(0, 1) == items.len()
            &&& items.len() <= u64::MAX
            &&& size <= u64::MAX
            &&& 0 <= (o.parts)(0, 0) <= u64::MAX
            &&& holds_items(memory, (o.parts)(0, 0), size, items)
        }),
        acquires(c, o, element),
        sound(memory),
        0 <= (o.values)(Val::Param(1)) <= u64::MAX,
    ensures
        ({
            let code = get_code(c, start(), element, option);
            booted(code, memory).comes_to(
                code,
                o,
                got(c, code, o, element, items, (o.values)(Val::Param(1)), memory),
            )
        }),
{
    let code = get_code(c, start(), element, option);
    let (a, value) = get_item_code(c, start(), element);
    let ok = get_load_code(start(), element);
    let ty = value_type(element);
    let size = byte_count(o, ty);
    let n = items.len() as int;
    let index = (o.values)(Val::Param(1));
    let goal = got(c, code, o, element, items, index, memory);
    get_begins(c, element, option);
    beginning_stands(code, a);
    assert(ok.log.is_prefix_of(a.log));
    log_begins_further(code.log, a.log, ok.log);
    seek_finds(code.log, 0, 0, 0);
    seek_finds(code.log, 1, 0, 4);
    let m0 = booted(code, memory);
    extracts(m0, code, o, LType::List, 0, 0);
    let m1 = m0.step(code, o);
    extracts(m1, code, o, LType::List, 0, 1);
    let m2 = m1.step(code, o);
    tests(m2, code, o, Pred::Ult, LType::I64, Val::Param(1), Val::At(1));
    let m3 = m2.step(code, o);
    branches(m3, code, o, Val::At(2), 1, 2);
    let m4 = m3.step(code, o);
    if index < n {
        item_fits(index, size as int, n);
        multiplies(m4, code, o, Val::Param(1), Val::SizeOf(ty));
        let m5 = m4.step(code, o);
        moves(m5, code, o, Val::At(0), Val::At(4));
        let m6 = m5.step(code, o);
        address_in_range((o.parts)(0, 0) + index * size);
        assert(item(memory, (o.parts)(0, 0), size, index) == items[index]);
        loads(m6, code, o, ty, Val::At(5));
        let m7 = m6.step(code, o);
        assert(m7.results[6] == items[index]);
        let l = acquire_value_runs(c, code, o, ok, m7, element, Val::At(6));
        arrives(l, code, o, goal);
    } else {
        arrives(m4, code, o, goal);
    }
}

/// `List.length` gives back how many elements there are.
pub proof fn length_counts(o: Outside, memory: Memory)
    ensures
        ({
            let code = length_code(start());
            booted(code, memory).gives_back(code, o, (o.parts)(0, 1))
        }),
{
    let code = length_code(start());
    seek_finds(code.log, 0, 0, 0);
    let m0 = booted(code, memory);
    extracts(m0, code, o, LType::List, 0, 1);
    finishes(m0.step(code, o), code, o, LType::I64, Val::At(0));
}

} // verus!
