//! What a walk by `next` hands out.

use vstd::prelude::*;

use crate::ctx::EmitContext;
use crate::emit::enums::{enum_value_appends, enum_value_code};
use crate::intrinsics::acquiring::{acquire_value_runs, acquires, clones, grows, grows_further};
use crate::intrinsics::element::acquire_value_code;
use crate::intrinsics::hashtable::cursor::{
    handed_code, next_code, packed_code, scan_code, CursorOption,
};
use crate::intrinsics::hashtable::probing::{receiver, receives_table, Buckets};
use crate::intrinsics::hashtable::resizing::occupied;
use crate::intrinsics::hashtable::util::{HashtableLayout, STATE_OCCUPIED};
use crate::intrinsics::hashtable::writing::{
    all_held, entry_address, laid_out, value_in,
};
use crate::intrinsics::list_values::log_begins_further;
use crate::llvm::{gep, iadd, imul, itest, itest8, num, start, BinOp, Code, Entry, Inst, LType, Pred, Val};
use crate::memory::{address_in_range, byte, number, number_of_bytes, Memory};
use crate::semantics::{
    arrives, beginning_stands, begins_as, booted, branches, byte_count, combines, extracts, incoming,
    incoming_finds, inserts, jumps, loads, moves, multiplies, read, seek, seek_finds, takes, tests,
    Machine, Outside,
};
use crate::types::value_type;

verus! {

/// The first occupied bucket from a cursor on.
pub open spec fn next_bucket(t: Buckets, cursor: int) -> Option<int>
    decreases t.capacity - cursor,
{
    if cursor >= t.capacity {
        None
    } else if t.state(cursor) == STATE_OCCUPIED {
        Some(cursor)
    } else {
        next_bucket(t, cursor + 1)
    }
}

/// The buckets that a walk hands out that begins at a cursor and goes on
/// each time with the cursor that it was given.
pub open spec fn walk_from(t: Buckets, cursor: int) -> Seq<int>
    decreases t.capacity - cursor,
    via walk_goes_on
{
    match next_bucket(t, cursor) {
        Some(b) => seq![b] + walk_from(t, b + 1),
        None => Seq::empty(),
    }
}

#[via_fn]
proof fn walk_goes_on(t: Buckets, cursor: int) {
    next_is_ahead(t, cursor);
}

/// A cursor only goes forward, and past nothing that is occupied.
pub proof fn next_is_ahead(t: Buckets, cursor: int)
    ensures
        match next_bucket(t, cursor) {
            Some(b) => {
                &&& cursor <= b < t.capacity
                &&& t.state(b) == STATE_OCCUPIED
                &&& forall|i: int| cursor <= i < b ==> #[trigger] t.state(i) != STATE_OCCUPIED
            },
            None => forall|i: int| cursor <= i < t.capacity ==> #[trigger] t.state(i) != STATE_OCCUPIED,
        },
    decreases t.capacity - cursor,
{
    if cursor < t.capacity && t.state(cursor) != STATE_OCCUPIED {
        next_is_ahead(t, cursor + 1);
    }
}

/// A walk hands out exactly the occupied buckets, in ascending order, each
/// once.
pub proof fn walk_visits_all(t: Buckets, cursor: int)
    requires
        0 <= cursor,
    ensures
        ({
            let w = walk_from(t, cursor);
            &&& forall|b: int| #[trigger] w.contains(b) <==> cursor <= b < t.capacity && t.state(b)
                == STATE_OCCUPIED
            &&& forall|i: int, j: int| 0 <= i < j < w.len() ==> #[trigger] w[i] < #[trigger] w[j]
        }),
    decreases t.capacity - cursor,
{
    next_is_ahead(t, cursor);
    let w = walk_from(t, cursor);
    if let Some(b) = next_bucket(t, cursor) {
        walk_visits_all(t, b + 1);
        let rest = walk_from(t, b + 1);
        assert(w =~= seq![b] + rest);
        assert forall|x: int| #[trigger] w.contains(x) <==> cursor <= x < t.capacity && t.state(x)
            == STATE_OCCUPIED by {
            if w.contains(x) {
                let i = choose|i: int| 0 <= i < w.len() && w[i] == x;
                if i > 0 {
                    assert(rest[i - 1] == x);
                    assert(rest.contains(x));
                }
            }
            if cursor <= x < t.capacity && t.state(x) == STATE_OCCUPIED {
                if x == b {
                    assert(w[0] == x);
                } else {
                    assert(x > b);
                    assert(rest.contains(x));
                    let i = choose|i: int| 0 <= i < rest.len() && rest[i] == x;
                    assert(w[i + 1] == x);
                }
            }
        }
        assert forall|i: int, j: int| 0 <= i < j < w.len() implies #[trigger] w[i] < #[trigger] w[j] by {
            assert(w[j] == rest[j - 1]);
            assert(rest.contains(rest[j - 1]));
            if i > 0 {
                assert(w[i] == rest[i - 1]);
            }
        }
    } else {
        assert(w =~= Seq::empty());
    }
}

/// A walk from the beginning hands out as many entries as there are, and
/// then ends.
pub proof fn walk_counts(t: Buckets)
    ensures
        walk_from(t, 0).len() == occupied(t).len(),
        occupied(t).finite(),
{
    walk_visits_all(t, 0);
    let w = walk_from(t, 0);
    assert(w.no_duplicates());
    w.unique_seq_to_set();
    assert(w.to_set() =~= occupied(t)) by {
        assert forall|b: int| #[trigger] w.to_set().contains(b) == occupied(t).contains(b) by {
            assert(w.contains(b) == w.to_set().contains(b));
        }
    }
}

/// Acquiring the key of bucket `b` and then its value gives `key` and
/// `value`, and leaves a memory.
pub open spec fn is_acquired(
    c: &EmitContext,
    o: Outside,
    layout: HashtableLayout,
    t: Buckets,
    b: int,
    after: Memory,
    key: int,
    value: int,
) -> bool {
    exists|mid: Memory| #[trigger]
        clones(c, o, layout.key_ty, t.memory, t.key(o, b), mid, key) && match layout.value_ty {
            Some(ty) => clones(
                c,
                o,
                ty,
                mid,
                value_in(o, t, layout, value_type(ty), b),
                after,
                value,
            ),
            None => mid == after,
        }
}

/// The machine of a `next` holds the acquired entry of bucket `b` and the
/// cursor behind it, paired, in the block that gives back `Some` of them.
pub open spec fn handed_out(
    c: &EmitContext,
    o: Outside,
    layout: HashtableLayout,
    option: CursorOption,
    t: Buckets,
    b: int,
) -> spec_fn(Machine) -> bool {
    let h = handed_code(c, start(), layout, option);
    |l: Machine|
        {
            &&& l.at == packed_code(c, start(), layout, option).log.len()
            &&& l.returned is None
            &&& is_acquired(
                c,
                o,
                layout,
                t,
                b,
                l.memory,
                read(o, l.results, h.key),
                read(o, l.results, h.value),
            )
            &&& l.parts_of(h.code.v(2))[0] == read(o, l.results, h.item)
            &&& l.parts_of(h.code.v(2))[1] == b + 1
            &&& grows(t.memory, l.memory)
        }
}

/// The machine of a `next` is at the block that gives back `None`.
pub open spec fn at_end(code: Code, t: Buckets) -> spec_fn(Machine) -> bool {
    |l: Machine| l.at == seek(code.log, 5, 0) && l.returned is None && l.memory == t.memory
}

/// What a `next` comes to.
pub open spec fn next_outcome(
    c: &EmitContext,
    code: Code,
    o: Outside,
    layout: HashtableLayout,
    option: CursorOption,
    t: Buckets,
    found: Option<int>,
) -> spec_fn(Machine) -> bool {
    match found {
        Some(b) => handed_out(c, o, layout, option, t, b),
        None => at_end(code, t),
    }
}

/// The body is that of a `next`.
spec fn next_stands(c: &EmitContext, code: Code, layout: HashtableLayout, option: CursorOption) -> bool {
    let at = |k: int| Val::At(k as usize);
    let is = |k: int, block: usize, inst: Inst| code.log[k] == Entry { block: block, inst: inst };
    let packed = packed_code(c, start(), layout, option);
    &&& begins_as(code, packed)
    &&& begins_as(code, scan_code(start(), layout))
    &&& 18 <= packed.log.len() < code.log.len()
    &&& packed.cur == 3
    &&& code.log[packed.log.len() as int].block == 3
    &&& code.log[18].block == 3
    &&& is(0, 0, Inst::Extract(LType::Table, Val::Param(0), 0))
    &&& is(1, 0, Inst::Extract(LType::Table, Val::Param(0), 1))
    &&& is(2, 0, Inst::Extract(LType::Table, Val::Param(0), 2))
    &&& is(3, 0, Inst::Extract(LType::Table, Val::Param(0), 3))
    &&& is(4, 0, itest(Pred::Sge, Val::Param(1), num(0)))
    &&& is(5, 0, Inst::CondBr(at(4), 1, 5))
    &&& is(6, 1, Inst::Phi(LType::I64))
    &&& is(7, 1, itest(Pred::Ult, at(6), at(3)))
    &&& is(8, 1, Inst::CondBr(at(7), 2, 5))
    &&& is(9, 2, gep(at(1), at(6)))
    &&& is(10, 2, Inst::Load(LType::I8, at(9)))
    &&& is(11, 2, itest8(Pred::Eq, at(10), num(STATE_OCCUPIED)))
    &&& is(12, 2, Inst::CondBr(at(11), 3, 4))
    &&& is(13, 4, iadd(at(6), num(1)))
    &&& is(14, 4, Inst::Br(1))
    &&& is(15, 3, imul(at(6), num(layout.entry_size)))
    &&& is(16, 3, gep(at(0), at(15)))
    &&& is(17, 3, Inst::Load(value_type(layout.key_ty), at(16)))
    &&& incoming(code.edges, at(6), 0) == Some(Val::Param(1))
    &&& incoming(code.edges, at(6), 4) == Some(at(13))
    &&& seek(code.log, 0, 0) == 0
    &&& seek(code.log, 1, 0) == 6
    &&& seek(code.log, 2, 0) == 9
    &&& seek(code.log, 3, 0) == 15
    &&& seek(code.log, 4, 0) == 13
}

/// What is handed out stands behind the scan.
proof fn handed_begins(c: &EmitContext, layout: HashtableLayout, option: CursorOption)
    ensures
        ({
            let scan = scan_code(start(), layout);
            let h = handed_code(c, start(), layout, option).code;
            let packed = packed_code(c, start(), layout, option);
            &&& scan.log.len() == 18
            &&& scan.log.is_prefix_of(h.log)
            &&& h.log.is_prefix_of(packed.log)
            &&& scan.log.is_prefix_of(packed.log)
            &&& packed.edges == scan.edges
            &&& packed.cur == 3 && h.cur == 3
            &&& packed.log.len() == h.log.len() + 3
            &&& packed.log.len() <= 40
            &&& packed.log[18].block == 3
        }),
{
    let scan = scan_code(start(), layout);
    let h = handed_code(c, start(), layout, option).code;
    let packed = packed_code(c, start(), layout, option);
    let (keyed, key) = acquire_value_code(c, scan, layout.key_ty, Val::At(17));
    assert(scan.log.is_prefix_of(keyed.log));
    assert(keyed.log.is_prefix_of(h.log));
    assert(h.log.is_prefix_of(packed.log));
    log_begins_further(packed.log, h.log, keyed.log);
    log_begins_further(packed.log, keyed.log, scan.log);
    log_begins_further(h.log, keyed.log, scan.log);
    assert(packed.log[18].block == 3) by {
        if keyed.log.len() > 18 {
            assert(packed.log[18] == keyed.log[18]);
        } else if h.log.len() > 18 {
            assert(packed.log[18] == h.log[18]);
        }
    }
}

/// What a `next` is made of.
proof fn next_is_recorded(c: &EmitContext, layout: HashtableLayout, option: CursorOption)
    ensures
        next_stands(c, next_code(c, start(), layout, option), layout, option),
{
    let s = start();
    let scan = scan_code(s, layout);
    let packed = packed_code(c, s, layout, option);
    let pair = handed_code(c, s, layout, option).code.v(2);
    let (w, some) = enum_value_code(c, packed, option.symbol, option.some, seq![pair]);
    let x = w.i(Inst::Ret(LType::Enum(option.symbol), some));
    let r = x.at(5);
    let (n, none) = enum_value_code(c, r, option.symbol, option.none, seq![]);
    let code = n.i(Inst::Ret(LType::Enum(option.symbol), none));
    handed_begins(c, layout, option);
    enum_value_appends(c, packed, option.symbol, option.some, seq![pair]);
    enum_value_appends(c, r, option.symbol, option.none, seq![]);
    assert(code == next_code(c, s, layout, option));
    assert(w.log.is_prefix_of(x.log));
    assert(n.log.is_prefix_of(code.log));
    log_begins_further(code.log, n.log, r.log);
    log_begins_further(code.log, x.log, w.log);
    log_begins_further(code.log, w.log, packed.log);
    log_begins_further(code.log, packed.log, scan.log);
    assert(code.edges == scan.edges);
    assert(code.log[packed.log.len() as int] == w.log[packed.log.len() as int]);
    assert(code.log[18] == packed.log[18]);
    incoming_finds(code.edges, Val::At(6), 0, 0);
    incoming_finds(code.edges, Val::At(6), 4, 1);
    seek_finds(code.log, 0, 0, 0);
    seek_finds(code.log, 1, 0, 6);
    seek_finds(code.log, 2, 0, 9);
    seek_finds(code.log, 3, 0, 15);
    seek_finds(code.log, 4, 0, 13);
}

/// The scan, from a bucket on.
proof fn scan_goes(
    c: &EmitContext,
    code: Code,
    o: Outside,
    layout: HashtableLayout,
    option: CursorOption,
    l: Machine,
    t: Buckets,
    i: int,
)
    requires
        next_stands(c, code, layout, option),
        next_setting(c, o, layout, t),
        scanning(l, t, i),
        l.at == 7,
    ensures
        l.comes_to(
            code,
            o,
            next_outcome(c, code, o, layout, option, t, next_bucket(t, i)),
        ),
    decreases t.capacity - i,
{
    let goal = next_outcome(c, code, o, layout, option, t, next_bucket(t, i));
    tests(l, code, o, Pred::Ult, LType::I64, Val::At(6), Val::At(3));
    let m8 = l.step(code, o);
    branches(m8, code, o, Val::At(7), 2, 5);
    let m9 = m8.step(code, o);
    if i >= t.capacity {
        arrives(m9, code, o, goal);
    } else {
        moves(m9, code, o, Val::At(1), Val::At(6));
        let m10 = m9.step(code, o);
        address_in_range(t.states + i);
        loads(m10, code, o, LType::I8, Val::At(9));
        let m11 = m10.step(code, o);
        assert(m11.results[10] == t.state(i)) by {
            reveal_with_fuel(number, 2);
        }
        tests(m11, code, o, Pred::Eq, LType::I8, Val::At(10), num(STATE_OCCUPIED));
        let m12 = m11.step(code, o);
        branches(m12, code, o, Val::At(11), 3, 4);
        let m13 = m12.step(code, o);
        if t.state(i) == STATE_OCCUPIED {
            hand_out(c, code, o, layout, option, m13, t, i);
        } else {
            address_in_range(i + 1);
            combines(m13, code, o, BinOp::Add, LType::I64, Val::At(6), num(1));
            let m14 = m13.step(code, o);
            assert(m14.results[13] == i + 1);
            jumps(m14, code, o, 1);
            let m6 = m14.step(code, o);
            takes(m6, code, o, LType::I64, Val::At(13));
            let m7 = m6.step(code, o);
            scan_goes(c, code, o, layout, option, m7, t, i + 1);
        }
    }
}

/// The table of a scan: it lies in memory and is taken, and its entries
/// are acquired.
pub open spec fn next_setting(
    c: &EmitContext,
    o: Outside,
    layout: HashtableLayout,
    t: Buckets,
) -> bool {
    &&& laid_out(o, t)
    &&& all_held(t)
    &&& t.entry_size == layout.entry_size
    &&& t.key_ty == value_type(layout.key_ty)
    &&& acquires(c, o, layout.key_ty)
    &&& layout.value_ty matches Some(value_ty) ==> {
        &&& acquires(c, o, value_ty)
        &&& layout.key_size + byte_count(o, value_type(value_ty)) <= layout.entry_size
    }
}

/// The machine scans at bucket `i`.
spec fn scanning(l: Machine, t: Buckets, i: int) -> bool {
    &&& l.returned is None
    &&& l.memory == t.memory
    &&& l.results[0] == t.entries
    &&& l.results[1] == t.states
    &&& l.results[3] == t.capacity
    &&& l.results[6] == i
    &&& 0 <= i <= t.capacity
}

/// The entry of a bucket is acquired and paired with the cursor behind it.
#[verifier::spinoff_prover]
#[verifier::rlimit(80)]
proof fn hand_out(
    c: &EmitContext,
    code: Code,
    o: Outside,
    layout: HashtableLayout,
    option: CursorOption,
    l: Machine,
    t: Buckets,
    b: int,
)
    requires
        next_stands(c, code, layout, option),
        next_setting(c, o, layout, t),
        scanning(l, t, b),
        b < t.capacity,
        l.at == 15,
    ensures
        l.comes_to(code, o, handed_out(c, o, layout, option, t, b)),
{
    let scan = scan_code(start(), layout);
    let p = t.entries + b * t.entry_size;
    entry_address(t, b);
    multiplies(l, code, o, Val::At(6), num(layout.entry_size));
    let m16 = l.step(code, o);
    assert(m16.results[15] == b * t.entry_size);
    moves(m16, code, o, Val::At(0), Val::At(15));
    let m17 = m16.step(code, o);
    address_in_range(p);
    assert(m17.results[16] == p);
    loads(m17, code, o, t.key_ty, Val::At(16));
    let m18 = m17.step(code, o);
    assert(m18.results[17] == t.key(o, b));
    let (keyed, key) = acquire_value_code(c, scan, layout.key_ty, Val::At(17));
    let h = handed_code(c, start(), layout, option);
    let packed = packed_code(c, start(), layout, option);
    handed_begins(c, layout, option);
    assert(keyed.log.is_prefix_of(h.code.log));
    beginning_stands(code, packed);
    log_begins_further(code.log, packed.log, h.code.log);
    log_begins_further(code.log, h.code.log, keyed.log);
    assert(begins_as(code, keyed));
    assert(scan.log.len() == 18);
    assert(code.log[keyed.log.len() as int].block == 3) by {
        assert(code.log[keyed.log.len() as int] == packed.log[keyed.log.len() as int]);
        if keyed.log.len() < h.code.log.len() {
            assert(packed.log[keyed.log.len() as int] == h.code.log[keyed.log.len() as int]);
        }
    }
    let k = acquire_value_runs(c, code, o, scan, m18, layout.key_ty, Val::At(17));
    assert(k.results[16] == p && k.results[6] == b);
    match layout.value_ty {
        Some(value_ty) => {
            let ty = value_type(value_ty);
            let g = keyed.i(gep(Val::At(16), num(layout.key_size))).i(Inst::Load(ty, keyed.v(0)));
            let (v, value) = acquire_value_code(c, g, value_ty, keyed.v(1));
            assert(g.log.is_prefix_of(v.log));
            assert(v.log.is_prefix_of(h.code.log));
            log_begins_further(code.log, h.code.log, v.log);
            log_begins_further(code.log, v.log, g.log);
            assert(begins_as(code, v));
            assert(code.log[keyed.log.len() as int] == g.log[keyed.log.len() as int]);
            assert(code.log[keyed.log.len() as int + 1] == g.log[keyed.log.len() as int + 1]);
            assert(code.log[v.log.len() as int] == h.code.log[v.log.len() as int]);
            assert(code.log[v.log.len() as int + 1] == h.code.log[v.log.len() as int + 1]);
            assert(code.log[g.log.len() as int].block == 3) by {
                if g.log.len() < v.log.len() {
                    assert(code.log[g.log.len() as int] == v.log[g.log.len() as int]);
                }
            }
            moves(k, code, o, Val::At(16), num(layout.key_size));
            let k1 = k.step(code, o);
            address_in_range(p + layout.key_size);
            assert(read(o, k1.results, keyed.v(0)) == p + layout.key_size);
            loads(k1, code, o, ty, keyed.v(0));
            let k2 = k1.step(code, o);
            let x = value_in(o, t, layout, ty, b);
            assert(read(o, k2.results, keyed.v(1)) == x) by {
                let q = p + layout.key_size;
                assert forall|j: int| 0 <= j < byte_count(o, ty) implies #[trigger] byte(k.memory, q + j)
                    == byte(t.memory, q + j) by {
                    assert(t.memory.taken.contains(q + j));
                }
                number_of_bytes(k.memory, q, t.memory, q, byte_count(o, ty));
            }
            let k3 = acquire_value_runs(c, code, o, g, k2, value_ty, keyed.v(1));
            grows_further(t.memory, k.memory, k3.memory);
            assert(read(o, k3.results, key) == read(o, k.results, key));
            inserts(k3, code, o, option.item, Val::Undef, value_type(layout.key_ty), key, 0);
            let k4 = k3.step(code, o);
            assert(code.log[h.code.log.len() as int].block == 3) by {
                assert(code.log[h.code.log.len() as int] == packed.log[h.code.log.len() as int]);
            }
            inserts(k4, code, o, option.item, v.v(0), ty, value, 1);
            let k5 = k4.step(code, o);
            assert(read(o, k5.results, key) == read(o, k.results, key));
            assert(read(o, k5.results, value) == read(o, k3.results, value));
            assert(clones(
                c,
                o,
                layout.key_ty,
                t.memory,
                t.key(o, b),
                k.memory,
                read(o, k5.results, key),
            ));
            assert(k5.results[6] == b);
            pack(c, code, o, layout, option, k5, t, b);
        },
        None => {
            assert(k.results[6] == b);
            assert(clones(
                c,
                o,
                layout.key_ty,
                t.memory,
                t.key(o, b),
                k.memory,
                read(o, k.results, key),
            ));
            pack(c, code, o, layout, option, k, t, b);
        },
    }
}

/// The entry is paired with the cursor behind it.
proof fn pack(
    c: &EmitContext,
    code: Code,
    o: Outside,
    layout: HashtableLayout,
    option: CursorOption,
    l: Machine,
    t: Buckets,
    b: int,
)
    requires
        next_stands(c, code, layout, option),
        ({
            let h = handed_code(c, start(), layout, option);
            &&& l.at == h.code.log.len()
            &&& h.code.defines(h.key) && h.code.defines(h.value) && h.code.defines(h.item)
            &&& is_acquired(
                c,
                o,
                layout,
                t,
                b,
                l.memory,
                read(o, l.results, h.key),
                read(o, l.results, h.value),
            )
        }),
        l.returned is None,
        l.results[6] == b,
        0 <= b < t.capacity,
        grows(t.memory, l.memory),
    ensures
        l.comes_to(code, o, handed_out(c, o, layout, option, t, b)),
{
    let h = handed_code(c, start(), layout, option);
    let packed = packed_code(c, start(), layout, option);
    let n = h.code.log.len() as int;
    handed_begins(c, layout, option);
    beginning_stands(code, packed);
    address_in_range(b + 1);
    combines(l, code, o, BinOp::Add, LType::I64, Val::At(6), num(1));
    let m1 = l.step(code, o);
    assert(m1.results[n as usize] == b + 1);
    inserts(m1, code, o, LType::Tuple(option.tuple), Val::Undef, h.item_ty, h.item, 0);
    let m2 = m1.step(code, o);
    inserts(m2, code, o, LType::Tuple(option.tuple), h.code.v(1), LType::I64, h.code.v(0), 1);
    let m3 = m2.step(code, o);
    arrives(m3, code, o, handed_out(c, o, layout, option, t, b));
}

/// `next` hands out the first occupied bucket from its cursor on, with the
/// cursor behind it, and `None` where there is none or the cursor is
/// negative.
pub proof fn next_finds(
    c: &EmitContext,
    o: Outside,
    memory: Memory,
    layout: HashtableLayout,
    option: CursorOption,
)
    requires
        receives_table(o),
        next_setting(
            c,
            o,
            layout,
            receiver(o, memory, layout, value_type(layout.key_ty)),
        ),
        0 <= (o.values)(Val::Param(1)) <= u64::MAX,
    ensures
        ({
            let code = next_code(c, start(), layout, option);
            let t = receiver(o, memory, layout, value_type(layout.key_ty));
            let cursor = (o.values)(Val::Param(1));
            let found = if cursor <= i64::MAX {
                next_bucket(t, cursor)
            } else {
                None
            };
            booted(code, memory).comes_to(
                code,
                o,
                next_outcome(c, code, o, layout, option, t, found),
            )
        }),
{
    next_is_recorded(c, layout, option);
    next_runs(c, next_code(c, start(), layout, option), o, memory, layout, option);
}

/// A body that is made like a `next` runs like one.
proof fn next_runs(
    c: &EmitContext,
    code: Code,
    o: Outside,
    memory: Memory,
    layout: HashtableLayout,
    option: CursorOption,
)
    requires
        next_stands(c, code, layout, option),
        receives_table(o),
        next_setting(
            c,
            o,
            layout,
            receiver(o, memory, layout, value_type(layout.key_ty)),
        ),
        0 <= (o.values)(Val::Param(1)) <= u64::MAX,
    ensures
        ({
            let t = receiver(o, memory, layout, value_type(layout.key_ty));
            let cursor = (o.values)(Val::Param(1));
            let found = if cursor <= i64::MAX {
                next_bucket(t, cursor)
            } else {
                None
            };
            booted(code, memory).comes_to(
                code,
                o,
                next_outcome(c, code, o, layout, option, t, found),
            )
        }),
{
    let t = receiver(o, memory, layout, value_type(layout.key_ty));
    let cursor = (o.values)(Val::Param(1));
    let found = if cursor <= i64::MAX {
        next_bucket(t, cursor)
    } else {
        None
    };
    let goal = next_outcome(c, code, o, layout, option, t, found);
    let m0 = booted(code, memory);
    extracts(m0, code, o, LType::Table, 0, 0);
    let m1 = m0.step(code, o);
    extracts(m1, code, o, LType::Table, 0, 1);
    let m2 = m1.step(code, o);
    extracts(m2, code, o, LType::Table, 0, 2);
    let m3 = m2.step(code, o);
    extracts(m3, code, o, LType::Table, 0, 3);
    let m4 = m3.step(code, o);
    tests(m4, code, o, Pred::Sge, LType::I64, Val::Param(1), num(0));
    let m5 = m4.step(code, o);
    branches(m5, code, o, Val::At(4), 1, 5);
    let m6 = m5.step(code, o);
    if cursor > i64::MAX {
        arrives(m6, code, o, goal);
    } else {
        takes(m6, code, o, LType::I64, Val::Param(1));
        let m7 = m6.step(code, o);
        if cursor <= t.capacity {
            scan_goes(c, code, o, layout, option, m7, t, cursor);
        } else {
            tests(m7, code, o, Pred::Ult, LType::I64, Val::At(6), Val::At(3));
            let m8 = m7.step(code, o);
            branches(m8, code, o, Val::At(7), 2, 5);
            arrives(m8.step(code, o), code, o, goal);
        }
    }
}

} // verus!
