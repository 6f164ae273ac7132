//! What `Map.get` looks up.

use vstd::prelude::*;
use crate::ctx::EmitContext;
use crate::emit::enums::{enum_value_appends, enum_value_code};
use crate::intrinsics::acquiring::{acquire_value_runs, acquires, clones};
use crate::intrinsics::element::acquire_value_code;
use crate::intrinsics::hashtable::probing::{
    found_at, holds_key, in_table, key_calls, power_of_two, probe_stops, probes_visit_every_bucket,
    first_stop, read_probe_stands, receiver, receives_table, stopped, stops, KeyWords, Probe,
};
use crate::intrinsics::hashtable::read::{
    map_get_code, map_get_item_code, read_probe_at, read_probe_code, OPTION_NONE, OPTION_SOME,
};
use crate::intrinsics::hashtable::util::{
    extract_code, extracted, HashtableLayout, KeyHashOps, STATE_EMPTY,
};
use crate::intrinsics::hashtable::writing::{entry_address, laid_out, value_in};
use crate::ir::{IRSymbol, IRType, IRVariantTag};
use crate::llvm::{gep, num, start, Code, Entry, Inst, LType, Val};
use crate::memory::{address_in_range, number, sound, spares, Memory};
use crate::semantics::{
    arrives, beginning_stands, begins_as, begins_further, booted, byte_count, extracts, goes_on, loads,
    moves, read, seek, seek_finds, tidy, Machine, Outside,
};
use crate::types::value_type;

verus! {

/// A lookup up to the end of its probe.
#[verifier::opaque]
spec fn looked_code(layout: HashtableLayout, ops: KeyHashOps) -> Code {
    read_probe_code(
        extract_code(start(), Val::Param(0)),
        layout,
        extracted(start()),
        Val::Param(1),
        ops,
    )
}

/// The probe of a lookup.
spec fn get_probe(layout: HashtableLayout, ops: KeyHashOps) -> Probe {
    Probe {
        n: 4,
        block: 1,
        from: 0,
        layout: layout,
        table: extracted(start()),
        key: Val::Param(1),
        ops: ops,
    }
}

/// The probe of a lookup stands where it was recorded.
proof fn looked_code_stands(whole: Code, layout: HashtableLayout, ops: KeyHashOps)
    requires
        begins_as(whole, looked_code(layout, ops)),
    ensures
        looked_code(layout, ops).log.len() == 23,
        get_probe(layout, ops).stands_in(whole),
        forall|i: int|
            0 <= i < 23 ==> (#[trigger] whole.log[i]).block != 4 && whole.log[i].block != 5,
        forall|i: usize|
            i < 4 ==> #[trigger] whole.log[i as int] == (Entry {
                block: 0,
                inst: Inst::Extract(LType::Table, Val::Param(0), i),
            }),
        seek(whole.log, 0, 0) == 0,
{
    reveal(looked_code);
    let e = extract_code(start(), Val::Param(0));
    let p = looked_code(layout, ops);
    assert(tidy(e));
    read_probe_stands(e, whole, layout, extracted(start()), Val::Param(1), ops);
    beginning_stands(whole, p);
    assert forall|i: usize| i < 4 implies #[trigger] whole.log[i as int] == (Entry {
        block: 0,
        inst: Inst::Extract(LType::Table, Val::Param(0), i),
    }) by {
        assert(p.log[i as int] == e.log[i as int]);
    }
    assert(whole.log[0usize as int].block == 0);
    seek_finds(whole.log, 0, 0, 0);
}

/// The probe of a lookup stands in none of the blocks that follow it.
pub proof fn looked_blocks(layout: HashtableLayout, ops: KeyHashOps)
    ensures
        ({
            let p = read_probe_code(
                extract_code(start(), Val::Param(0)),
                layout,
                extracted(start()),
                Val::Param(1),
                ops,
            );
            &&& p.log.len() == 23
            &&& forall|i: int| 0 <= i < 23 ==> (#[trigger] p.log[i]).block != 4 && p.log[i].block != 5
        }),
{
    reveal(looked_code);
    let p = looked_code(layout, ops);
    assert(begins_as(p, p)) by {
        assert(p.log =~= p.log.subrange(0, p.log.len() as int));
        assert(p.edges =~= p.edges.subrange(0, p.edges.len() as int));
    }
    looked_code_stands(p, layout, ops);
}

/// A `Map.get` up to the load of the value.
spec fn loaded_code(layout: HashtableLayout, ops: KeyHashOps, value_ty: LType) -> Code {
    let p = looked_code(layout, ops).at(4);
    p.i(gep(Val::At(16), num(layout.key_size))).i(Inst::Load(value_ty, p.v(0)))
}

/// A `Map.get` begins with its probe, the load and the acquired value.
proof fn get_begins(
    c: &EmitContext,
    layout: HashtableLayout,
    ops: KeyHashOps,
    value_ty: IRType,
    option: IRSymbol,
)
    ensures
        begins_as(
            map_get_code(c, start(), layout, ops, value_ty, option),
            loaded_code(layout, ops, value_type(value_ty)),
        ),
        ({
            let code = map_get_code(c, start(), layout, ops, value_ty, option);
            let ok = loaded_code(layout, ops, value_type(value_ty));
            let item = map_get_item_code(c, start(), layout, ops, value_ty);
            let a = item.0;
            &&& item == acquire_value_code(c, ok, value_ty, Val::At(24))
            &&& begins_as(code, a)
            &&& ok.log.len() == 25
            &&& a.cur == 4
            &&& 25 <= a.log.len() < code.log.len()
            &&& code.log[25].block == 4
            &&& code.log[a.log.len() as int].block == 4
        }),
{
    let s = start();
    let e = extract_code(s, Val::Param(0));
    let p = looked_code(layout, ops);
    assert(p == read_probe_code(e, layout, extracted(s), Val::Param(1), ops)) by {
        reveal(looked_code);
    }
    assert(read_probe_at(e).found_bb == 4 && read_probe_at(e).e_ptr == Val::At(16)
        && read_probe_at(e).not_found_bb == 5);
    let ok = loaded_code(layout, ops, value_type(value_ty));
    let found = p.at(4);
    let (a, owned) = acquire_value_code(c, ok, value_ty, found.v(1));
    let some_tag = IRVariantTag(OPTION_SOME);
    let none_tag = IRVariantTag(OPTION_NONE);
    let (w, some) = enum_value_code(c, a, option, some_tag, seq![owned]);
    let r = w.i(Inst::Ret(LType::Enum(option), some)).at(5);
    let (m, none) = enum_value_code(c, r, option, none_tag, seq![]);
    let code = m.i(Inst::Ret(LType::Enum(option), none));
    assert(code == map_get_code(c, s, layout, ops, value_ty, option));
    enum_value_appends(c, a, option, some_tag, seq![owned]);
    enum_value_appends(c, r, option, none_tag, seq![]);
    let n = ok.log.len() as int;
    assert(p.log.len() == 23) by {
        reveal(looked_code);
    }
    assert(a.log.len() <= n + 8);
    assert(a.log.subrange(0, n) =~= ok.log);
    assert forall|i: int| 0 <= i < n implies #[trigger] code.log[i] == ok.log[i] by {
        assert(a.log[i] == a.log.subrange(0, n)[i]);
        assert(a.log[i] == w.log.subrange(0, a.log.len() as int)[i]);
        assert(r.log[i] == m.log.subrange(0, r.log.len() as int)[i]);
    }
    assert(ok.log =~= code.log.subrange(0, n));
    let y = w.i(Inst::Ret(LType::Enum(option), some));
    let k = a.log.len() as int;
    assert(y.log.subrange(0, k) =~= a.log);
    assert forall|i: int| 0 <= i <= k implies #[trigger] code.log[i] == y.log[i] by {
        assert(r.log[i] == m.log.subrange(0, r.log.len() as int)[i]);
    }
    assert(a.log =~= code.log.subrange(0, k));
    assert(a.edges =~= code.edges.subrange(0, a.edges.len() as int));
    assert(w.log[k].block == a.cur);
    assert(code.log[25].block == 4) by {
        if 25 < k {
            assert(code.log[25] == a.log[25]);
        }
    }
    assert(ok.edges =~= code.edges.subrange(0, ok.edges.len() as int));
}

/// The machine of a `Map.get` holds an acquired value, in the block that
/// gives back `Some` of it, and what was taken is as it was.
pub open spec fn got_value(
    c: &EmitContext,
    o: Outside,
    layout: HashtableLayout,
    ops: KeyHashOps,
    value_ty: IRType,
    value: int,
    before: Memory,
) -> spec_fn(Machine) -> bool {
    let (a, owned) = map_get_item_code(c, start(), layout, ops, value_ty);
    |l: Machine|
        {
            &&& l.at == a.log.len()
            &&& a.cur == 4
            &&& l.returned is None
            &&& clones(c, o, value_ty, before, value, l.memory, read(o, l.results, owned))
            &&& spares(before, l.memory)
        }
}

/// The machine of a `Map.get` is at the block that gives back `None`.
pub open spec fn at_none(code: Code) -> spec_fn(Machine) -> bool {
    |l: Machine| l.at == seek(code.log, 5, 0) && l.returned is None
}

/// The first four instructions take the receiver apart.
proof fn get_extracts(code: Code, o: Outside, memory: Memory) -> (l: Machine)
    requires
        4 < code.log.len() <= usize::MAX,
        forall|i: usize|
            i < 4 ==> #[trigger] code.log[i as int] == (Entry {
                block: 0,
                inst: Inst::Extract(LType::Table, Val::Param(0), i),
            }),
        code.log[4].block == 0,
        seek(code.log, 0, 0) == 0,
    ensures
        booted(code, memory).leads_to(code, o, l),
        l.at == 4,
        l.returned is None,
        l.memory == memory,
        forall|i: usize| i < 4 ==> #[trigger] l.results[i] == (o.parts)(0, i),
{
    assert(code.log[0usize as int].inst is Extract && code.log[1usize as int].inst is Extract);
    assert(code.log[2usize as int].inst is Extract && code.log[3usize as int].inst is Extract);
    let m0 = booted(code, memory);
    extracts(m0, code, o, LType::Table, 0, 0);
    let m1 = m0.step(code, o);
    extracts(m1, code, o, LType::Table, 0, 1);
    let m2 = m1.step(code, o);
    extracts(m2, code, o, LType::Table, 0, 2);
    let m3 = m2.step(code, o);
    extracts(m3, code, o, LType::Table, 0, 3);
    m3.step(code, o)
}

/// `Map.get` of a key that a lookup ends at acquires the value beside it.
pub proof fn get_finds_the_value(
    c: &EmitContext,
    o: Outside,
    memory: Memory,
    layout: HashtableLayout,
    ops: KeyHashOps,
    value_ty: IRType,
    option: IRSymbol,
    k: KeyWords,
    b: int,
)
    requires
        acquires(c, o, value_ty),
        sound(memory),
        receives_table(o),
        k.key == (o.values)(Val::Param(1)),
        key_calls(o, ops, memory, k),
        ({
            let t = receiver(o, memory, layout, ops.key_basic_ty);
            &&& laid_out(o, t)
            &&& power_of_two(t.capacity)
            &&& layout.key_size <= t.entry_size
            &&& found_at(o, t, k, b)
        }),
    ensures
        ({
            let code = map_get_code(c, start(), layout, ops, value_ty, option);
            let t = receiver(o, memory, layout, ops.key_basic_ty);
            let ty = value_type(value_ty);
            booted(code, memory).comes_to(
                code,
                o,
                got_value(
                    c,
                    o,
                    layout,
                    ops,
                    value_ty,
                    value_in(o, t, layout, ty, b),
                    memory,
                ),
            )
        }),
{
    let code = map_get_code(c, start(), layout, ops, value_ty, option);
    let t = receiver(o, memory, layout, ops.key_basic_ty);
    let ty = value_type(value_ty);
    let p = get_probe(layout, ops);
    let value = value_in(o, t, layout, ty, b);
    let goal = got_value(c, o, layout, ops, value_ty, value, memory);
    get_begins(c, layout, ops, value_ty, option);
    get_stands(c, layout, ops, value_ty, option);
    let m = get_extracts(code, o, memory);
    let d = choose|d: nat| #[trigger]
        t.visited(k.hash, d) == b && forall|e: nat|
            e < d ==> !stops(o, t, k, false, #[trigger] t.visited(k.hash, e));
    vstd::arithmetic::div_mod::lemma_mod_bound(k.hash + d, t.capacity as int);
    assert(m.results[0] == (o.parts)(0, 0) && m.results[1] == (o.parts)(0, 1));
    assert(m.results[3] == (o.parts)(0, 3));
    assert(p.works_on(o, m, t, k));
    probe_stops(code, o, p, m, t, k, d);
    let half = stopped(code, o, p, m, t, k, b);
    entry_address(t, b);
    assert forall|l: Machine| half(l) implies #[trigger] l.comes_to(code, o, goal) by {
        moves(l, code, o, Val::At(16), num(layout.key_size));
        let next = l.step(code, o);
        address_in_range(t.entry(b) + layout.key_size);
        get_loads(c, code, o, layout, ops, value_ty, next, memory, value);
    }
    goes_on(m, code, o, half, goal);
}

/// The load and the acquired value.
proof fn get_loads(
    c: &EmitContext,
    code: Code,
    o: Outside,
    layout: HashtableLayout,
    ops: KeyHashOps,
    value_ty: IRType,
    l: Machine,
    memory: Memory,
    value: int,
)
    requires
        ({
            let ok = loaded_code(layout, ops, value_type(value_ty));
            let item = map_get_item_code(c, start(), layout, ops, value_ty);
            let a = item.0;
            &&& item == acquire_value_code(c, ok, value_ty, Val::At(24))
            &&& begins_as(code, a)
            &&& ok.log.len() == 25
            &&& a.cur == 4
            &&& 25 <= a.log.len() < code.log.len()
            &&& code.log[25].block == 4
            &&& code.log[a.log.len() as int].block == 4
        }),
        code.log[24] == (Entry { block: 4, inst: Inst::Load(value_type(value_ty), Val::At(23)) }),
        acquires(c, o, value_ty),
        sound(memory),
        l.memory == memory,
        l.at == 24,
        l.returned is None,
        number(l.memory, l.results[23], byte_count(o, value_type(value_ty))) == value,
    ensures
        l.comes_to(code, o, got_value(c, o, layout, ops, value_ty, value, memory)),
{
    let ok = loaded_code(layout, ops, value_type(value_ty));
    loads(l, code, o, value_type(value_ty), Val::At(23));
    let next = l.step(code, o);
    assert(next.results[24] == value);
    let end = acquire_value_runs(c, code, o, ok, next, value_ty, Val::At(24));
    arrives(end, code, o, got_value(c, o, layout, ops, value_ty, value, memory));
}

/// What a `Map.get` is made of, as far as its load.
proof fn get_stands(
    c: &EmitContext,
    layout: HashtableLayout,
    ops: KeyHashOps,
    value_ty: IRType,
    option: IRSymbol,
)
    ensures
        ({
            let code = map_get_code(c, start(), layout, ops, value_ty, option);
            &&& 25 <= code.log.len() <= usize::MAX
            &&& get_probe(layout, ops).stands_in(code)
            &&& forall|i: usize|
                i < 4 ==> #[trigger] code.log[i as int] == (Entry {
                    block: 0,
                    inst: Inst::Extract(LType::Table, Val::Param(0), i),
                })
            &&& code.log[4].block == 0
            &&& seek(code.log, 0, 0) == 0
            &&& seek(code.log, 4, 0) == 23
            &&& code.log[23] == (Entry {
                block: 4,
                inst: gep(Val::At(16), num(layout.key_size)),
            })
            &&& code.log[24] == (Entry {
                block: 4,
                inst: Inst::Load(value_type(value_ty), Val::At(23)),
            })
        }),
{
    let code = map_get_code(c, start(), layout, ops, value_ty, option);
    let ok = loaded_code(layout, ops, value_type(value_ty));
    let p = looked_code(layout, ops);
    get_begins(c, layout, ops, value_ty, option);
    assert(p.log.len() == 23) by {
        reveal(looked_code);
    }
    assert(begins_as(ok, p)) by {
        assert(p.log =~= ok.log.subrange(0, 23));
        assert(p.edges =~= ok.edges.subrange(0, p.edges.len() as int));
    }
    begins_further(code, ok, p);
    looked_code_stands(code, layout, ops);
    beginning_stands(code, ok);
    seek_finds(code.log, 4, 0, 23);
}

/// `Map.get` of a key that cannot be looked up gives back `None`, as long
/// as some bucket of the receiver was never filled.
pub proof fn get_misses(
    c: &EmitContext,
    o: Outside,
    memory: Memory,
    layout: HashtableLayout,
    ops: KeyHashOps,
    value_ty: IRType,
    option: IRSymbol,
    k: KeyWords,
    empty: int,
)
    requires
        receives_table(o),
        k.key == (o.values)(Val::Param(1)),
        key_calls(o, ops, memory, k),
        ({
            let t = receiver(o, memory, layout, ops.key_basic_ty);
            &&& power_of_two(t.capacity)
            &&& 0 <= empty < t.capacity
            &&& t.state(empty) == STATE_EMPTY
            &&& !in_table(o, t, k)
        }),
    ensures
        ({
            let code = map_get_code(c, start(), layout, ops, value_ty, option);
            booted(code, memory).comes_to(code, o, at_none(code))
        }),
{
    let code = map_get_code(c, start(), layout, ops, value_ty, option);
    let t = receiver(o, memory, layout, ops.key_basic_ty);
    let p = get_probe(layout, ops);
    let goal = at_none(code);
    get_stands(c, layout, ops, value_ty, option);
    let m = get_extracts(code, o, memory);
    let some = probes_visit_every_bucket(t, k.hash, empty);
    let stop = first_stop(o, t, k, false, 0, some);
    let b = t.visited(k.hash, stop);
    assert(!holds_key(o, t, k, b)) by {
        if holds_key(o, t, k, b) {
            assert forall|e: nat| e <= stop implies t.state(#[trigger] t.visited(k.hash, e))
                != STATE_EMPTY by {
                if e < stop {
                    assert(!stops(o, t, k, false, t.visited(k.hash, e)));
                }
            }
            assert(holds_key(o, t, k, t.visited(k.hash, stop)));
        }
    }
    assert(m.results[0] == (o.parts)(0, 0) && m.results[1] == (o.parts)(0, 1));
    assert(m.results[3] == (o.parts)(0, 3));
    assert(p.works_on(o, m, t, k));
    probe_stops(code, o, p, m, t, k, stop);
    let half = stopped(code, o, p, m, t, k, b);
    assert forall|l: Machine| half(l) implies #[trigger] l.comes_to(code, o, goal) by {
        arrives(l, code, o, goal);
    }
    goes_on(m, code, o, half, goal);
}

} // verus!
