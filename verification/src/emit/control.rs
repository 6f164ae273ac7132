//! Where a program goes, and what it takes along.

use vstd::prelude::*;
use crate::emit::blocks::{params_code, tail_args_code, tail_call_code, terminator_code, wire_code, wired, zero_slots_code};
use crate::emit::frame::Scope;
use crate::emit::variants::{agree, known_by};
use crate::ir::{BlockParam, BranchTarget, IRLocalId, IRTerminator, IRType, ValueId};
use crate::llvm::{Code, Edge, Inst, LType, Val};
use crate::memory::{byte_limit, in_memory, number, store_is_read_back, store_spares_numbers, stored, Memory};
use crate::semantics::{branches, byte_count, ends, jumps, read, seek, stores, Machine, Outside};
use crate::types::value_type;

verus! {

/// What the parameters of a block are given on the way from a block: the
/// value of each argument, in the order of the arguments.
pub open spec fn given_to(t: Code, sc: Scope, row: Seq<Option<Val>>, args: Seq<ValueId>, from: usize) -> bool {
    forall|i: int|
        0 <= i < args.len() ==> (#[trigger] row[i] matches Some(phi) ==> exists|v: Val|
            sc.value(args[i]) == Some(v) && #[trigger] t.edges.contains(
                Edge { phi: phi, value: v, from: from },
            ))
}

/// An edge is an argument on its way to its parameter.
pub open spec fn carries_argument(sc: Scope, row: Seq<Option<Val>>, args: Seq<ValueId>, from: usize, e: Edge) -> bool {
    exists|i: int|
        0 <= i < args.len() && #[trigger] row[i] == Some(e.phi) && sc.value(args[i]) == Some(e.value) && e.from
            == from
}

proof fn arguments_are_wired(s: Code, sc: Scope, row: Seq<Option<Val>>, args: Seq<ValueId>, k: nat)
    requires
        k <= args.len(),
        row.len() == args.len(),
        wire_code(s, sc, row, args, k) is Some,
    ensures
        ({
            let t = wire_code(s, sc, row, args, k)->0;
            &&& t == Code { edges: t.edges, ..s }
            &&& s.edges.len() <= t.edges.len()
            &&& forall|j: int| 0 <= j < s.edges.len() ==> #[trigger] t.edges[j] == s.edges[j]
            &&& forall|j: int|
                s.edges.len() <= j < t.edges.len() ==> carries_argument(
                    sc,
                    row,
                    args,
                    s.cur,
                    #[trigger] t.edges[j],
                )
            &&& forall|i: int|
                0 <= i < k ==> (#[trigger] row[i] matches Some(phi) ==> exists|v: Val|
                    sc.value(args[i]) == Some(v) && #[trigger] t.edges.contains(
                        Edge { phi: phi, value: v, from: s.cur },
                    ))
        }),
    decreases k,
{
    if k > 0 {
        arguments_are_wired(s, sc, row, args, (k - 1) as nat);
        let u = wire_code(s, sc, row, args, (k - 1) as nat)->0;
        let t = wire_code(s, sc, row, args, k)->0;
        if let Some(phi) = row[k - 1] {
            let v = sc.value(args[k - 1])->0;
            let e = Edge { phi: phi, value: v, from: s.cur };
            assert(t.edges == u.edges.push(e));
            assert(t.edges[u.edges.len() as int] == e);
            assert(t.edges.contains(e));
            assert forall|i: int| 0 <= i < k implies (#[trigger] row[i] matches Some(p) ==> exists|x: Val|
                sc.value(args[i]) == Some(x) && #[trigger] t.edges.contains(
                    Edge { phi: p, value: x, from: s.cur },
                )) by {
                if i < k - 1 && row[i] is Some {
                    let p = row[i]->0;
                    let x = choose|x: Val|
                        sc.value(args[i]) == Some(x) && #[trigger] u.edges.contains(
                            Edge { phi: p, value: x, from: s.cur },
                        );
                    let w = Edge { phi: p, value: x, from: s.cur };
                    let j = choose|j: int| 0 <= j < u.edges.len() && u.edges[j] == w;
                    assert(t.edges[j] == w);
                    assert(t.edges.contains(w));
                }
            }
            assert(row[k - 1] == Some(e.phi));
            assert(carries_argument(sc, row, args, s.cur, e));
        }
    }
}

/// A jump goes to the block that the program names and gives each of its
/// parameters the argument at the same place.
pub proof fn jump_takes_its_arguments(
    m: Machine,
    code: Code,
    o: Outside,
    s: Code,
    sc: Scope,
    phis: Seq<Seq<Option<Val>>>,
    target: BranchTarget,
)
    requires
        terminator_code(s, sc, phis, IRTerminator::Branch(target)) is Some,
        ({
            let t = terminator_code(s, sc, phis, IRTerminator::Branch(target))->0;
            &&& t.log.len() <= code.log.len() <= usize::MAX
            &&& code.log[s.log.len() as int] == t.log[s.log.len() as int]
        }),
        m.at == s.log.len(),
        m.returned is None,
    ensures
        ({
            let t = terminator_code(s, sc, phis, IRTerminator::Branch(target))->0;
            let b = sc.block(target.block)->0;
            &&& sc.block(target.block) is Some
            &&& m.runs_on(code, o)
            &&& m.step(code, o) == m.goes(code.log, b)
            &&& b < phis.len() && phis[b as int].len() == target.args@.len()
            &&& given_to(t, sc, phis[b as int], target.args@, s.cur)
            &&& forall|j: int|
                s.edges.len() <= j < t.edges.len() ==> carries_argument(
                    sc,
                    phis[b as int],
                    target.args@,
                    s.cur,
                    #[trigger] t.edges[j],
                )
        }),
{
    let b = sc.block(target.block)->0;
    let u = s.i(Inst::Br(b));
    arguments_are_wired(u, sc, phis[b as int], target.args@, target.args@.len());
    jumps(m, code, o, b);
}

/// A branch goes to the block that the program names for a condition that
/// holds where it is 1, and to the other one elsewhere. The parameters of
/// each are given the arguments at the same places.
pub proof fn branch_goes_by_its_condition(
    m: Machine,
    code: Code,
    o: Outside,
    s: Code,
    sc: Scope,
    phis: Seq<Seq<Option<Val>>>,
    cond: ValueId,
    then_target: BranchTarget,
    else_target: BranchTarget,
)
    requires
        terminator_code(s, sc, phis, IRTerminator::CondBranch { cond, else_target, then_target }) is Some,
        ({
            let t = terminator_code(s, sc, phis, IRTerminator::CondBranch { cond, else_target, then_target })->0;
            &&& t.log.len() <= code.log.len() <= usize::MAX
            &&& code.log[s.log.len() as int] == t.log[s.log.len() as int]
        }),
        m.at == s.log.len(),
        m.returned is None,
    ensures
        ({
            let t = terminator_code(s, sc, phis, IRTerminator::CondBranch { cond, else_target, then_target })->0;
            let holds = read(o, m.results, sc.value(cond)->0) == 1;
            let yes = sc.block(then_target.block)->0;
            let no = sc.block(else_target.block)->0;
            &&& sc.value(cond) is Some
            &&& sc.block(then_target.block) is Some
            &&& sc.block(else_target.block) is Some
            &&& m.runs_on(code, o)
            &&& holds ==> m.step(code, o) == m.goes(code.log, yes)
            &&& !holds ==> m.step(code, o) == m.goes(code.log, no)
            &&& yes < phis.len() && no < phis.len()
            &&& given_to(t, sc, phis[yes as int], then_target.args@, s.cur)
            &&& given_to(t, sc, phis[no as int], else_target.args@, s.cur)
            &&& forall|j: int|
                s.edges.len() <= j < t.edges.len() ==> carries_argument(
                    sc,
                    phis[yes as int],
                    then_target.args@,
                    s.cur,
                    #[trigger] t.edges[j],
                ) || carries_argument(sc, phis[no as int], else_target.args@, s.cur, t.edges[j])
        }),
{
    let v = sc.value(cond)->0;
    let yes = sc.block(then_target.block)->0;
    let no = sc.block(else_target.block)->0;
    let u = s.i(Inst::CondBr(v, yes, no));
    arguments_are_wired(u, sc, phis[yes as int], then_target.args@, then_target.args@.len());
    let w = wired(u, sc, phis, then_target)->0;
    arguments_are_wired(w, sc, phis[no as int], else_target.args@, else_target.args@.len());
    let t = wired(w, sc, phis, else_target)->0;
    let row = phis[yes as int];
    let args = then_target.args@;
    assert forall|i: int| 0 <= i < args.len() implies (#[trigger] row[i] matches Some(p) ==> exists|x: Val|
        sc.value(args[i]) == Some(x) && #[trigger] t.edges.contains(
            Edge { phi: p, value: x, from: s.cur },
        )) by {
        if row[i] is Some {
            let p = row[i]->0;
            let x = choose|x: Val|
                sc.value(args[i]) == Some(x) && #[trigger] w.edges.contains(
                    Edge { phi: p, value: x, from: s.cur },
                );
            let e = Edge { phi: p, value: x, from: s.cur };
            let j = choose|j: int| 0 <= j < w.edges.len() && w.edges[j] == e;
            assert(t.edges[j] == e);
            assert(t.edges.contains(e));
        }
    }
    branches(m, code, o, v, yes, no);
}

/// A return gives back the value that the program names.
pub proof fn return_gives_the_value(
    m: Machine,
    code: Code,
    o: Outside,
    s: Code,
    sc: Scope,
    phis: Seq<Seq<Option<Val>>>,
    id: ValueId,
)
    requires
        sc.ret != LType::Void,
        terminator_code(s, sc, phis, IRTerminator::Return { value: Some(id) }) is Some,
        ({
            let t = terminator_code(s, sc, phis, IRTerminator::Return { value: Some(id) })->0;
            &&& t.log.len() <= code.log.len() <= usize::MAX
            &&& code.log[s.log.len() as int] == t.log[s.log.len() as int]
        }),
        m.at == s.log.len(),
        m.returned is None,
    ensures
        sc.value(id) is Some,
        m.runs_on(code, o),
        m.step(code, o).returned == Some(read(o, m.results, sc.value(id)->0)),
{
    ends(m, code, o, sc.ret, sc.value(id)->0);
}

/// The parameters of a block are bound to its phis, each to the one at its
/// place. A parameter without a value has none.
pub proof fn parameters_are_phis(s: Code, sc: Scope, params: Seq<BlockParam>, k: nat, i: int)
    requires
        0 <= i < k <= params.len(),
        s.log.len() + k <= usize::MAX,
        forall|a: int, b: int|
            0 <= a < b < params.len() ==> (#[trigger] params[a]).dest != (#[trigger] params[b]).dest,
    ensures
        ({
            let (t, tc, row) = params_code(s, sc, params, k);
            &&& row.len() == k
            &&& t.log.len() <= s.log.len() + k
            &&& params[i].ty == IRType::Unit ==> row[i] is None
            &&& params[i].ty != IRType::Unit ==> {
                &&& row[i] is Some
                &&& tc.value(params[i].dest) == row[i]
                &&& row[i]->0 matches Val::At(n) && s.log.len() <= n < t.log.len() && t.log[n as int].inst
                    == Inst::Phi(value_type(params[i].ty)) && t.log[n as int].block == s.cur
            }
        }),
    decreases k,
{
    params_row(s, sc, params, (k - 1) as nat);
    if i < k - 1 {
        parameters_are_phis(s, sc, params, (k - 1) as nat, i);
        assert(params[i].dest != params[k - 1].dest);
    }
}

proof fn params_row(s: Code, sc: Scope, params: Seq<BlockParam>, k: nat)
    requires
        k <= params.len(),
    ensures
        params_code(s, sc, params, k).2.len() == k,
        params_code(s, sc, params, k).0.cur == s.cur,
        s.log.len() <= params_code(s, sc, params, k).0.log.len() <= s.log.len() + k,
    decreases k,
{
    if k > 0 {
        params_row(s, sc, params, (k - 1) as nat);
    }
}

/// Slots of locals lie apart.
pub open spec fn slots_apart(o: Outside, sc: Scope, slots: Seq<(IRLocalId, IRType)>) -> bool {
    &&& forall|i: int|
        0 <= i < slots.len() ==> {
            &&& sc.local((#[trigger] slots[i]).0) is Some
            &&& sc.local(slots[i].0)->0 is Slot
            &&& in_memory((o.values)(sc.local(slots[i].0)->0), byte_count(o, value_type(slots[i].1)) as int)
        }
    &&& forall|i: int, j: int|
        0 <= i < slots.len() && 0 <= j < slots.len() && i != j ==> {
            let p = (o.values)(sc.local((#[trigger] slots[i]).0)->0);
            let q = (o.values)(sc.local((#[trigger] slots[j]).0)->0);
            p + byte_count(o, value_type(slots[i].1)) <= q || q + byte_count(o, value_type(slots[j].1)) <= p
        }
}

/// The slot of a local holds a value.
pub open spec fn slot_holds(o: Outside, sc: Scope, memory: Memory, slot: (IRLocalId, IRType), x: int) -> bool {
    number(memory, (o.values)(sc.local(slot.0)->0), byte_count(o, value_type(slot.1))) == x
}

proof fn arguments_are_stored(
    m: Machine,
    code: Code,
    o: Outside,
    s: Code,
    sc: Scope,
    slots: Seq<(IRLocalId, IRType)>,
    args: Seq<ValueId>,
    k: nat,
) -> (l: Machine)
    requires
        k <= args.len() == slots.len(),
        slots_apart(o, sc, slots),
        tail_args_code(s, sc, slots, args, k) is Some,
        ({
            let t = tail_args_code(s, sc, slots, args, k)->0;
            &&& t.log.len() < code.log.len() <= usize::MAX
            &&& forall|i: int| 0 <= i < t.log.len() ==> #[trigger] code.log[i] == t.log[i]
            &&& code.log[t.log.len() as int].block == s.cur
        }),
        m.at == s.log.len(),
        m.returned is None,
        forall|i: int|
            0 <= i < k ==> {
                &&& sc.value(#[trigger] args[i]) is Some
                &&& known_by(sc.value(args[i])->0, s.log.len() as int)
                &&& 0 <= read(o, m.results, sc.value(args[i])->0) < byte_limit(
                    byte_count(o, value_type(slots[i].1)),
                )
            },
    ensures
        m.leads_to(code, o, l),
        ({
            let t = tail_args_code(s, sc, slots, args, k)->0;
            &&& t == Code { log: t.log, ..s }
            &&& t.log.len() == s.log.len() + k
            &&& l.at == t.log.len()
            &&& l.returned is None
            &&& agree(l.results, m.results, s.log.len() as int)
            &&& forall|i: int|
                0 <= i < k ==> slot_holds(
                    o,
                    sc,
                    l.memory,
                    #[trigger] slots[i],
                    read(o, m.results, sc.value(args[i])->0),
                )
        }),
    decreases k,
{
    if k == 0 {
        m
    } else {
        let t = tail_args_code(s, sc, slots, args, k)->0;
        let u = tail_args_code(s, sc, slots, args, (k - 1) as nat)->0;
        let slot = sc.local(slots[k - 1].0)->0;
        let v = sc.value(args[k - 1])->0;
        let ty = value_type(slots[k - 1].1);
        assert(t == u.i(Inst::Store(ty, v, slot)));
        assert(code.log[u.log.len() as int] == t.log[u.log.len() as int]);
        assert(u.cur == s.cur) by {
            tail_args_stay(s, sc, slots, args, (k - 1) as nat);
        }
        assert forall|i: int| 0 <= i < u.log.len() implies #[trigger] code.log[i] == u.log[i] by {
            assert(code.log[i] == t.log[i]);
        }
        let m1 = arguments_are_stored(m, code, o, s, sc, slots, args, (k - 1) as nat);
        stores(m1, code, o, ty, v, slot);
        let l = m1.step(code, o);
        let x = read(o, m.results, v);
        assert(sc.value(args[k - 1]) is Some);
        assert(read(o, m1.results, v) == x) by {
            if let Val::At(n) = v {
                assert(m1.results[n] == m.results[n]);
            }
        }
        let p = (o.values)(slot);
        assert(sc.local(slots[k - 1].0) is Some);
        assert(l.memory == stored(m1.memory, p, x, byte_count(o, ty)));
        store_is_read_back(m1.memory, p, x, byte_count(o, ty));
        assert forall|i: int| 0 <= i < k implies slot_holds(
            o,
            sc,
            l.memory,
            #[trigger] slots[i],
            read(o, m.results, sc.value(args[i])->0),
        ) by {
            if i < k - 1 {
                store_spares_numbers(
                    m1.memory,
                    p,
                    x,
                    byte_count(o, ty),
                    (o.values)(sc.local(slots[i].0)->0),
                    byte_count(o, value_type(slots[i].1)),
                );
            }
        }
        assert forall|n: usize| n < s.log.len() implies #[trigger] l.results[n] == m.results[n] by {
            assert(m1.results[n] == m.results[n]);
        }
        l
    }
}

proof fn tail_args_stay(s: Code, sc: Scope, slots: Seq<(IRLocalId, IRType)>, args: Seq<ValueId>, k: nat)
    requires
        tail_args_code(s, sc, slots, args, k) is Some,
    ensures
        ({
            let t = tail_args_code(s, sc, slots, args, k)->0;
            t == Code { log: t.log, ..s } && t.log.len() == s.log.len() + k
        }),
    decreases k,
{
    if k > 0 {
        tail_args_stay(s, sc, slots, args, (k - 1) as nat);
    }
}

/// A tail call of a function without other locals goes back to the loop
/// with each argument in the slot of the parameter at its place, as they
/// were before any of them was stored.
pub proof fn tail_call_passes_its_arguments(
    m: Machine,
    code: Code,
    o: Outside,
    s: Code,
    sc: Scope,
    args: Seq<ValueId>,
) -> (l: Machine)
    requires
        tail_call_code(s, sc, args) is Some,
        sc.tco->0.body_slots.len() == 0,
        slots_apart(o, sc, sc.tco->0.param_slots),
        ({
            let t = tail_call_code(s, sc, args)->0;
            &&& t.log.len() <= code.log.len() <= usize::MAX
            &&& forall|i: int| 0 <= i < t.log.len() ==> #[trigger] code.log[i] == t.log[i]
        }),
        m.at == s.log.len(),
        m.returned is None,
        forall|i: int|
            0 <= i < args.len() ==> {
                &&& sc.value(#[trigger] args[i]) is Some
                &&& known_by(sc.value(args[i])->0, s.log.len() as int)
                &&& 0 <= read(o, m.results, sc.value(args[i])->0) < byte_limit(
                    byte_count(o, value_type(sc.tco->0.param_slots[i].1)),
                )
            },
    ensures
        m.leads_to(code, o, l),
        l.at == seek(code.log, sc.tco->0.loop_block, 0),
        l.returned is None,
        forall|i: int|
            0 <= i < args.len() ==> slot_holds(
                o,
                sc,
                l.memory,
                #[trigger] sc.tco->0.param_slots[i],
                read(o, m.results, sc.value(args[i])->0),
            ),
{
    let frame = sc.tco->0;
    let t = tail_args_code(s, sc, frame.param_slots, args, args.len())->0;
    let u = t.i(Inst::Br(frame.loop_block));
    assert(zero_slots_code(t, sc, frame.body_slots, 0) == Some(t));
    tail_args_stay(s, sc, frame.param_slots, args, args.len());
    assert(tail_call_code(s, sc, args) == Some(u));
    assert(code.log[t.log.len() as int] == u.log[t.log.len() as int]);
    assert forall|i: int| 0 <= i < t.log.len() implies #[trigger] code.log[i] == t.log[i] by {
        assert(code.log[i] == u.log[i]);
    }
    let k = arguments_are_stored(m, code, o, s, sc, frame.param_slots, args, args.len());
    jumps(k, code, o, frame.loop_block);
    k.step(code, o)
}

} // verus!
