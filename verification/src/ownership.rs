//! Where emitted code writes.
//!
//! A body owns the stack slots and the blocks that it allocates itself. A
//! body that writes only there changes nothing that it was given.

use vstd::prelude::*;
use crate::llvm::{Args, Callee, Code, Edge, Entry, Inst, LType, Val};
use crate::runtime::Rt;

verus! {

/// Where an operand stands: behind the instruction that defines it.
pub open spec fn rank(v: Val) -> nat {
    match v {
        Val::At(n) => n as nat + 1,
        _ => 0,
    }
}

/// An operand is an address that the body has made: a slot, an allocation
/// or a place in one, or a choice between such addresses.
pub open spec fn made(log: Seq<Entry>, edges: Seq<Edge>, v: Val) -> bool
    decreases rank(v),
{
    match v {
        Val::Slot(_) => true,
        Val::At(n) => n < log.len() && match log[n as int].inst {
            Inst::Alloca(_) => true,
            Inst::Call(Callee::Runtime(Rt::Malloc), _) => true,
            Inst::Gep(_, p, _) | Inst::GepIn(_, p, _) | Inst::Field(_, p, _) => rank(p) < rank(v)
                && made(log, edges, p),
            Inst::Phi(LType::Ptr) => forall|j: int|
                0 <= j < edges.len() && (#[trigger] edges[j]).phi == v ==> rank(edges[j].value)
                    < rank(v) && made(log, edges, edges[j].value),
            _ => false,
        },
        _ => false,
    }
}

/// The address that an instruction writes to or gives back.
pub open spec fn written(inst: Inst) -> Option<Val> {
    match inst {
        Inst::Store(_, _, p) => Some(p),
        Inst::Call(Callee::Runtime(rt), Args::Cons(p, _)) => if rt == Rt::Memcpy || rt == Rt::Memset
            || rt == Rt::Free {
            Some(p)
        } else {
            None
        },
        _ => None,
    }
}

/// The body writes only where it owns.
pub open spec fn writes_its_own(s: Code) -> bool {
    forall|i: int|
        0 <= i < s.log.len() ==> match written((#[trigger] s.log[i]).inst) {
            Some(p) => made(s.log, s.edges, p),
            None => true,
        }
}

/// Code that goes on from other code: it keeps what was recorded, and its
/// new edges belong to its new phis.
pub open spec fn goes_on_from(t: Code, s: Code) -> bool {
    &&& s.log.len() <= t.log.len()
    &&& forall|i: int| 0 <= i < s.log.len() ==> #[trigger] t.log[i] == s.log[i]
    &&& s.edges.len() <= t.edges.len()
    &&& forall|j: int| 0 <= j < s.edges.len() ==> #[trigger] t.edges[j] == s.edges[j]
    &&& forall|j: int|
        s.edges.len() <= j < t.edges.len() ==> match (#[trigger] t.edges[j]).phi {
            Val::At(p) => p >= s.log.len(),
            _ => false,
        }
}

/// What was made stays made.
pub proof fn made_stays(s: Code, t: Code, v: Val)
    requires
        goes_on_from(t, s),
        made(s.log, s.edges, v),
    ensures
        made(t.log, t.edges, v),
    decreases rank(v),
{
    match v {
        Val::At(n) => {
            match s.log[n as int].inst {
                Inst::Gep(_, p, _) | Inst::GepIn(_, p, _) | Inst::Field(_, p, _) => {
                    made_stays(s, t, p);
                },
                Inst::Phi(LType::Ptr) => {
                    assert forall|j: int|
                        0 <= j < t.edges.len() && (#[trigger] t.edges[j]).phi == v implies rank(
                        t.edges[j].value,
                    ) < rank(v) && made(t.log, t.edges, t.edges[j].value) by {
                        if j < s.edges.len() {
                            assert(s.edges[j].phi == v);
                            made_stays(s, t, s.edges[j].value);
                        }
                    }
                },
                _ => {},
            }
        },
        _ => {},
    }
}

/// Code that goes on writes only where it owns if its new instructions do.
pub proof fn writing_goes_on(s: Code, t: Code)
    requires
        goes_on_from(t, s),
        writes_its_own(s),
        forall|i: int|
            s.log.len() <= i < t.log.len() ==> match written((#[trigger] t.log[i]).inst) {
                Some(p) => made(t.log, t.edges, p),
                None => true,
            },
    ensures
        writes_its_own(t),
{
    assert forall|i: int| 0 <= i < t.log.len() implies match written((#[trigger] t.log[i]).inst) {
        Some(p) => made(t.log, t.edges, p),
        None => true,
    } by {
        if i < s.log.len() {
            assert(t.log[i] == s.log[i]);
            match written(s.log[i].inst) {
                Some(p) => {
                    made_stays(s, t, p);
                },
                None => {},
            }
        }
    }
}

/// Going on and going on again.
pub proof fn goes_on_further(s: Code, t: Code, u: Code)
    requires
        goes_on_from(t, s),
        goes_on_from(u, t),
    ensures
        goes_on_from(u, s),
{
    assert forall|i: int| 0 <= i < s.log.len() implies #[trigger] u.log[i] == s.log[i] by {
        assert(t.log[i] == s.log[i]);
    }
    assert forall|j: int| 0 <= j < s.edges.len() implies #[trigger] u.edges[j] == s.edges[j] by {
        assert(t.edges[j] == s.edges[j]);
    }
    assert forall|j: int| s.edges.len() <= j < u.edges.len() implies match (#[trigger] u.edges[j]).phi {
        Val::At(p) => p >= s.log.len(),
        _ => false,
    } by {
        if j < t.edges.len() {
            assert(u.edges[j] == t.edges[j]);
        }
    }
}

/// One more instruction, and where it may write.
pub proof fn instruction_writes(s: Code, inst: Inst)
    requires
        writes_its_own(s),
        written(inst) matches Some(p) ==> made(s.log, s.edges, p),
    ensures
        writes_its_own(s.i(inst)),
        goes_on_from(s.i(inst), s),
{
    let t = s.i(inst);
    assert(goes_on_from(t, s));
    match written(inst) {
        Some(p) => {
            made_stays(s, t, p);
        },
        None => {},
    }
    writing_goes_on(s, t);
}

} // verus!
