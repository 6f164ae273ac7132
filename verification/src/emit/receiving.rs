//! Where a receive goes, and what it leaves.

use vstd::prelude::*;
use crate::ctx::EmitContext;
use crate::emit::arithmetic::about_to;
use crate::emit::frame::Scope;
use crate::emit::process::{arms_code, receive_code, words_for};

use crate::ir::{ReceiveAfter, ReceiveArm};
use crate::llvm::{a2, a3, call, itest, num, Callee, Code, Entry, Inst, LType, Pred, Val};
use crate::memory::{number, stored};
use crate::runtime::Rt;
use crate::semantics::{
    arguments, branches, byte_count, calls, jumps, loads, read, seek, seek_finds, slots_stand,
    stores, tests, tidy, Machine, Outside,
};
use crate::types::value_type;

verus! {

/// The block that the test of an arm stands in.
spec fn test_block(s: Code, j: int) -> usize {
    if j == 0 {
        s.cur
    } else {
        (s.blocks + 2 * j - 1) as usize
    }
}

/// An arm stands in a body: its test, and the block that moves its
/// payload.
spec fn arm_stands(log: Seq<Entry>, s: Code, sc: Scope, slot: Val, tag: Val, arm: ReceiveArm, j: int) -> bool {
    let n = s.log.len() + 5 * j;
    let move_block = (s.blocks + 2 * j) as usize;
    let next = (s.blocks + 2 * j + 1) as usize;
    let ty = value_type(arm.payload_type);
    &&& sc.local(arm.payload_local) is Some
    &&& sc.block(arm.body) is Some
    &&& n + 5 <= log.len()
    &&& log[n] == Entry { block: test_block(s, j), inst: itest(Pred::Eq, tag, num(arm.wire_byte as u64)) }
    &&& log[n + 1] == Entry {
        block: test_block(s, j),
        inst: Inst::CondBr(Val::At(n as usize), move_block, next),
    }
    &&& log[n + 2] == Entry { block: move_block, inst: Inst::Load(ty, slot) }
    &&& log[n + 3] == Entry {
        block: move_block,
        inst: Inst::Store(ty, Val::At((n + 2) as usize), sc.local(arm.payload_local)->0),
    }
    &&& log[n + 4] == Entry { block: move_block, inst: Inst::Br(sc.block(arm.body)->0) }
}

proof fn arms_stand(s: Code, sc: Scope, slot: Val, tag: Val, arms: Seq<ReceiveArm>, k: nat)
    requires
        k <= arms.len(),
        arms_code(s, sc, slot, tag, arms, k) is Some,
        s.log.len() + 5 * k <= usize::MAX,
        s.blocks + 2 * k <= usize::MAX,
    ensures
        ({
            let t = arms_code(s, sc, slot, tag, arms, k)->0;
            &&& t.log.len() == s.log.len() + 5 * k
            &&& t.blocks == s.blocks + 2 * k
            &&& t.cur == test_block(s, k as int)
            &&& forall|i: int| 0 <= i < s.log.len() ==> #[trigger] t.log[i] == s.log[i]
            &&& forall|j: int| 0 <= j < k ==> arm_stands(t.log, s, sc, slot, tag, #[trigger] arms[j], j)
        }),
    decreases k,
{
    if k > 0 {
        arms_stand(s, sc, slot, tag, arms, (k - 1) as nat);
        let t = arms_code(s, sc, slot, tag, arms, k)->0;
        let u = arms_code(s, sc, slot, tag, arms, (k - 1) as nat)->0;
        assert forall|j: int| 0 <= j < k implies arm_stands(t.log, s, sc, slot, tag, #[trigger] arms[j], j) by {
            if j < k - 1 {
                assert(arm_stands(u.log, s, sc, slot, tag, arms[j], j));
                let n = s.log.len() + 5 * j;
                assert(t.log[n] == u.log[n] && t.log[n + 1] == u.log[n + 1] && t.log[n + 2] == u.log[n + 2]
                    && t.log[n + 3] == u.log[n + 3] && t.log[n + 4] == u.log[n + 4]);
            }
        }
    }
}

/// What stands before the arm `j` belongs to other blocks.
proof fn earlier_blocks(code: Code, s: Code, sc: Scope, slot: Val, tag: Val, arms: Seq<ReceiveArm>, j: int, i: int)
    requires
        tidy(s),
        0 <= j <= arms.len(),
        s.blocks + 2 * arms.len() <= usize::MAX,
        0 <= i < s.log.len() + 5 * j,
        forall|h: int| 0 <= h < s.log.len() ==> #[trigger] code.log[h] == s.log[h],
        forall|h: int| 0 <= h < arms.len() ==> arm_stands(code.log, s, sc, slot, tag, #[trigger] arms[h], h),
    ensures
        code.log[i].block != s.blocks + 2 * j,
        j > 0 ==> code.log[i].block != s.blocks + 2 * j - 1,
{
    if i < s.log.len() {
        assert(code.log[i] == s.log[i]);
        assert(s.log[i].block < s.blocks);
    } else {
        let h = (i - s.log.len()) / 5;
        assert(0 <= h < j);
        assert(arm_stands(code.log, s, sc, slot, tag, arms[h], h));
        let n = s.log.len() + 5 * h;
        assert(i == n || i == n + 1 || i == n + 2 || i == n + 3 || i == n + 4);
    }
}

/// A message that has come goes to the first arm whose byte its tag is.
proof fn arm_is_found(
    m: Machine,
    code: Code,
    o: Outside,
    s: Code,
    sc: Scope,
    slot: Val,
    tag: Val,
    arms: Seq<ReceiveArm>,
    j: int,
    k: int,
) -> (l: Machine)
    requires
        tidy(s),
        0 <= j <= k < arms.len(),
        code.log.len() <= usize::MAX,
        s.blocks + 2 * arms.len() <= usize::MAX,
        forall|h: int| 0 <= h < s.log.len() ==> #[trigger] code.log[h] == s.log[h],
        forall|h: int| 0 <= h < arms.len() ==> arm_stands(code.log, s, sc, slot, tag, #[trigger] arms[h], h),
        m.at == s.log.len() + 5 * j,
        m.returned is None,
        tag matches Val::At(n) && n < s.log.len(),
        0 <= read(o, m.results, tag) <= u64::MAX,
        read(o, m.results, tag) == arms[k].wire_byte,
        forall|h: int| j <= h < k ==> read(o, m.results, tag) != (#[trigger] arms[h]).wire_byte,
        slot is Slot,
        sc.local(arms[k].payload_local)->0 is Slot,
    ensures
        m.leads_to(code, o, l),
        l.at == seek(code.log, sc.block(arms[k].body)->0, 0),
        l.returned is None,
        l.memory == stored(
            m.memory,
            (o.values)(sc.local(arms[k].payload_local)->0),
            number(m.memory, (o.values)(slot), byte_count(o, value_type(arms[k].payload_type))),
            byte_count(o, value_type(arms[k].payload_type)),
        ),
    decreases k - j,
{
    let n = s.log.len() + 5 * j;
    let arm = arms[j];
    let move_block = (s.blocks + 2 * j) as usize;
    let next = (s.blocks + 2 * j + 1) as usize;
    assert(arm_stands(code.log, s, sc, slot, tag, arm, j));
    tests(m, code, o, Pred::Eq, LType::I64, tag, num(arm.wire_byte as u64));
    let m1 = m.step(code, o);
    branches(m1, code, o, Val::At(n as usize), move_block, next);
    let m2 = m1.step(code, o);
    if j == k {
        assert forall|i: int| 0 <= i < n + 2 implies (#[trigger] code.log[i]).block != move_block by {
            if i < n {
                earlier_blocks(code, s, sc, slot, tag, arms, j, i);
            }
        }
        seek_finds(code.log, move_block, 0, (n + 2) as nat);
        let ty = value_type(arm.payload_type);
        loads(m2, code, o, ty, slot);
        let m3 = m2.step(code, o);
        stores(m3, code, o, ty, Val::At((n + 2) as usize), sc.local(arm.payload_local)->0);
        let m4 = m3.step(code, o);
        jumps(m4, code, o, sc.block(arm.body)->0);
        m4.step(code, o)
    } else {
        assert forall|i: int| 0 <= i < n + 5 implies (#[trigger] code.log[i]).block != next by {
            earlier_blocks(code, s, sc, slot, tag, arms, j + 1, i);
        }
        assert(arm_stands(code.log, s, sc, slot, tag, arms[j + 1], j + 1));
        assert(code.log[n + 5].block == next);
        seek_finds(code.log, next, 0, (n + 5) as nat);
        arm_is_found(m2, code, o, s, sc, slot, tag, arms, j + 1, k)
    }
}

/// A receive asks the runtime for a message of the widest payload and goes
/// to the body of the first arm whose byte is the message's tag, with the
/// payload in the arm's local.
pub proof fn receive_goes_to_its_arm(
    m: Machine,
    code: Code,
    o: Outside,
    c: &EmitContext,
    s: Code,
    sc: Scope,
    arms: Seq<ReceiveArm>,
    w: u64,
    k: int,
) -> (l: Machine)
    requires
        receive_code(c, s, sc, None, arms) is Some,
        crate::emit::process::widest(c, arms, arms.len()) == Some(w),
        about_to(m, code, s, receive_code(c, s, sc, None, arms)->0),
        slots_stand(o, code),
        s.blocks + 2 * arms.len() <= usize::MAX,
        s.log.len() + 1 + 5 * arms.len() <= usize::MAX,
        ({
            let tag = (o.calls)(
                Callee::Runtime(Rt::RtReceive),
                seq![(o.values)(s.sv(0)), w as int],
                m.memory,
            ).0;
            &&& 0 <= k < arms.len()
            &&& tag == arms[k].wire_byte
            &&& forall|h: int| 0 <= h < k ==> tag != (#[trigger] arms[h]).wire_byte
        }),
        sc.local(arms[k].payload_local)->0 is Slot,
    ensures
        m.leads_to(code, o, l),
        l.at == seek(code.log, sc.block(arms[k].body)->0, 0),
        l.returned is None,
        ({
            let got = (o.calls)(
                Callee::Runtime(Rt::RtReceive),
                seq![(o.values)(s.sv(0)), w as int],
                m.memory,
            ).1;
            let size = byte_count(o, value_type(arms[k].payload_type));
            l.memory == stored(
                got,
                (o.values)(sc.local(arms[k].payload_local)->0),
                number(got, (o.values)(s.sv(0)), size),
                size,
            )
        }),
{
    let t = receive_code(c, s, sc, None, arms)->0;
    let b = s.slot(LType::Words(words_for(w))).i(call(Rt::RtReceive, a2(s.sv(0), num(w))));
    let d = arms_code(b, sc, s.sv(0), s.v(0), arms, arms.len())->0;
    assert(t == d.i(Inst::Unreachable));
    arms_stand(b, sc, s.sv(0), s.v(0), arms, arms.len());
    let n = s.log.len() as int;
    assert forall|i: int| 0 <= i < d.log.len() implies #[trigger] code.log[i] == d.log[i] by {
        assert(code.log[i] == t.log[i]);
    }
    assert forall|h: int| 0 <= h < b.log.len() implies #[trigger] code.log[h] == b.log[h] by {
        assert(code.log[h] == d.log[h]);
    }
    assert forall|h: int| 0 <= h < arms.len() implies arm_stands(
        code.log,
        b,
        sc,
        s.sv(0),
        s.v(0),
        #[trigger] arms[h],
        h,
    ) by {
        assert(arm_stands(d.log, b, sc, s.sv(0), s.v(0), arms[h], h));
        let i = b.log.len() + 5 * h;
        assert(code.log[i] == d.log[i] && code.log[i + 1] == d.log[i + 1] && code.log[i + 2] == d.log[i + 2]
            && code.log[i + 3] == d.log[i + 3] && code.log[i + 4] == d.log[i + 4]);
    }
    assert(tidy(b));
    assert(arm_stands(code.log, b, sc, s.sv(0), s.v(0), arms[0], 0));
    assert(code.log[n] == b.log[n]);
    let args = a2(s.sv(0), num(w));
    assert(arguments(o, m.results, args) =~= seq![(o.values)(s.sv(0)), w as int]) by {
        reveal_with_fuel(arguments, 4);
    }
    calls(m, code, o, Callee::Runtime(Rt::RtReceive), args);
    let m1 = m.step(code, o);
    arm_is_found(m1, code, o, b, sc, s.sv(0), s.v(0), arms, 0, k)
}

/// A receive with a timeout goes to the body of its `after` where the
/// runtime answers that no message came in time.
pub proof fn receive_times_out(
    m: Machine,
    code: Code,
    o: Outside,
    c: &EmitContext,
    s: Code,
    sc: Scope,
    timed: ReceiveAfter,
    arms: Seq<ReceiveArm>,
    w: u64,
)
    requires
        receive_code(c, s, sc, Some(timed), arms) is Some,
        crate::emit::process::widest(c, arms, arms.len()) == Some(w),
        about_to(m, code, s, receive_code(c, s, sc, Some(timed), arms)->0),
        s.blocks + 1 + 2 * arms.len() <= usize::MAX,
        s.log.len() + 3 + 5 * arms.len() <= usize::MAX,
    ensures
        ({
            let (tag, got) = (o.calls)(
                Callee::Runtime(Rt::RtReceiveTimeout),
                seq![(o.values)(s.sv(0)), w as int, read(o, m.results, sc.value(timed.timeout)->0)],
                m.memory,
            );
            &&& sc.block(timed.body) is Some
            &&& tag as u64 == 0xffff_ffff_ffff_ffff ==> m.comes_to(
                code,
                o,
                |l: Machine|
                    l.at == seek(code.log, sc.block(timed.body)->0, 0) && l.returned is None && l.memory == got,
            )
            &&& tag as u64 != 0xffff_ffff_ffff_ffff ==> m.comes_to(
                code,
                o,
                |l: Machine| l.at == s.log.len() + 3 && l.returned is None && l.memory == got,
            )
        }),
{
    let timeout = sc.value(timed.timeout)->0;
    let body = sc.block(timed.body)->0;
    let t = receive_code(c, s, sc, Some(timed), arms)->0;
    let b = s.slot(LType::Words(words_for(w)))
        .i(call(Rt::RtReceiveTimeout, a3(s.sv(0), num(w), timeout)))
        .i(itest(Pred::Eq, s.v(0), num(0xffff_ffff_ffff_ffff)))
        .word("receive_dispatch"@)
        .i(Inst::CondBr(s.v(1), body, s.b(0)))
        .at(s.b(0));
    let d = arms_code(b, sc, s.sv(0), s.v(0), arms, arms.len())->0;
    assert(t == d.i(Inst::Unreachable));
    arms_stand(b, sc, s.sv(0), s.v(0), arms, arms.len());
    let n = s.log.len() as int;
    assert forall|h: int| 0 <= h < b.log.len() implies #[trigger] code.log[h] == b.log[h] by {
        assert(code.log[h] == t.log[h] && t.log[h] == d.log[h]);
    }
    assert(code.log[n] == b.log[n] && code.log[n + 1] == b.log[n + 1] && code.log[n + 2] == b.log[n + 2]);
    let args = a3(s.sv(0), num(w), timeout);
    assert(arguments(o, m.results, args) =~= seq![
        (o.values)(s.sv(0)),
        w as int,
        read(o, m.results, timeout),
    ]) by {
        reveal_with_fuel(arguments, 5);
    }
    calls(m, code, o, Callee::Runtime(Rt::RtReceiveTimeout), args);
    let m1 = m.step(code, o);
    tests(m1, code, o, Pred::Eq, LType::I64, s.v(0), num(0xffff_ffff_ffff_ffff));
    let m2 = m1.step(code, o);
    branches(m2, code, o, s.v(1), body, s.b(0));
    let m3 = m2.step(code, o);
    let (tag, got) = (o.calls)(
        Callee::Runtime(Rt::RtReceiveTimeout),
        seq![(o.values)(s.sv(0)), w as int, read(o, m.results, timeout)],
        m.memory,
    );
    if tag as u64 == 0xffff_ffff_ffff_ffff {
        crate::semantics::arrives(
            m3,
            code,
            o,
            |l: Machine|
                l.at == seek(code.log, sc.block(timed.body)->0, 0) && l.returned is None && l.memory == got,
        );
    } else {
        assert(code.log[n + 3].block == s.b(0)) by {
            if arms.len() > 0 {
                assert(arm_stands(d.log, b, sc, s.sv(0), s.v(0), arms[0], 0));
                assert(code.log[n + 3] == t.log[n + 3] && t.log[n + 3] == d.log[n + 3]);
            } else {
                assert(code.log[n + 3] == t.log[n + 3]);
            }
        }
        assert forall|i: int| 0 <= i < n + 3 implies (#[trigger] code.log[i]).block != s.b(0) by {
            assert(code.log[i] == b.log[i]);
            if i < n {
                assert(s.log[i].block < s.blocks);
            }
        }
        seek_finds(code.log, s.b(0), 0, (n + 3) as nat);
        crate::semantics::arrives(
            m3,
            code,
            o,
            |l: Machine| l.at == s.log.len() + 3 && l.returned is None && l.memory == got,
        );
    }
}

} // verus!
