//! What socket intrinsics give back.

use vstd::prelude::*;
use crate::ctx::EmitContext;
use crate::emit::enums::enum_value_code;
use crate::emit::meaning::{element_of, tuple_fits};
use crate::emit::variants::{field_is_put, gave_variant, is_variant, lies_in};
use crate::intrinsics::outcomes::{ret_ok_stands, single_is_returned, single_stands};
use crate::intrinsics::result::ret_ok_code;
use crate::intrinsics::socket::{null_branch_code, recv_from_code};
use crate::ir::{IRSymbol, IRType, IRVariantTag};
use crate::llvm::{a0, a1, a2, call, gep, itest, num, start, Callee, CastOp, Code, Inst, LType, Pred, Val};
use crate::memory::{address_in_range, byte_limit_is_power, number, number_and_last_byte, Memory};
use crate::runtime::Rt;
use crate::semantics::{
    arguments, arrives, block_begins, booted, branches, byte_count, calls, converts, extracts, goes_on, inserted, inserts,
    loads, moves, read, seek_finds, slots_stand, stands, tests, tidy, Machine, Outside,
};

verus! {

/// The pieces of a branch on null.
proof fn null_branch_stands(c: &EmitContext, s: Code, ptr: Val, result: IRSymbol)
    requires
        c.payload(result, 1).len() == 1,
        !(c.payload(result, 1)[0] is Indirect),
        s.log.len() + 60 <= usize::MAX,
    ensures
        ({
            let t = null_branch_code(c, s, ptr, result);
            &&& t.log.len() == s.log.len() + 12
            &&& t.blocks == s.blocks + 2
            &&& t.cur == s.b(0)
            &&& t.texts == s.texts
            &&& t.edges == s.edges
            &&& s.slots.len() <= t.slots.len() <= s.slots.len() + 7
            &&& forall|i: int| 0 <= i < s.log.len() ==> #[trigger] t.log[i] == s.log[i]
            &&& forall|i: int| 0 <= i < s.slots.len() ==> #[trigger] t.slots[i] == s.slots[i]
            &&& forall|i: int| s.log.len() <= i < s.log.len() + 4 ==> (#[trigger] t.log[i]).block == s.cur
            &&& forall|i: int| s.log.len() + 4 <= i < t.log.len() ==> (#[trigger] t.log[i]).block == s.b(1)
        }),
{
    let e = s.i(Inst::Cast(CastOp::PtrToInt, LType::Ptr, ptr, LType::I64))
        .i(Inst::Cast(CastOp::PtrToInt, LType::Ptr, Val::Null, LType::I64))
        .i(itest(Pred::Eq, s.v(0), s.v(1)))
        .word("ok"@).word("err"@)
        .i(Inst::CondBr(s.v(2), s.b(1), s.b(0)))
        .at(s.b(1))
        .i(call(Rt::LastError, a0()));
    single_stands(c, e, result, 1, s.v(4));
    let (w, v) = enum_value_code(c, e, result, IRVariantTag(1), seq![s.v(4)]);
    let t = null_branch_code(c, s, ptr, result);
    assert forall|i: int| 0 <= i < e.log.len() implies #[trigger] t.log[i] == e.log[i] by {
        assert(w.log[i] == e.log[i]);
    }
    assert forall|i: int| s.log.len() + 4 <= i < t.log.len() implies (#[trigger] t.log[i]).block == s.b(1) by {
        if i < e.log.len() {
            assert(t.log[i] == e.log[i]);
        } else if i < w.log.len() {
            assert(w.log[i].block == e.cur);
        }
    }
}

/// A null answer is given back as `Err` of the runtime's last error. Any
/// other goes on.
proof fn null_is_an_error(
    c: &EmitContext,
    code: Code,
    o: Outside,
    s: Code,
    m: Machine,
    ptr: Val,
    result: IRSymbol,
) -> (l: Machine)
    requires
        c.payload(result, 1) == seq![IRType::String],
        lies_in(c, o, result, 1),
        slots_stand(o, code),
        tidy(s),
        s.blocks + 2 <= usize::MAX,
        s.log.len() + 60 <= usize::MAX,
        stands(code, null_branch_code(c, s, ptr, result)),
        s.log.len() + 12 < code.log.len(),
        code.log[s.log.len() as int + 12].block == s.b(0),
        m.at == s.log.len(),
        m.returned is None,
        ptr matches Val::At(k) && k < s.log.len(),
        0 <= read(o, m.results, ptr) <= u64::MAX,
        0 <= (o.calls)(Callee::Runtime(Rt::LastError), seq![], m.memory).0 <= u64::MAX,
    ensures
        read(o, m.results, ptr) == 0 ==> m.comes_to(
            code,
            o,
            gave_variant(
                c,
                o,
                result,
                1,
                seq![(o.calls)(Callee::Runtime(Rt::LastError), seq![], m.memory).0],
            ),
        ),
        read(o, m.results, ptr) != 0 ==> {
            &&& m.leads_to(code, o, l)
            &&& l.at == s.log.len() + 12
            &&& l.returned is None
            &&& l.memory == m.memory
            &&& l.parts == m.parts
            &&& forall|k: usize| k < s.log.len() ==> #[trigger] l.results[k] == m.results[k]
        },
{
    let t = null_branch_code(c, s, ptr, result);
    null_branch_stands(c, s, ptr, result);
    let n = s.log.len() as int;
    let f = s.i(Inst::Cast(CastOp::PtrToInt, LType::Ptr, ptr, LType::I64))
        .i(Inst::Cast(CastOp::PtrToInt, LType::Ptr, Val::Null, LType::I64))
        .i(itest(Pred::Eq, s.v(0), s.v(1)))
        .word("ok"@).word("err"@)
        .i(Inst::CondBr(s.v(2), s.b(1), s.b(0)))
        .at(s.b(1));
    let e = f.i(call(Rt::LastError, a0()));
    single_stands(c, e, result, 1, s.v(4));
    let (w, v) = enum_value_code(c, e, result, IRVariantTag(1), seq![s.v(4)]);
    let x = w.i(Inst::Ret(LType::Enum(result), v));
    assert(t == x.at(s.b(0)));
    assert(stands(code, x));
    assert forall|i: int| 0 <= i < e.log.len() implies #[trigger] code.log[i] == e.log[i] by {
        assert(code.log[i] == x.log[i] && w.log[i] == e.log[i]);
    }
    assert(stands(code, e));
    assert(stands(code, f));
    assert(code.log[n] == e.log[n] && code.log[n + 1] == e.log[n + 1] && code.log[n + 2] == e.log[n + 2]
        && code.log[n + 3] == e.log[n + 3] && code.log[n + 4] == e.log[n + 4]);
    assert(code.log[n + 5] == x.log[n + 5] && w.log[n + 5].block == e.cur);
    converts(m, code, o, CastOp::PtrToInt, LType::Ptr, ptr, LType::I64);
    let m1 = m.step(code, o);
    converts(m1, code, o, CastOp::PtrToInt, LType::Ptr, Val::Null, LType::I64);
    let m2 = m1.step(code, o);
    tests(m2, code, o, Pred::Eq, LType::I64, s.v(0), s.v(1));
    let m3 = m2.step(code, o);
    branches(m3, code, o, s.v(2), s.b(1), s.b(0));
    let m4 = m3.step(code, o);
    byte_limit_is_power(8);
    vstd::arithmetic::power2::lemma2_to64();
    if read(o, m.results, ptr) == 0 {
        assert forall|i: int| 0 <= i < f.log.len() implies (#[trigger] f.log[i]).block != f.cur by {
            if i < n {
                assert(s.log[i].block < s.blocks);
            }
        }
        block_begins(code, f);
        assert(arguments(o, m4.results, a0()) =~= seq![]);
        calls(m4, code, o, Callee::Runtime(Rt::LastError), a0());
        let m5 = m4.step(code, o);
        single_is_returned(c, code, o, e, m5, result, 1, s.v(4));
    } else {
        assert forall|i: int| 0 <= i < t.log.len() implies (#[trigger] t.log[i]).block != t.cur by {
            if i < n {
                assert(s.log[i].block < s.blocks);
                assert(t.log[i] == s.log[i]);
            }
        }
        block_begins(code, t);
    }
    m4
}

/// What the runtime answers to a receive on a descriptor, of as many bytes
/// as the second parameter says.
pub open spec fn received(o: Outside, memory: Memory, fd: int) -> (int, Memory) {
    (o.calls)(Callee::Runtime(Rt::SocketRecvFrom), seq![fd, (o.values)(Val::Param(1))], memory)
}

/// The function gave back `Ok` of a datagram: its bytes, the address it
/// came from and the port, in this order.
pub open spec fn gave_datagram(c: &EmitContext, o: Outside, result: IRSymbol, tuple: usize, data: int, ip: int, port: int) -> spec_fn(
    Machine,
) -> bool {
    |l: Machine|
        l.returned matches Some(r) && exists|x: int|
            {
                &&& #[trigger] is_variant(c, o, result, r, 0, seq![x])
                &&& element_of(c, o, tuple, x, 0) == data
                &&& element_of(c, o, tuple, x, 1) == ip
                &&& element_of(c, o, tuple, x, 2) == port
            }
}

/// `recv_from` gives back `Err` of the last error where the runtime
/// answers null. Otherwise it gives back `Ok` of the three words that the
/// answer points to.
#[verifier::spinoff_prover]
#[verifier::rlimit(60)]
pub proof fn datagram_is_taken_apart(
    c: &EmitContext,
    o: Outside,
    memory: Memory,
    socket: IRSymbol,
    descriptor: IRSymbol,
    tuple: usize,
    result: IRSymbol,
    buf: int,
    after: Memory,
)
    requires
        c.payload(result, 0) == seq![IRType::Tuple(tuple)],
        c.payload(result, 1) == seq![IRType::String],
        c.elements(tuple) == seq![IRType::Binary, IRType::String, IRType::Int64],
        lies_in(c, o, result, 0),
        lies_in(c, o, result, 1),
        tuple_fits(c, o, tuple),
        slots_stand(o, recv_from_code(c, start(), socket, descriptor, tuple, result)),
        forall|fd: int| #[trigger] received(o, memory, fd) == (buf, after),
        0 <= buf,
        buf + 24 <= u64::MAX,
        0 <= (o.calls)(Callee::Runtime(Rt::LastError), seq![], after).0 <= u64::MAX,
    ensures
        ({
            let code = recv_from_code(c, start(), socket, descriptor, tuple, result);
            booted(code, memory).comes_to(
                code,
                o,
                if buf == 0 {
                    gave_variant(
                        c,
                        o,
                        result,
                        1,
                        seq![(o.calls)(Callee::Runtime(Rt::LastError), seq![], after).0],
                    )
                } else {
                    gave_datagram(
                        c,
                        o,
                        result,
                        tuple,
                        number(after, buf, 8),
                        number(after, buf + 8, 8),
                        number(after, buf + 16, 8),
                    )
                },
            )
        }),
{
    let s = start();
    let code = recv_from_code(c, s, socket, descriptor, tuple, result);
    let ty = LType::Tuple(tuple);
    let a = s.i(Inst::Extract(LType::Struct(socket), Val::Param(0), 0))
        .i(Inst::Extract(LType::Struct(descriptor), s.v(0), 0))
        .i(call(Rt::SocketRecvFrom, a2(s.v(1), Val::Param(1))));
    let n = null_branch_code(c, a, s.v(2), result);
    null_branch_stands(c, a, s.v(2), result);
    let g = n.i(Inst::Load(LType::Ptr, s.v(2)))
        .i(gep(s.v(2), num(8)))
        .i(Inst::Load(LType::Ptr, n.v(1)))
        .i(gep(s.v(2), num(16)))
        .i(Inst::Load(LType::I64, n.v(3)))
        .i(call(Rt::Free, a1(s.v(2))))
        .i(Inst::Insert(ty, Val::Undef, LType::Ptr, n.v(0), 0))
        .i(Inst::Insert(ty, n.v(6), LType::Ptr, n.v(2), 1))
        .i(Inst::Insert(ty, n.v(7), LType::I64, n.v(4), 2));
    assert(code == ret_ok_code(c, g, result, n.v(8)));
    ret_ok_stands(c, g, result, n.v(8));
    assert(n.log.len() == 15 && g.log.len() == 24);
    assert(stands(code, g));
    assert(stands(code, n));
    assert(stands(code, a));
    assert(tidy(a));
    seek_finds(code.log, 0, 0, 0);
    assert(code.log[0] == a.log[0] && code.log[1] == a.log[1] && code.log[2] == a.log[2]);
    assert(code.log[3] == n.log[3]);
    assert(code.log[15] == g.log[15] && code.log[16] == g.log[16] && code.log[17] == g.log[17] && code.log[18]
        == g.log[18] && code.log[19] == g.log[19] && code.log[20] == g.log[20] && code.log[21] == g.log[21]
        && code.log[22] == g.log[22] && code.log[23] == g.log[23]);
    let m0 = booted(code, memory);
    extracts(m0, code, o, LType::Struct(socket), 0, 0);
    let m1 = m0.step(code, o);
    crate::semantics::part_is_taken(m1, code, o, LType::Struct(descriptor), Val::At(0), 0);
    let m2 = m1.step(code, o);
    let fd = m2.results[1];
    assert(arguments(o, m2.results, a2(Val::At(1), Val::Param(1))) =~= seq![fd, (o.values)(Val::Param(1))]) by {
        reveal_with_fuel(arguments, 4);
    }
    calls(m2, code, o, Callee::Runtime(Rt::SocketRecvFrom), a2(Val::At(1), Val::Param(1)));
    let m3 = m2.step(code, o);
    assert(received(o, memory, fd) == (buf, after));
    let l = null_is_an_error(c, code, o, a, m3, Val::At(2), result);
    if buf != 0 {
        byte_limit_is_power(8);
        vstd::arithmetic::power2::lemma2_to64();
        assert(l.results[2] == m3.results[2]);
        loads(l, code, o, LType::Ptr, Val::At(2));
        let l1 = l.step(code, o);
        moves(l1, code, o, Val::At(2), num(8));
        let l2 = l1.step(code, o);
        address_in_range(buf + 8);
        loads(l2, code, o, LType::Ptr, Val::At(16));
        let l3 = l2.step(code, o);
        moves(l3, code, o, Val::At(2), num(16));
        let l4 = l3.step(code, o);
        address_in_range(buf + 16);
        loads(l4, code, o, LType::I64, Val::At(18));
        let l5 = l4.step(code, o);
        calls(l5, code, o, Callee::Runtime(Rt::Free), a1(Val::At(2)));
        let l6 = l5.step(code, o);
        inserts(l6, code, o, ty, Val::Undef, LType::Ptr, Val::At(15), 0);
        let l7 = l6.step(code, o);
        inserts(l7, code, o, ty, Val::At(21), LType::Ptr, Val::At(17), 1);
        let l8 = l7.step(code, o);
        inserts(l8, code, o, ty, Val::At(22), LType::I64, Val::At(19), 2);
        let l9 = l8.step(code, o);
        let (data, ip, port) = (number(after, buf, 8), number(after, buf + 8, 8), number(after, buf + 16, 8));
        number_and_last_byte(after, buf, 8);
        number_and_last_byte(after, buf + 8, 8);
        number_and_last_byte(after, buf + 16, 8);
        let (p, q, r) = ((o.offsets)(ty, 0int as usize), (o.offsets)(ty, 1int as usize), (o.offsets)(ty, 2int as usize));
        assert(0 <= p && p + 8 <= q && q + 8 <= r && r + 8 <= byte_count(o, ty));
        let x = inserted(o, ty, (o.values)(Val::Undef), LType::Ptr, data, 0);
        let y = inserted(o, ty, x, LType::Ptr, ip, 1);
        let z = inserted(o, ty, y, LType::I64, port, 2);
        field_is_put(o, ty, (o.values)(Val::Undef), LType::Ptr, data, 0, p, 8);
        field_is_put(o, ty, x, LType::Ptr, ip, 1, p, 8);
        field_is_put(o, ty, x, LType::Ptr, ip, 1, q, 8);
        field_is_put(o, ty, y, LType::I64, port, 2, p, 8);
        field_is_put(o, ty, y, LType::I64, port, 2, q, 8);
        field_is_put(o, ty, y, LType::I64, port, 2, r, 8);
        assert(read(o, l9.results, n.v(8)) == z);
        single_is_returned(c, code, o, g, l9, result, 0, n.v(8));
        let first = gave_variant(c, o, result, 0, seq![z]);
        let goal = gave_datagram(c, o, result, tuple, data, ip, port);
        assert forall|k: Machine| first(k) implies #[trigger] k.comes_to(code, o, goal) by {
            assert(is_variant(c, o, result, k.returned->0, 0, seq![z]));
            arrives(k, code, o, goal);
        }
        goes_on(l9, code, o, first, goal);
    }
}

} // verus!
