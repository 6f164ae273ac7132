//! What conversions to and from C refuse.

use vstd::prelude::*;
use crate::ctx::EmitContext;
use crate::emit::arithmetic::{about_to, guard_panics_or_not, integer, panics_with};
use crate::emit::ops::fault_guard_code;
use crate::intrinsics::cptr::{alloc_code, null_if_empty_code};
use crate::intrinsics::cstring::{reject_code, to_string_code, valid_string_code};
use crate::intrinsics::leaf_values::{bits_of, length_is_loaded, shift_divides, takes_address};
use crate::intrinsics::outcomes::{
    carries_error, error_is_returned, gave_error, ret_ok_stands, ret_unit_error_stands,
};
use crate::intrinsics::result::{ret_unit_error_code, unit_error};
use crate::intrinsics::string::{byte_length_code, cstring_success_code, to_cstring_code};
use crate::ir::{IRSymbol, IRType, IRVariantTag};
use crate::llvm::{
    a1, a2, call, imul, is_null, itest, num, start, BinOp, Callee, Code, Inst, LType, Pred, Val,
};
use crate::memory::Memory;
use crate::runtime::Rt;
use crate::semantics::{
    arguments, arrives, bit, block_begins, booted, branches, byte_count, calls, combines, extracts, finishes,
    multiplies, read, seek_finds, slots_stand, stands, tests, tidy, Machine, Outside,
};
use crate::types::value_type;

verus! {

/// A test refuses with its error where it holds, and lets the run go on
/// where it does not.
proof fn refuses_or_not(
    c: &EmitContext,
    code: Code,
    o: Outside,
    s: Code,
    m: Machine,
    rejected: Val,
    result: IRSymbol,
    error: (IRSymbol, IRVariantTag),
) -> (l: Machine)
    requires
        carries_error(c, o, result, error),
        slots_stand(o, code),
        tidy(s),
        s.blocks + 2 <= usize::MAX,
        s.log.len() + 60 <= usize::MAX,
        stands(code, reject_code(c, s, rejected, result, error)),
        s.log.len() + 11 < code.log.len(),
        code.log[s.log.len() as int + 11].block == s.b(1),
        m.at == s.log.len(),
        m.returned is None,
        0 <= read(o, m.results, rejected) <= 1,
    ensures
        ({
            let t = reject_code(c, s, rejected, result, error);
            &&& t.log.len() == s.log.len() + 11
            &&& t.blocks == s.blocks + 2
            &&& t.cur == s.b(1)
            &&& tidy(t)
            &&& t == Code { log: t.log, slots: t.slots, blocks: t.blocks, labels: t.labels, cur: t.cur, ..s }
            &&& read(o, m.results, rejected) == 1 ==> m.comes_to(code, o, gave_error(c, o, result, error))
            &&& read(o, m.results, rejected) == 0 ==> {
                &&& m.leads_to(code, o, l)
                &&& l.at == t.log.len()
                &&& l.returned is None
                &&& l.results == m.results
                &&& l.memory == m.memory
            }
        }),
{
    let f = s.word("refused"@).word("accepted"@).i(Inst::CondBr(rejected, s.b(0), s.b(1))).at(s.b(0));
    let x = ret_unit_error_code(c, f, result, error);
    let t = x.at(s.b(1));
    ret_unit_error_stands(c, f, result, error);
    let n = s.log.len() as int;
    assert(code.log[n] == t.log[n]);
    assert(code.log[n + 1] == t.log[n + 1] && x.log[n + 1].block == f.cur);
    branches(m, code, o, rejected, s.b(0), s.b(1));
    let l = m.step(code, o);
    assert(stands(code, x));
    assert(stands(code, f));
    assert forall|i: int| 0 <= i < t.log.len() implies (#[trigger] t.log[i]).block < t.blocks && t.log[i].block
        != t.cur by {
        if i < n {
            assert(s.log[i].block < s.blocks);
            assert(x.log[i] == f.log[i]);
        } else if i == n {
            assert(x.log[i] == f.log[i]);
            assert(s.cur < s.blocks);
        } else {
            assert(x.log[i].block == f.cur);
        }
    }
    assert forall|j: int| 0 <= j < t.edges.len() implies match (#[trigger] t.edges[j]).phi {
        Val::At(p) => p < t.log.len(),
        _ => false,
    } by {
        assert(s.edges[j] == t.edges[j]);
    }
    if read(o, m.results, rejected) == 1 {
        assert forall|i: int| 0 <= i < f.log.len() implies (#[trigger] f.log[i]).block != f.cur by {
            if i < n {
                assert(s.log[i].block < s.blocks);
            }
        }
        block_begins(code, f);
        error_is_returned(c, code, o, f, l, result, error);
    } else {
        block_begins(code, t);
    }
    l
}

/// `CString.to_string` refuses a negative length first, then a null
/// pointer with a length, then bytes that the runtime says are no UTF-8.
/// Whatever it does not refuse it goes on to copy.
#[verifier::spinoff_prover]
#[verifier::rlimit(60)]
pub proof fn cstring_refusals(
    c: &EmitContext,
    o: Outside,
    memory: Memory,
    receiver: LType,
    result: IRSymbol,
    bad_length: (IRSymbol, IRVariantTag),
    null_pointer: (IRSymbol, IRVariantTag),
    bad_bytes: (IRSymbol, IRVariantTag),
)
    requires
        c.payload(result, 0) == seq![IRType::String],
        unit_error(c, result, "InvalidLength"@) == Some(bad_length),
        unit_error(c, result, "NullPointer"@) == Some(null_pointer),
        unit_error(c, result, "InvalidUTF8"@) == Some(bad_bytes),
        carries_error(c, o, result, bad_length),
        carries_error(c, o, result, null_pointer),
        carries_error(c, o, result, bad_bytes),
        slots_stand(o, to_string_code(c, start(), receiver, result)),
        0 <= (o.parts)(0, 0) <= u64::MAX,
        0 <= (o.parts)(0, 1) <= u64::MAX,
    ensures
        ({
            let code = to_string_code(c, start(), receiver, result);
            let (p, len) = ((o.parts)(0, 0), (o.parts)(0, 1));
            let answer = (o.calls)(Callee::Runtime(Rt::Utf8Validate), seq![p, len], memory);
            booted(code, memory).comes_to(
                code,
                o,
                if integer(IRType::Int64, len) < 0 {
                    gave_error(c, o, result, bad_length)
                } else if p == 0 && len != 0 {
                    gave_error(c, o, result, null_pointer)
                } else if answer.0 as u64 == 0 {
                    gave_error(c, o, result, bad_bytes)
                } else {
                    |l: Machine| l.at == 41 && l.returned is None && l.memory == answer.1
                },
            )
        }),
{
    reveal(to_string_code);
    let s = start();
    let code = to_string_code(c, s, receiver, result);
    let (p, len) = ((o.parts)(0, 0), (o.parts)(0, 1));
    let a = s.i(Inst::Extract(receiver, Val::Param(0), 0))
        .i(Inst::Extract(receiver, Val::Param(0), 1))
        .i(itest(Pred::Slt, s.v(1), num(0)));
    let n = reject_code(c, a, s.v(2), result, bad_length);
    let b = n.i(is_null(s.v(0)))
        .i(itest(Pred::Ne, s.v(1), num(0)))
        .i(Inst::Bin(BinOp::And, LType::I1, n.v(0), n.v(1)));
    let q = reject_code(c, b, n.v(2), result, null_pointer);
    let d = q.i(call(Rt::Utf8Validate, a2(s.v(0), s.v(1)))).i(itest(Pred::Eq, q.v(0), num(0)));
    let u = reject_code(c, d, q.v(1), result, bad_bytes);
    assert(code == valid_string_code(c, u, result, s.v(0), s.v(1), n.v(1)));
    rejecting_stands(c, a, s.v(2), result, bad_length);
    rejecting_stands(c, b, n.v(2), result, null_pointer);
    rejecting_stands(c, d, q.v(1), result, bad_bytes);
    valid_string_stands(c, u, result, s.v(0), s.v(1), n.v(1));
    assert(a.log.len() == 3 && n.log.len() == 14 && b.log.len() == 17 && q.log.len() == 28 && d.log.len()
        == 30 && u.log.len() == 41);
    assert(stands(code, u));
    assert(stands(code, d));
    assert(stands(code, q));
    assert(stands(code, b));
    assert(stands(code, n));
    assert(stands(code, a));
    assert(tidy(a));
    seek_finds(code.log, 0, 0, 0);
    assert(code.log[0] == a.log[0] && code.log[1] == a.log[1] && code.log[2] == a.log[2]);
    assert(code.log[3] == n.log[3]);
    assert(code.log[14] == b.log[14] && code.log[15] == b.log[15] && code.log[16] == b.log[16]);
    assert(code.log[17] == q.log[17]);
    assert(code.log[28] == d.log[28] && code.log[29] == d.log[29] && code.log[30] == u.log[30]);
    let m0 = booted(code, memory);
    extracts(m0, code, o, receiver, 0, 0);
    let m1 = m0.step(code, o);
    extracts(m1, code, o, receiver, 0, 1);
    let m2 = m1.step(code, o);
    tests(m2, code, o, Pred::Slt, LType::I64, Val::At(1), num(0));
    let m3 = m2.step(code, o);
    let m14 = refuses_or_not(c, code, o, a, m3, Val::At(2), result, bad_length);
    if integer(IRType::Int64, len) >= 0 {
        tests(m14, code, o, Pred::Eq, LType::Ptr, Val::At(0), Val::Null);
        let m15 = m14.step(code, o);
        tests(m15, code, o, Pred::Ne, LType::I64, Val::At(1), num(0));
        let m16 = m15.step(code, o);
        assert(0u64 & 0 == 0 && 0u64 & 1 == 0 && 1u64 & 0 == 0 && 1u64 & 1 == 1) by (bit_vector);
        combines(m16, code, o, BinOp::And, LType::I1, Val::At(14), Val::At(15));
        let m17 = m16.step(code, o);
        assert(read(o, m17.results, Val::At(16)) == bit(p == 0 && len != 0));
        assert(tidy(b));
        let m28 = refuses_or_not(c, code, o, b, m17, Val::At(16), result, null_pointer);
        if !(p == 0 && len != 0) {
            assert(arguments(o, m28.results, a2(Val::At(0), Val::At(1))) =~= seq![p, len]) by {
                reveal_with_fuel(arguments, 4);
            }
            calls(m28, code, o, Callee::Runtime(Rt::Utf8Validate), a2(Val::At(0), Val::At(1)));
            let m29 = m28.step(code, o);
            tests(m29, code, o, Pred::Eq, LType::I64, Val::At(28), num(0));
            let m30 = m29.step(code, o);
            assert(tidy(d));
            let m41 = refuses_or_not(c, code, o, d, m30, Val::At(29), result, bad_bytes);
            let answer = (o.calls)(Callee::Runtime(Rt::Utf8Validate), seq![p, len], memory);
            if answer.0 as u64 != 0 {
                arrives(
                    m41,
                    code,
                    o,
                    |l: Machine| l.at == 41 && l.returned is None && l.memory == answer.1,
                );
            }
        }
    }
}

proof fn rejecting_stands(
    c: &EmitContext,
    s: Code,
    rejected: Val,
    result: IRSymbol,
    error: (IRSymbol, IRVariantTag),
)
    requires
        c.payload(result, 1).len() == 1,
        !(c.payload(result, 1)[0] is Indirect),
        c.payload(error.0, error.1.0).len() == 0,
        s.log.len() + 60 <= usize::MAX,
    ensures
        ({
            let t = reject_code(c, s, rejected, result, error);
            &&& t.log.len() == s.log.len() + 11
            &&& t.blocks == s.blocks + 2
            &&& t.cur == s.b(1)
            &&& t.texts == s.texts
            &&& t.edges == s.edges
            &&& s.slots.len() <= t.slots.len() <= s.slots.len() + 11
            &&& forall|i: int| 0 <= i < s.log.len() ==> #[trigger] t.log[i] == s.log[i]
            &&& forall|i: int| 0 <= i < s.slots.len() ==> #[trigger] t.slots[i] == s.slots[i]
            &&& t.log[s.log.len() as int].block == s.cur
        }),
{
    let f = s.word("refused"@).word("accepted"@).i(Inst::CondBr(rejected, s.b(0), s.b(1))).at(s.b(0));
    ret_unit_error_stands(c, f, result, error);
    let x = ret_unit_error_code(c, f, result, error);
    assert(x.log[s.log.len() as int] == f.log[s.log.len() as int]);
    assert forall|i: int| 0 <= i < s.log.len() implies #[trigger] x.log[i] == s.log[i] by {
        assert(x.log[i] == f.log[i]);
    }
}

proof fn valid_string_stands(
    c: &EmitContext,
    s: Code,
    result: IRSymbol,
    ptr: Val,
    len: Val,
    has_bytes: Val,
)
    requires
        c.payload(result, 0) == seq![IRType::String],
        s.log.len() + 60 <= usize::MAX,
    ensures
        ({
            let t = valid_string_code(c, s, result, ptr, len, has_bytes);
            &&& t.log.len() == s.log.len() + 18
            &&& t.texts == s.texts
            &&& t.edges == s.edges
            &&& s.slots.len() <= t.slots.len() <= s.slots.len() + 7
            &&& forall|i: int| 0 <= i < s.log.len() ==> #[trigger] t.log[i] == s.log[i]
            &&& forall|i: int| 0 <= i < s.slots.len() ==> #[trigger] t.slots[i] == s.slots[i]
            &&& t.log[s.log.len() as int].block == s.cur
        }),
{
    let b = crate::intrinsics::heap_payload::nul_code(
        crate::emit::heap_layout::init_heap_block_code(
            s.i(crate::llvm::iadd(len, num(crate::emit::heap_layout::overhead(true))))
                .i(call(Rt::Malloc, a1(s.v(0))))
                .i(imul(len, num(8))),
            s.v(1),
            s.v(2),
        )
            .i(Inst::Select(LType::Ptr, has_bytes, ptr, s.v(6)))
            .i(call(Rt::Memcpy, crate::llvm::a3(s.v(6), s.v(7), len))),
        s.v(6),
        len,
    );
    assert(b.log.len() == s.log.len() + 11);
    ret_ok_stands(c, b, result, s.v(6));
    let t = crate::intrinsics::result::ret_ok_code(c, b, result, s.v(6));
    assert forall|i: int| 0 <= i <= s.log.len() implies #[trigger] t.log[i] == b.log[i] by {}
    assert forall|i: int| 0 <= i < s.log.len() implies #[trigger] t.log[i] == s.log[i] by {
        assert(t.log[i] == b.log[i]);
    }
    assert(t.log[s.log.len() as int] == b.log[s.log.len() as int]);
}

/// `String.to_cstring` refuses a string for which the runtime answers that
/// a NUL stands inside, and goes on to copy any other.
pub proof fn interior_nul_is_refused(
    c: &EmitContext,
    o: Outside,
    memory: Memory,
    result: IRSymbol,
    symbol: IRSymbol,
    error: (IRSymbol, IRVariantTag),
)
    requires
        takes_address(o),
        c.payload(result, 0) == seq![IRType::Struct(symbol)],
        unit_error(c, result, "InteriorNul"@) == Some(error),
        carries_error(c, o, result, error),
        slots_stand(o, to_cstring_code(c, start(), result, LType::Struct(symbol))),
    ensures
        ({
            let code = to_cstring_code(c, start(), result, LType::Struct(symbol));
            let answer = (o.calls)(
                Callee::Runtime(Rt::StringContainsNul),
                seq![(o.values)(Val::Param(0))],
                memory,
            );
            booted(code, memory).comes_to(
                code,
                o,
                if answer.0 as u64 != 0 {
                    gave_error(c, o, result, error)
                } else {
                    |l: Machine|
                        l.at == 16 && l.returned is None && l.memory == answer.1 && l.results[2] == bits_of(
                            o,
                            memory,
                        ) / 8
                },
            )
        }),
{
    let s = start();
    let ty = LType::Struct(symbol);
    let code = to_cstring_code(c, s, result, ty);
    let f = byte_length_code(s)
        .i(call(Rt::StringContainsNul, a1(Val::Param(0))))
        .i(itest(Pred::Ne, s.v(3), num(0)))
        .word("interior_nul"@).word("valid"@)
        .i(Inst::CondBr(s.v(4), s.b(0), s.b(1)))
        .at(s.b(0));
    let x = ret_unit_error_code(c, f, result, error);
    let e = x.at(s.b(1));
    ret_unit_error_stands(c, f, result, error);
    assert(code == cstring_success_code(c, e, result, ty, s.v(2)));
    let b = crate::intrinsics::heap_payload::nul_code(
        e.i(crate::llvm::iadd(s.v(2), num(1)))
            .i(call(Rt::Malloc, a1(e.v(0))))
            .i(call(Rt::Memcpy, crate::llvm::a3(e.v(1), Val::Param(0), s.v(2)))),
        e.v(1),
        s.v(2),
    );
    let g = b.i(Inst::Alloca(ty))
        .i(Inst::Field(ty, b.v(0), 0))
        .i(Inst::Store(LType::Ptr, e.v(1), b.v(1)))
        .i(Inst::Field(ty, b.v(0), 1))
        .i(Inst::Store(LType::I64, s.v(2), b.v(3)))
        .i(Inst::Load(ty, b.v(0)));
    ret_ok_stands(c, g, result, b.v(5));
    assert(e.log.len() == 16 && g.log.len() == 27);
    assert(code == crate::intrinsics::result::ret_ok_code(c, g, result, b.v(5)));
    assert(stands(code, g));
    assert(stands(code, e));
    assert(stands(code, x));
    assert(stands(code, f));
    assert(code.log[16] == g.log[16]);
    seek_finds(code.log, 0, 0, 0);
    assert(code.log[0] == f.log[0] && code.log[1] == f.log[1] && code.log[2] == f.log[2] && code.log[3]
        == f.log[3] && code.log[4] == f.log[4] && code.log[5] == f.log[5]);
    let m2 = length_is_loaded(code, o, booted(code, memory));
    combines(m2, code, o, BinOp::LShr, LType::I64, Val::At(1), num(3));
    shift_divides(bits_of(o, memory) as u64);
    let m3 = m2.step(code, o);
    assert(arguments(o, m3.results, a1(Val::Param(0))) =~= seq![(o.values)(Val::Param(0))]) by {
        reveal_with_fuel(arguments, 3);
    }
    calls(m3, code, o, Callee::Runtime(Rt::StringContainsNul), a1(Val::Param(0)));
    let m4 = m3.step(code, o);
    tests(m4, code, o, Pred::Ne, LType::I64, Val::At(3), num(0));
    let m5 = m4.step(code, o);
    branches(m5, code, o, Val::At(4), 1, 2);
    let m6 = m5.step(code, o);
    let answer = (o.calls)(
        Callee::Runtime(Rt::StringContainsNul),
        seq![(o.values)(Val::Param(0))],
        memory,
    );
    if answer.0 as u64 != 0 {
        assert(code.log[6] == x.log[6] && x.log[6].block == f.cur);
        block_begins(code, f);
        error_is_returned(c, code, o, f, m6, result, error);
    } else {
        assert forall|i: int| 0 <= i < e.log.len() implies (#[trigger] e.log[i]).block != e.cur by {
            if i >= f.log.len() {
                assert(x.log[i].block == f.cur);
            }
        }
        block_begins(code, e);
        arrives(
            m6,
            code,
            o,
            |l: Machine|
                l.at == 16 && l.returned is None && l.memory == answer.1 && l.results[2] == bits_of(o, memory)
                    / 8,
        );
    }
}

/// `CPtr.alloc` panics on a negative count, gives back null for no bytes,
/// and otherwise what `malloc` hands out for so many elements.
pub proof fn alloc_asks_for_the_elements(o: Outside, memory: Memory, inner: IRType)
    requires
        0 <= (o.values)(Val::Param(0)) <= u64::MAX,
        byte_count(o, value_type(inner)) <= u64::MAX,
        (o.values)(Val::Param(0)) * byte_count(o, value_type(inner)) <= u64::MAX,
    ensures
        ({
            let code = alloc_code(start(), inner);
            let count = (o.values)(Val::Param(0));
            let bytes = count * byte_count(o, value_type(inner));
            if integer(IRType::Int64, count) < 0 {
                booted(code, memory).comes_to(
                    code,
                    o,
                    panics_with(code, "CPtr.alloc count cannot be negative"@),
                )
            } else {
                booted(code, memory).gives_back(
                    code,
                    o,
                    if bytes == 0 {
                        0
                    } else {
                        (o.calls)(Callee::Runtime(Rt::Malloc), seq![bytes], memory).0
                    },
                )
            }
        }),
{
    let s = start();
    let code = alloc_code(s, inner);
    let message = "CPtr.alloc count cannot be negative"@;
    let a = s.i(itest(Pred::Slt, Val::Param(0), num(0)));
    let g = fault_guard_code(a, s.v(0), message);
    let k = g.i(imul(Val::Param(0), Val::SizeOf(value_type(inner))));
    let z = null_if_empty_code(k, g.v(0));
    assert(code == z.i(call(Rt::Malloc, a1(g.v(0)))).i(Inst::Ret(LType::Ptr, z.v(0))));
    let count = (o.values)(Val::Param(0));
    let size = byte_count(o, value_type(inner)) as int;
    assert(stands(code, g));
    seek_finds(code.log, 0, 0, 0);
    let m0 = booted(code, memory);
    tests(m0, code, o, Pred::Slt, LType::I64, Val::Param(0), num(0));
    let m1 = m0.step(code, o);
    assert(tidy(a));
    assert(about_to(m1, code, a, g));
    let m4 = guard_panics_or_not(m1, code, o, a, s.v(0), message);
    if integer(IRType::Int64, count) >= 0 {
        assert(0 <= count * size) by (nonlinear_arith)
            requires
                0 <= count,
                0 <= size,
        ;
        multiplies(m4, code, o, Val::Param(0), Val::SizeOf(value_type(inner)));
        let m5 = m4.step(code, o);
        tests(m5, code, o, Pred::Eq, LType::I64, Val::At(4), num(0));
        let m6 = m5.step(code, o);
        branches(m6, code, o, Val::At(5), 3, 4);
        let m7 = m6.step(code, o);
        seek_finds(code.log, 3, 0, 7);
        seek_finds(code.log, 4, 0, 8);
        if count * size == 0 {
            finishes(m7, code, o, LType::Ptr, Val::Null);
        } else {
            assert(arguments(o, m7.results, a1(Val::At(4))) =~= seq![count * size]) by {
                reveal_with_fuel(arguments, 3);
            }
            calls(m7, code, o, Callee::Runtime(Rt::Malloc), a1(Val::At(4)));
            finishes(m7.step(code, o), code, o, LType::Ptr, Val::At(8));
        }
    }
}

} // verus!
