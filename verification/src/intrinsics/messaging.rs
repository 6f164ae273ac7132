//! What goes through the mailboxes.
//!
//! An envelope is a message and, behind it, a reply slot of three words:
//! the tag word (zero where there is a `ReplyTo`), the pid that the reply
//! goes to and the token that the caller waits on.

use vstd::prelude::*;
use crate::ctx::EmitContext;
use crate::emit::enums::enum_value_code;
use crate::emit::variants::{
    builds, enum_value_runs, field_is_put, gave_variant, is_variant, lies_in, operands, parts_of_number,
    stored_parts,
};
use crate::intrinsics::outcomes::{
    carries_error, error_code, error_is_built, error_stands, is_error, single_stands, unit_stands,
};
use crate::intrinsics::process::{
    alive_code, call_code, call_send_code, cast_code, delivery, drop_glue_code, envelope_code, kill_code,
    owned_payload, reply_send_code, reply_slot_code, self_ref_code, send_after_code, serialize_code,
    signal_code,
};
use crate::ir::{IRSymbol, IRType, IRVariantTag};
use crate::llvm::{
    a0, a1, a2, a4, a5, call, itest, num, start, Args, Callee, CastOp, Code, Edge, Inst, LType, Pred, Val,
};
use crate::memory::{
    byte, byte_limit, byte_limit_is_power, in_memory, number, number_and_last_byte, store_is_read_back,
    store_spares_others, stored, with_byte, Memory,
};
use crate::runtime::Rt;
use crate::semantics::{
    arguments, arrives, bit, booted, branches, byte_count, bytes_of, calls, converts, ends, extracts,
    finishes, incoming, incoming_finds, inserted, inserts, jumps, loads, read, seek_finds, slots_stand,
    stands, stores, takes, tests, Machine, Outside,
};
use crate::types::value_type;

verus! {

/// An envelope is laid out: three words behind the message.
pub open spec fn envelope_fits(o: Outside, message_ty: IRType) -> bool {
    let ty = LType::Envelope(message_ty);
    &&& byte_count(o, LType::Words(3)) == 24
    &&& forall|k: usize| k < 3 ==> #[trigger] (o.offsets)(LType::Words(3), k) == 8 * k
    &&& 0 <= (o.offsets)(ty, 0)
    &&& (o.offsets)(ty, 0) + byte_count(o, value_type(message_ty)) <= (o.offsets)(ty, 1)
    &&& (o.offsets)(ty, 1) + 24 <= byte_count(o, ty)
    &&& byte_count(o, ty) <= u64::MAX
}

/// An envelope in memory: the message, and the three words of its reply
/// slot.
pub open spec fn holds_envelope(
    o: Outside,
    memory: Memory,
    p: int,
    message_ty: IRType,
    message: int,
    tag: int,
    pid: int,
    token: int,
) -> bool {
    let ty = LType::Envelope(message_ty);
    let slot = p + (o.offsets)(ty, 1);
    &&& number(memory, p + (o.offsets)(ty, 0), byte_count(o, value_type(message_ty))) == message
    &&& number(memory, slot, 8) == tag
    &&& number(memory, slot + 8, 8) == pid
    &&& number(memory, slot + 16, 8) == token
}

/// Three words, one behind the other.
spec fn three_words(x: int, a: int, b: int, c: int) -> bool {
    &&& 0 <= x < byte_limit(24)
    &&& number(bytes_of(x, 24), 0, 8) == a
    &&& number(bytes_of(x, 24), 8, 8) == b
    &&& number(bytes_of(x, 24), 16, 8) == c
}

proof fn words_limit()
    ensures
        byte_limit(8) == 0x1_0000_0000_0000_0000,
        byte_limit(16) == 0x1_0000_0000_0000_0000 * 0x1_0000_0000_0000_0000,
        byte_limit(24) == 0x1_0000_0000_0000_0000 * 0x1_0000_0000_0000_0000 * 0x1_0000_0000_0000_0000,
{
    byte_limit_is_power(8);
    byte_limit_is_power(16);
    byte_limit_is_power(24);
    vstd::arithmetic::power2::lemma2_to64();
    vstd::arithmetic::power2::lemma_pow2_adds(64, 64);
    vstd::arithmetic::power2::lemma_pow2_adds(128, 64);
}

proof fn slot_is_three_words(o: Outside, x: int, tag: int, pid: int, token: int)
    requires
        byte_count(o, LType::Words(3)) == 24,
        forall|k: usize| k < 3 ==> #[trigger] (o.offsets)(LType::Words(3), k) == 8 * k,
        0 <= tag <= u64::MAX,
        0 <= pid <= u64::MAX,
        0 <= token <= u64::MAX,
    ensures
        ({
            let ty = LType::Words(3);
            let a = inserted(o, ty, x, LType::I64, tag, 0);
            let b = inserted(o, ty, a, LType::I64, pid, 1);
            three_words(inserted(o, ty, b, LType::I64, token, 2), tag, pid, token)
        }),
{
    words_limit();
    let ty = LType::Words(3);
    let a = inserted(o, ty, x, LType::I64, tag, 0);
    let b = inserted(o, ty, a, LType::I64, pid, 1);
    assert((o.offsets)(ty, 0) == 0 && (o.offsets)(ty, 1) == 8 && (o.offsets)(ty, 2) == 16);
    field_is_put(o, ty, x, LType::I64, tag, 0, 0, 8);
    field_is_put(o, ty, a, LType::I64, pid, 1, 0, 8);
    field_is_put(o, ty, a, LType::I64, pid, 1, 8, 8);
    field_is_put(o, ty, b, LType::I64, token, 2, 0, 8);
    field_is_put(o, ty, b, LType::I64, token, 2, 8, 8);
    field_is_put(o, ty, b, LType::I64, token, 2, 16, 8);
}

/// The code of an envelope is about to run.
spec fn envelope_stands(code: Code, o: Outside, s: Code, m: Machine, message_ty: IRType, message: Val, reply: Val) -> bool {
    let t = envelope_code(s, message_ty, message, reply);
    &&& stands(code, t)
    &&& t.log.len() < code.log.len()
    &&& code.log[t.log.len() as int].block == s.cur
    &&& m.at == s.log.len()
    &&& m.returned is None
    &&& in_memory((o.values)(s.sv(0)), byte_count(o, LType::Envelope(message_ty)) as int)
    &&& envelope_fits(o, message_ty)
    &&& 0 <= read(o, m.results, message) < byte_limit(byte_count(o, value_type(message_ty)))
    &&& message is Param
    &&& reply matches Val::At(k) ==> k < s.log.len()
}

proof fn envelope_runs(
    code: Code,
    o: Outside,
    s: Code,
    m: Machine,
    message_ty: IRType,
    message: Val,
    reply: Val,
    tag: int,
    pid: int,
    token: int,
) -> (l: Machine)
    requires
        envelope_stands(code, o, s, m, message_ty, message, reply),
        three_words(read(o, m.results, reply), tag, pid, token),
    ensures
        m.leads_to(code, o, l),
        l.at == s.log.len() + 3,
        l.returned is None,
        forall|k: usize| k < s.log.len() ==> #[trigger] l.results[k] == m.results[k],
        holds_envelope(
            o,
            l.memory,
            (o.values)(s.sv(0)),
            message_ty,
            read(o, m.results, message),
            tag,
            pid,
            token,
        ),
{
    let ty = LType::Envelope(message_ty);
    let n = s.log.len() as int;
    let t = envelope_code(s, message_ty, message, reply);
    let mt = value_type(message_ty);
    let (x, w) = (read(o, m.results, message), read(o, m.results, reply));
    let p = (o.values)(s.sv(0));
    assert(code.log[n] == t.log[n] && code.log[n + 1] == t.log[n + 1] && code.log[n + 2] == t.log[n + 2]);
    inserts(m, code, o, ty, Val::Undef, mt, message, 0);
    let m1 = m.step(code, o);
    inserts(m1, code, o, ty, s.v(0), LType::Words(3), reply, 1);
    let m2 = m1.step(code, o);
    stores(m2, code, o, ty, s.v(1), s.sv(0));
    let l = m2.step(code, o);
    let a = inserted(o, ty, (o.values)(Val::Undef), mt, x, 0);
    let b = inserted(o, ty, a, LType::Words(3), w, 1);
    let size = byte_count(o, ty);
    let (f, g) = ((o.offsets)(ty, 0), (o.offsets)(ty, 1));
    let wide = byte_count(o, mt);
    assert(l.memory == stored(m.memory, p, b, size));
    words_limit();
    field_is_put(o, ty, (o.values)(Val::Undef), mt, x, 0, f, wide);
    field_is_put(o, ty, a, LType::Words(3), w, 1, g, 24);
    if g == f && wide == 24 {
    } else {
        field_is_put(o, ty, a, LType::Words(3), w, 1, f, wide);
    }
    stored_parts(m.memory, p, b, size, f, wide);
    stored_parts(m.memory, p, b, size, g, 24);
    parts_of_number(l.memory, p + g, 24, 0, 8);
    parts_of_number(l.memory, p + g, 24, 8, 8);
    parts_of_number(l.memory, p + g, 24, 16, 8);
    l
}

/// A run has come to a call with these arguments.
pub open spec fn calling(code: Code, o: Outside, rt: Rt, given: Seq<int>, before: spec_fn(Memory) -> bool) -> spec_fn(
    Machine,
) -> bool {
    |l: Machine|
        {
            &&& l.at < code.log.len()
            &&& l.returned is None
            &&& before(l.memory)
            &&& code.log[l.at as int].inst matches Inst::Call(callee, args) && callee
                == Callee::Runtime(rt) && arguments(o, l.results, args) == given
        }
}

/// What goes to the runtime as the drop glue of a payload.
pub open spec fn glue_given(c: &EmitContext, o: Outside, ty: IRType) -> int {
    if owned_payload(c, ty) {
        (o.values)(Val::Shim(ty))
    } else {
        0
    }
}

/// The running process, as the runtime answers.
pub open spec fn own_pid(o: Outside, memory: Memory) -> (int, Memory) {
    (o.calls)(Callee::Runtime(Rt::RtSelf), seq![], memory)
}

/// A token of a call, as the runtime answers.
pub open spec fn new_token(o: Outside, memory: Memory) -> (int, Memory) {
    (o.calls)(Callee::Runtime(Rt::RtCallToken), seq![], own_pid(o, memory).1)
}

/// A call can be made: its envelope is laid out and what the runtime
/// answers are words.
pub open spec fn can_call(c: &EmitContext, o: Outside, memory: Memory, message_ty: IRType, reply_ty: IRType) -> bool {
    &&& envelope_fits(o, message_ty)
    &&& in_memory((o.values)(Val::Slot(0)), byte_count(o, LType::Envelope(message_ty)) as int)
    &&& 0 <= (o.values)(Val::Param(1)) < byte_limit(byte_count(o, value_type(message_ty)))
    &&& 0 <= own_pid(o, memory).0 <= u64::MAX
    &&& 0 <= new_token(o, memory).0 <= u64::MAX
}

/// The state in which a call hands its envelope to the runtime.
spec fn sending(c: &EmitContext, code: Code, o: Outside, memory: Memory, message_ty: IRType, l: Machine) -> bool {
    &&& l.at == 9
    &&& l.returned is None
    &&& l.results[0] == (o.parts)(0, 0)
    &&& l.results[2] == new_token(o, memory).0
    &&& holds_envelope(
        o,
        l.memory,
        (o.values)(Val::Slot(0)),
        message_ty,
        (o.values)(Val::Param(1)),
        0,
        own_pid(o, memory).0,
        new_token(o, memory).0,
    )
}

proof fn call_reaches_send(
    c: &EmitContext,
    code: Code,
    o: Outside,
    memory: Memory,
    receiver: LType,
    message_ty: IRType,
    reply_ty: IRType,
) -> (l: Machine)
    requires
        stands(code, call_send_code(c, start(), receiver, message_ty, reply_ty)),
        11 < code.log.len(),
        can_call(c, o, memory, message_ty, reply_ty),
    ensures
        booted(code, memory).leads_to(code, o, l),
        sending(c, code, o, memory, message_ty, l),
{
    let s = start();
    let w = call_send_code(c, s, receiver, message_ty, reply_ty);
    let t = s.i(Inst::Extract(receiver, Val::Param(0), 0))
        .i(call(Rt::RtSelf, a0()))
        .i(call(Rt::RtCallToken, a0()));
    let r = reply_slot_code(t, s.v(1), s.v(2));
    let e = envelope_code(r, message_ty, Val::Param(1), s.v(5));
    assert forall|i: int| 0 <= i < 11 implies #[trigger] code.log[i] == w.log[i] by {}
    assert(w.log.len() == 11);
    assert(forall|i: int| 0 <= i < 9 ==> #[trigger] w.log[i] == e.log[i]);
    seek_finds(code.log, 0, 0, 0);
    let m0 = booted(code, memory);
    extracts(m0, code, o, receiver, 0, 0);
    let m1 = m0.step(code, o);
    assert(arguments(o, m1.results, a0()) =~= seq![]);
    calls(m1, code, o, Callee::Runtime(Rt::RtSelf), a0());
    let m2 = m1.step(code, o);
    assert(arguments(o, m2.results, a0()) =~= seq![]);
    calls(m2, code, o, Callee::Runtime(Rt::RtCallToken), a0());
    let m3 = m2.step(code, o);
    let (pid, token) = (own_pid(o, memory).0, new_token(o, memory).0);
    inserts(m3, code, o, LType::Words(3), Val::Undef, LType::I64, num(0), 0);
    let m4 = m3.step(code, o);
    inserts(m4, code, o, LType::Words(3), Val::At(3), LType::I64, Val::At(1), 1);
    let m5 = m4.step(code, o);
    inserts(m5, code, o, LType::Words(3), Val::At(4), LType::I64, Val::At(2), 2);
    let m6 = m5.step(code, o);
    slot_is_three_words(o, (o.values)(Val::Undef), 0, pid, token);
    assert(three_words(read(o, m6.results, Val::At(5)), 0, pid, token));
    assert(stands(code, e));
    envelope_runs(code, o, r, m6, message_ty, Val::Param(1), Val::At(5), 0, pid, token)
}

/// A call hands the runtime an envelope for the receiver. Behind the
/// message it holds the tag word of `Some`, the caller's pid and the
/// call's token, each as the runtime answered.
pub proof fn call_sends_the_reply_slot(
    c: &EmitContext,
    code: Code,
    o: Outside,
    memory: Memory,
    receiver: LType,
    message_ty: IRType,
    reply_ty: IRType,
)
    requires
        stands(code, call_send_code(c, start(), receiver, message_ty, reply_ty)),
        11 < code.log.len(),
        can_call(c, o, memory, message_ty, reply_ty),
    ensures
        booted(code, memory).comes_to(
            code,
            o,
            calling(
                code,
                o,
                Rt::RtSend,
                seq![
                    (o.parts)(0, 0),
                    (o.values)(Val::Slot(0)),
                    c.abi(LType::Envelope(message_ty)) as int,
                    glue_given(c, o, message_ty),
                ],
                |sent: Memory|
                    holds_envelope(
                        o,
                        sent,
                        (o.values)(Val::Slot(0)),
                        message_ty,
                        (o.values)(Val::Param(1)),
                        0,
                        own_pid(o, memory).0,
                        new_token(o, memory).0,
                    ),
            ),
        ),
{
    let given = seq![
        (o.parts)(0, 0),
        (o.values)(Val::Slot(0)),
        c.abi(LType::Envelope(message_ty)) as int,
        glue_given(c, o, message_ty),
    ];
    let w = call_send_code(c, start(), receiver, message_ty, reply_ty);
    let l = call_reaches_send(c, code, o, memory, receiver, message_ty, reply_ty);
    assert(code.log[9] == w.log[9]);
    if let Inst::Call(callee, args) = code.log[9].inst {
        reveal_with_fuel(arguments, 6);
        assert(arguments(o, l.results, args) =~= given);
    }
    let goal = calling(
        code,
        o,
        Rt::RtSend,
        given,
        |sent: Memory|
            holds_envelope(
                o,
                sent,
                (o.values)(Val::Slot(0)),
                message_ty,
                (o.values)(Val::Param(1)),
                0,
                own_pid(o, memory).0,
                new_token(o, memory).0,
            ),
    );
    arrives(l, code, o, goal);
}

/// What the runtime answers to the wait on a call's token: a status, and
/// memory with the reply.
pub open spec fn awaited(c: &EmitContext, o: Outside, memory: Memory, reply_ty: IRType, sent: Memory) -> (
    int,
    Memory,
) {
    (o.calls)(
        Callee::Runtime(Rt::RtCallReceive),
        seq![
            new_token(o, memory).0,
            (o.values)(Val::Slot(1)),
            c.abi(value_type(reply_ty)) as int,
            (o.values)(Val::Param(2)),
        ],
        sent,
    )
}

/// What a call comes back to: the wait on its token.
spec fn waiting(c: &EmitContext, o: Outside, memory: Memory, reply_ty: IRType, sent: Memory, l: Machine) -> bool {
    &&& l.at == 11
    &&& l.returned is None
    &&& l.results[0] == (o.parts)(0, 0)
    &&& (l.results[10usize], l.memory) == awaited(c, o, memory, reply_ty, sent)
}

/// What a call gives the runtime to send.
pub open spec fn sent_with(c: &EmitContext, o: Outside, message_ty: IRType) -> Seq<int> {
    seq![
        (o.parts)(0, 0),
        (o.values)(Val::Slot(0)),
        c.abi(LType::Envelope(message_ty)) as int,
        glue_given(c, o, message_ty),
    ]
}

/// Memory as the runtime left it when it had sent the envelope of a call.
pub open spec fn was_sent(c: &EmitContext, o: Outside, memory: Memory, message_ty: IRType, sent: Memory) -> bool {
    exists|m: Memory|
        {
            &&& sent == (#[trigger] (o.calls)(
                Callee::Runtime(Rt::RtSend),
                sent_with(c, o, message_ty),
                m,
            )).1
            &&& holds_envelope(
                o,
                m,
                (o.values)(Val::Slot(0)),
                message_ty,
                (o.values)(Val::Param(1)),
                0,
                own_pid(o, memory).0,
                new_token(o, memory).0,
            )
        }
}

proof fn call_waits(
    c: &EmitContext,
    code: Code,
    o: Outside,
    memory: Memory,
    receiver: LType,
    message_ty: IRType,
    reply_ty: IRType,
) -> (r: (Machine, Memory))
    requires
        stands(code, call_send_code(c, start(), receiver, message_ty, reply_ty)),
        11 < code.log.len(),
        code.log[11].block == 0,
        can_call(c, o, memory, message_ty, reply_ty),
    ensures
        booted(code, memory).leads_to(code, o, r.0),
        waiting(c, o, memory, reply_ty, r.1, r.0),
        was_sent(c, o, memory, message_ty, r.1),
{
    let w = call_send_code(c, start(), receiver, message_ty, reply_ty);
    let m9 = call_reaches_send(c, code, o, memory, receiver, message_ty, reply_ty);
    assert(code.log[9] == w.log[9] && code.log[10] == w.log[10]);
    let (callee, args) = match code.log[9].inst {
        Inst::Call(callee, args) => (callee, args),
        _ => (Callee::Function(0), Args::Nil),
    };
    calls(m9, code, o, callee, args);
    let m10 = m9.step(code, o);
    let wait = a4(
        Val::At(2),
        Val::Slot(1),
        num(c.abi(value_type(reply_ty))),
        Val::Param(2),
    );
    assert(code.log[10].inst == call(Rt::RtCallReceive, wait));
    calls(m10, code, o, Callee::Runtime(Rt::RtCallReceive), wait);
    let given = seq![
        new_token(o, memory).0,
        (o.values)(Val::Slot(1)),
        c.abi(value_type(reply_ty)) as int,
        (o.values)(Val::Param(2)),
    ];
    reveal_with_fuel(arguments, 6);
    assert(arguments(o, m10.results, wait) =~= given);
    assert(arguments(o, m9.results, args) =~= sent_with(c, o, message_ty));
    assert(m10.memory == (o.calls)(
        Callee::Runtime(Rt::RtSend),
        sent_with(c, o, message_ty),
        m9.memory,
    ).1);
    (m10.step(code, o), m10.memory)
}

/// What the call error enum and the result of a call are laid out as.
pub open spec fn call_fits(
    c: &EmitContext,
    o: Outside,
    reply_ty: IRType,
    result: IRSymbol,
    call_error: IRSymbol,
) -> bool {
    &&& c.payload(result, 0) == seq![reply_ty]
    &&& !(reply_ty is Indirect)
    &&& lies_in(c, o, result, 0)
    &&& carries_error(c, o, result, (call_error, IRVariantTag(0)))
    &&& carries_error(c, o, result, (call_error, IRVariantTag(1)))
}

/// How a call ends: with the reply where the runtime answers with one.
/// Where it answers `-1`, the call is a timeout if the receiver is alive,
/// and the receiver is down if it is not.
pub open spec fn call_ends(
    c: &EmitContext,
    o: Outside,
    memory: Memory,
    message_ty: IRType,
    reply_ty: IRType,
    result: IRSymbol,
    call_error: IRSymbol,
) -> spec_fn(Machine) -> bool {
    |l: Machine|
        l.returned matches Some(x) && exists|sent: Memory|
            {
                let (status, after) = #[trigger] awaited(c, o, memory, reply_ty, sent);
                let alive = (o.calls)(Callee::Runtime(Rt::RtIsProcessAlive), seq![(o.parts)(0, 0)], after).0;
                &&& was_sent(c, o, memory, message_ty, sent)
                &&& if status as u64 != 0xffff_ffff_ffff_ffff {
                    is_variant(
                        c,
                        o,
                        result,
                        x,
                        0,
                        seq![
                            number(after, (o.values)(Val::Slot(1)), byte_count(o, value_type(reply_ty))),
                        ],
                    )
                } else if alive as u64 != 0 {
                    is_error(c, o, result, x, (call_error, IRVariantTag(0)))
                } else {
                    is_error(c, o, result, x, (call_error, IRVariantTag(1)))
                }
            }
}

/// The pieces of a call, one behind the other.
spec fn call_pieces(
    c: &EmitContext,
    receiver: LType,
    message_ty: IRType,
    reply_ty: IRType,
    result: IRSymbol,
    call_error: IRSymbol,
) -> (Code, Code, Code, Code, Code) {
    let s = start();
    let w = call_send_code(c, s, receiver, message_ty, reply_ty);
    let a = w
        .word("call_timeout_check"@)
        .word("call_got_reply"@)
        .word("call_build_timeout"@)
        .word("call_build_down"@)
        .word("call_merge"@)
        .i(itest(Pred::Eq, s.v(10), num(0xffff_ffff_ffff_ffff)))
        .i(Inst::CondBr(w.v(0), w.b(0), w.b(1)))
        .at(w.b(0));
    let b = a.i(call(Rt::RtIsProcessAlive, a1(s.v(0))))
        .i(itest(Pred::Ne, w.v(2), num(0)))
        .i(Inst::CondBr(w.v(3), w.b(2), w.b(3)))
        .at(w.b(2));
    let d = error_code(c, b, result, (call_error, IRVariantTag(0))).0.i(Inst::Br(w.b(4))).at(w.b(3));
    let e = error_code(c, d, result, (call_error, IRVariantTag(1))).0.i(Inst::Br(w.b(4))).at(w.b(1));
    let l = e.i(Inst::Load(value_type(reply_ty), s.sv(1)));
    let j = enum_value_code(c, l, result, IRVariantTag(0), seq![e.v(0)]).0.i(Inst::Br(w.b(4))).at(w.b(4));
    (a, b, d, e, j)
}

proof fn call_is_made_of_pieces(
    c: &EmitContext,
    o: Outside,
    receiver: LType,
    message_ty: IRType,
    reply_ty: IRType,
    result: IRSymbol,
    call_error: IRSymbol,
)
    requires
        call_fits(c, o, reply_ty, result, call_error),
    ensures
        ({
            let code = call_code(c, start(), receiver, message_ty, reply_ty, result, call_error);
            let (a, b, d, e, j) = call_pieces(c, receiver, message_ty, reply_ty, result, call_error);
            let w = call_send_code(c, start(), receiver, message_ty, reply_ty);
            let phi = Val::At(44);
            &&& stands(code, w) && stands(code, a) && stands(code, b) && stands(code, d) && stands(code, e)
            &&& stands(code, j)
            &&& stands(code, error_code(c, b, result, (call_error, IRVariantTag(0))).0)
            &&& stands(code, error_code(c, d, result, (call_error, IRVariantTag(1))).0)
            &&& a.log.len() == 13 && b.log.len() == 16 && d.log.len() == 26 && e.log.len() == 36
            &&& j.log.len() == 44
            &&& a.cur == 1 && b.cur == 3 && d.cur == 4 && e.cur == 2 && j.cur == 5
            &&& code.log.len() == 46
            &&& code.edges =~= seq![
                Edge { phi: phi, value: Val::At(24), from: 3 },
                Edge { phi: phi, value: Val::At(34), from: 4 },
                Edge { phi: phi, value: Val::At(42), from: 2 },
            ]
            &&& forall|i: int| 0 <= i < 13 ==> (#[trigger] code.log[i]).block == 0
            &&& forall|i: int| 13 <= i < 16 ==> (#[trigger] code.log[i]).block == 1
            &&& forall|i: int| 16 <= i < 26 ==> (#[trigger] code.log[i]).block == 3
            &&& forall|i: int| 26 <= i < 36 ==> (#[trigger] code.log[i]).block == 4
            &&& forall|i: int| 36 <= i < 44 ==> (#[trigger] code.log[i]).block == 2
            &&& forall|i: int| 44 <= i < 46 ==> (#[trigger] code.log[i]).block == 5
            &&& code.log[11].inst == itest(Pred::Eq, Val::At(10), num(0xffff_ffff_ffff_ffff))
            &&& code.log[12].inst == Inst::CondBr(Val::At(11), 1, 2)
            &&& code.log[13].inst == call(Rt::RtIsProcessAlive, a1(Val::At(0)))
            &&& code.log[14].inst == itest(Pred::Ne, Val::At(13), num(0))
            &&& code.log[15].inst == Inst::CondBr(Val::At(14), 3, 4)
            &&& code.log[25].inst == Inst::Br(5)
            &&& code.log[35].inst == Inst::Br(5)
            &&& code.log[36].inst == Inst::Load(value_type(reply_ty), Val::Slot(1))
            &&& code.log[43].inst == Inst::Br(5)
            &&& code.log[44].inst == Inst::Phi(LType::Enum(result))
            &&& code.log[45].inst == Inst::Ret(LType::Enum(result), phi)
            &&& stands(
                code,
                enum_value_code(
                    c,
                    e.i(Inst::Load(value_type(reply_ty), Val::Slot(1))),
                    result,
                    IRVariantTag(0),
                    seq![Val::At(36)],
                ).0,
            )
        }),
{
    let s = start();
    let w = call_send_code(c, s, receiver, message_ty, reply_ty);
    let code = call_code(c, s, receiver, message_ty, reply_ty, result, call_error);
    let (a, b, d, e, j) = call_pieces(c, receiver, message_ty, reply_ty, result, call_error);
    assert(w.log.len() == 11 && w.blocks == 1 && w.cur == 0);
    assert(w.slots =~= seq![LType::Envelope(message_ty), value_type(reply_ty)]);
    assert(forall|i: int| 0 <= i < 11 ==> (#[trigger] w.log[i]).block == 0);
    error_stands(c, b, result, (call_error, IRVariantTag(0)));
    error_stands(c, d, result, (call_error, IRVariantTag(1)));
    let l = e.i(Inst::Load(value_type(reply_ty), s.sv(1)));
    single_stands(c, l, result, 0, e.v(0));
    assert(code == j.i(Inst::Phi(LType::Enum(result)))
        .edge(j.v(0), Val::At(24), w.b(2))
        .edge(j.v(0), Val::At(34), w.b(3))
        .edge(j.v(0), Val::At(42), w.b(1))
        .i(Inst::Ret(LType::Enum(result), j.v(0))));
    assert(stands(code, j));
    assert(stands(code, e));
    assert(stands(code, d));
    assert(stands(code, b));
    assert(stands(code, a));
    assert(stands(code, w));
}

/// A call gives back the reply that the runtime put where it was told to,
/// or says why there is none.
#[verifier::spinoff_prover]
#[verifier::rlimit(40)]
pub proof fn call_gives_the_reply(
    c: &EmitContext,
    o: Outside,
    memory: Memory,
    receiver: LType,
    message_ty: IRType,
    reply_ty: IRType,
    result: IRSymbol,
    call_error: IRSymbol,
)
    requires
        can_call(c, o, memory, message_ty, reply_ty),
        call_fits(c, o, reply_ty, result, call_error),
        slots_stand(
            o,
            call_code(c, start(), receiver, message_ty, reply_ty, result, call_error),
        ),
    ensures
        ({
            let code = call_code(c, start(), receiver, message_ty, reply_ty, result, call_error);
            booted(code, memory).comes_to(
                code,
                o,
                call_ends(c, o, memory, message_ty, reply_ty, result, call_error),
            )
        }),
{
    let s = start();
    let code = call_code(c, s, receiver, message_ty, reply_ty, result, call_error);
    let goal = call_ends(c, o, memory, message_ty, reply_ty, result, call_error);
    let (a, b, d, e, j) = call_pieces(c, receiver, message_ty, reply_ty, result, call_error);
    call_is_made_of_pieces(c, o, receiver, message_ty, reply_ty, result, call_error);
    let (m11, sent) = call_waits(c, code, o, memory, receiver, message_ty, reply_ty);
    let (status, after) = awaited(c, o, memory, reply_ty, sent);
    tests(m11, code, o, Pred::Eq, LType::I64, Val::At(10), num(0xffff_ffff_ffff_ffff));
    let m12 = m11.step(code, o);
    branches(m12, code, o, Val::At(11), 1, 2);
    let m13 = m12.step(code, o);
    seek_finds(code.log, 1, 0, 13);
    seek_finds(code.log, 3, 0, 16);
    seek_finds(code.log, 4, 0, 26);
    seek_finds(code.log, 2, 0, 36);
    seek_finds(code.log, 5, 0, 44);
    let joined = if status as u64 != 0xffff_ffff_ffff_ffff {
        loads(m13, code, o, value_type(reply_ty), Val::Slot(1));
        let m = m13.step(code, o);
        let l = e.i(Inst::Load(value_type(reply_ty), Val::Slot(1)));
        number_and_last_byte(
            after,
            (o.values)(Val::Slot(1)),
            byte_count(o, value_type(reply_ty)),
        );
        let vals = seq![Val::At(36)];
        let t = enum_value_code(c, l, result, IRVariantTag(0), vals).0;
        single_stands(c, l, result, 0, Val::At(36));
        assert(code.slots[l.slots.len() as int] == t.slots[l.slots.len() as int]);
        assert(builds(c, code, o, l, m, result, IRVariantTag(0), vals));
        let k = enum_value_runs(c, code, o, l, m, result, IRVariantTag(0), vals);
        assert(operands(o, m.results, vals) =~= seq![
            number(after, (o.values)(Val::Slot(1)), byte_count(o, value_type(reply_ty))),
        ]);
        jumps(k, code, o, 5);
        let n = k.step(code, o);
        incoming_finds(code.edges, Val::At(44), 2, 2);
        n
    } else {
        assert(arguments(o, m13.results, a1(Val::At(0))) =~= seq![(o.parts)(0, 0)]) by {
            reveal_with_fuel(arguments, 3);
        }
        calls(m13, code, o, Callee::Runtime(Rt::RtIsProcessAlive), a1(Val::At(0)));
        let m14 = m13.step(code, o);
        tests(m14, code, o, Pred::Ne, LType::I64, Val::At(13), num(0));
        let m15 = m14.step(code, o);
        branches(m15, code, o, Val::At(14), 3, 4);
        let m16 = m15.step(code, o);
        let alive = (o.calls)(Callee::Runtime(Rt::RtIsProcessAlive), seq![(o.parts)(0, 0)], after).0;
        if alive as u64 != 0 {
            error_stands(c, b, result, (call_error, IRVariantTag(0)));
            let k = error_is_built(c, code, o, b, m16, result, (call_error, IRVariantTag(0)));
            jumps(k, code, o, 5);
            incoming_finds(code.edges, Val::At(44), 3, 0);
            k.step(code, o)
        } else {
            error_stands(c, d, result, (call_error, IRVariantTag(1)));
            let k = error_is_built(c, code, o, d, m16, result, (call_error, IRVariantTag(1)));
            jumps(k, code, o, 5);
            incoming_finds(code.edges, Val::At(44), 4, 1);
            k.step(code, o)
        }
    };
    let v = incoming(code.edges, Val::At(44), joined.from)->0;
    takes(joined, code, o, LType::Enum(result), v);
    let m45 = joined.step(code, o);
    ends(m45, code, o, LType::Enum(result), Val::At(44));
    let end = m45.step(code, o);
    arrives(end, code, o, goal);
}

/// A message that asks for no reply can be sent.
pub open spec fn can_send(o: Outside, message_ty: IRType) -> bool {
    &&& envelope_fits(o, message_ty)
    &&& in_memory((o.values)(Val::Slot(0)), byte_count(o, LType::Envelope(message_ty)) as int)
    &&& 0 <= (o.values)(Val::Param(1)) < byte_limit(byte_count(o, value_type(message_ty)))
}

/// An envelope that asks for no reply: its tag word is the one of `None`.
pub open spec fn asks_for_nothing(o: Outside, message_ty: IRType) -> spec_fn(Memory) -> bool {
    |sent: Memory|
        holds_envelope(
            o,
            sent,
            (o.values)(Val::Slot(0)),
            message_ty,
            (o.values)(Val::Param(1)),
            1,
            0,
            0,
        )
}

proof fn empty_slot_is_three_words()
    ensures
        three_words(1, 1, 0, 0),
{
    words_limit();
    let blank = Memory { bytes: Map::empty(), taken: Set::empty(), blocks: Map::empty() };
    let m = bytes_of(1, 24);
    assert forall|i: int| 0 <= i < 24 implies #[trigger] byte(m, i) == if i == 0 {
        1
    } else {
        0int
    } by {
        one_and_zeros(blank, 0, 24, i);
    }
    assert forall|i: int| 8 <= i < 24 implies #[trigger] byte(m, i) == 0 by {}
    zeros_make_zero(m, 8, 8);
    zeros_make_zero(m, 16, 8);
    zeros_make_zero(m, 1, 7);
    assert(number(m, 0, 8) == byte(m, 0) + 0x100 * number(m, 1, 7));
}

proof fn one_and_zeros(memory: Memory, p: int, n: nat, i: int)
    requires
        0 <= p,
        p + n <= u64::MAX,
        0 < n,
        p <= i < p + n,
    ensures
        byte(stored(memory, p, 1, n), i) == if i == p {
            1
        } else {
            0int
        },
{
    let next = with_byte(memory, p, 1);
    assert(stored(memory, p, 1, n) == stored(next, p + 1, 0, (n - 1) as nat));
    if i == p {
        store_spares_others(next, p + 1, 0, (n - 1) as nat, p);
    } else {
        zero_is_stored(next, p + 1, (n - 1) as nat, i);
    }
}

proof fn zero_is_stored(memory: Memory, p: int, n: nat, i: int)
    requires
        0 <= p,
        p + n <= u64::MAX,
        p <= i < p + n,
    ensures
        byte(stored(memory, p, 0, n), i) == 0,
    decreases n,
{
    let next = with_byte(memory, p, 0);
    assert(stored(memory, p, 0, n) == stored(next, p + 1, 0, (n - 1) as nat));
    if i == p {
        store_spares_others(next, p + 1, 0, (n - 1) as nat, p);
    } else {
        zero_is_stored(next, p + 1, (n - 1) as nat, i);
    }
}

proof fn zeros_make_zero(memory: Memory, p: int, n: nat)
    requires
        forall|i: int| p <= i < p + n ==> #[trigger] byte(memory, i) == 0,
    ensures
        number(memory, p, n) == 0,
    decreases n,
{
    if n > 0 {
        zeros_make_zero(memory, p + 1, (n - 1) as nat);
    }
}

/// A message that asks for no reply, as far as its envelope.
proof fn envelope_is_ready(code: Code, o: Outside, memory: Memory, receiver: LType, message_ty: IRType) -> (l: Machine)
    requires
        ({
            let s = start();
            let e = envelope_code(
                s.i(Inst::Extract(receiver, Val::Param(0), 0)),
                message_ty,
                Val::Param(1),
                Val::Words(1, 0, 0),
            );
            stands(code, e)
        }),
        4 < code.log.len(),
        code.log[4].block == 0,
        can_send(o, message_ty),
    ensures
        booted(code, memory).leads_to(code, o, l),
        l.at == 4,
        l.returned is None,
        l.results[0] == (o.parts)(0, 0),
        asks_for_nothing(o, message_ty)(l.memory),
{
    let s = start();
    let r = s.i(Inst::Extract(receiver, Val::Param(0), 0));
    let e = envelope_code(r, message_ty, Val::Param(1), Val::Words(1, 0, 0));
    assert(code.log[0] == e.log[0] && code.log[1] == e.log[1]);
    seek_finds(code.log, 0, 0, 0);
    let m0 = booted(code, memory);
    extracts(m0, code, o, receiver, 0, 0);
    let m1 = m0.step(code, o);
    empty_slot_is_three_words();
    assert(read(o, m1.results, Val::Words(1, 0, 0)) == 1);
    envelope_runs(code, o, r, m1, message_ty, Val::Param(1), Val::Words(1, 0, 0), 1, 0, 0)
}

/// `Ref.cast` hands the runtime an envelope for the receiver that asks
/// for no reply.
pub proof fn cast_sends_the_message(
    c: &EmitContext,
    o: Outside,
    memory: Memory,
    receiver: LType,
    message_ty: IRType,
)
    requires
        can_send(o, message_ty),
    ensures
        ({
            let code = cast_code(c, start(), receiver, message_ty);
            booted(code, memory).comes_to(
                code,
                o,
                calling(
                    code,
                    o,
                    Rt::RtSend,
                    sent_with(c, o, message_ty),
                    asks_for_nothing(o, message_ty),
                ),
            )
        }),
{
    let code = cast_code(c, start(), receiver, message_ty);
    let l = envelope_is_ready(code, o, memory, receiver, message_ty);
    if let Inst::Call(callee, args) = code.log[4].inst {
        reveal_with_fuel(arguments, 6);
        assert(arguments(o, l.results, args) =~= sent_with(c, o, message_ty));
    }
    arrives(
        l,
        code,
        o,
        calling(code, o, Rt::RtSend, sent_with(c, o, message_ty), asks_for_nothing(o, message_ty)),
    );
}

/// `Ref.send_after` hands the runtime the same envelope and the delay.
pub proof fn send_after_sends_the_message(
    c: &EmitContext,
    o: Outside,
    memory: Memory,
    receiver: LType,
    message_ty: IRType,
)
    requires
        can_send(o, message_ty),
    ensures
        ({
            let code = send_after_code(c, start(), receiver, message_ty);
            booted(code, memory).comes_to(
                code,
                o,
                calling(
                    code,
                    o,
                    Rt::RtSendAfter,
                    seq![
                        (o.parts)(0, 0),
                        (o.values)(Val::Slot(0)),
                        c.abi(LType::Envelope(message_ty)) as int,
                        (o.values)(Val::Param(2)),
                        glue_given(c, o, message_ty),
                    ],
                    asks_for_nothing(o, message_ty),
                ),
            )
        }),
{
    let code = send_after_code(c, start(), receiver, message_ty);
    let given = seq![
        (o.parts)(0, 0),
        (o.values)(Val::Slot(0)),
        c.abi(LType::Envelope(message_ty)) as int,
        (o.values)(Val::Param(2)),
        glue_given(c, o, message_ty),
    ];
    let l = envelope_is_ready(code, o, memory, receiver, message_ty);
    if let Inst::Call(callee, args) = code.log[4].inst {
        reveal_with_fuel(arguments, 7);
        assert(arguments(o, l.results, args) =~= given);
    }
    arrives(l, code, o, calling(code, o, Rt::RtSendAfter, given, asks_for_nothing(o, message_ty)));
}

/// A `Ref` to the running process holds the pid that the runtime answers.
pub proof fn self_ref_holds_the_pid(o: Outside, memory: Memory, symbol: IRSymbol)
    ensures
        ({
            let code = self_ref_code(start(), symbol);
            booted(code, memory).comes_to(
                code,
                o,
                |l: Machine|
                    l.returned is Some && l.returned_parts.contains_key(0) && l.returned_parts[0] == own_pid(
                        o,
                        memory,
                    ).0,
            )
        }),
{
    let code = self_ref_code(start(), symbol);
    seek_finds(code.log, 0, 0, 0);
    let m0 = booted(code, memory);
    assert(arguments(o, m0.results, a0()) =~= seq![]);
    calls(m0, code, o, Callee::Runtime(Rt::RtSelf), a0());
    let m1 = m0.step(code, o);
    inserts(m1, code, o, LType::Struct(symbol), Val::Undef, LType::I64, Val::At(0), 0);
    let m2 = m1.step(code, o);
    ends(m2, code, o, LType::Struct(symbol), Val::At(1));
    arrives(
        m2.step(code, o),
        code,
        o,
        |l: Machine|
            l.returned is Some && l.returned_parts.contains_key(0) && l.returned_parts[0] == own_pid(
                o,
                memory,
            ).0,
    );
}

/// `Ref.alive?` says whether the runtime answers with anything but zero
/// for the receiver.
pub proof fn alive_asks_the_runtime(o: Outside, memory: Memory, receiver: LType)
    ensures
        ({
            let code = alive_code(start(), receiver);
            let answer = (o.calls)(
                Callee::Runtime(Rt::RtIsProcessAlive),
                seq![(o.parts)(0, 0)],
                memory,
            ).0;
            booted(code, memory).gives_back(code, o, bit(answer as u64 != 0) as int)
        }),
{
    let code = alive_code(start(), receiver);
    seek_finds(code.log, 0, 0, 0);
    let m0 = booted(code, memory);
    extracts(m0, code, o, receiver, 0, 0);
    let m1 = m0.step(code, o);
    assert(arguments(o, m1.results, a1(Val::At(0))) =~= seq![(o.parts)(0, 0)]) by {
        reveal_with_fuel(arguments, 3);
    }
    calls(m1, code, o, Callee::Runtime(Rt::RtIsProcessAlive), a1(Val::At(0)));
    let m2 = m1.step(code, o);
    tests(m2, code, o, Pred::Ne, LType::I64, Val::At(1), num(0));
    let m3 = m2.step(code, o);
    finishes(m3, code, o, LType::I1, Val::At(2));
}

/// `Ref.kill` tells the runtime to kill the receiver.
pub proof fn kill_kills_the_receiver(o: Outside, memory: Memory, receiver: LType)
    ensures
        ({
            let code = kill_code(start(), receiver);
            booted(code, memory).comes_to(
                code,
                o,
                calling(code, o, Rt::RtKill, seq![(o.parts)(0, 0)], |m: Memory| m == memory),
            )
        }),
{
    let code = kill_code(start(), receiver);
    seek_finds(code.log, 0, 0, 0);
    let m0 = booted(code, memory);
    extracts(m0, code, o, receiver, 0, 0);
    let m1 = m0.step(code, o);
    assert(arguments(o, m1.results, a1(Val::At(0))) =~= seq![(o.parts)(0, 0)]) by {
        reveal_with_fuel(arguments, 3);
    }
    arrives(
        m1,
        code,
        o,
        calling(code, o, Rt::RtKill, seq![(o.parts)(0, 0)], |m: Memory| m == memory),
    );
}

/// `Ref.signal` sends the receiver the first byte of the event, which is
/// its tag.
pub proof fn signal_sends_the_tag(o: Outside, memory: Memory, receiver: LType, event: LType)
    requires
        in_memory((o.values)(Val::Slot(0)), byte_count(o, event) as int),
        1 <= byte_count(o, event),
        0 <= (o.values)(Val::Param(1)) < byte_limit(byte_count(o, event)),
    ensures
        ({
            let code = signal_code(start(), receiver, event);
            booted(code, memory).comes_to(
                code,
                o,
                calling(
                    code,
                    o,
                    Rt::RtSendLifecycle,
                    seq![
                        (o.parts)(0, 0),
                        number(bytes_of((o.values)(Val::Param(1)), byte_count(o, event)), 0, 1),
                    ],
                    |m: Memory| true,
                ),
            )
        }),
{
    let code = signal_code(start(), receiver, event);
    let p = (o.values)(Val::Slot(0));
    let x = (o.values)(Val::Param(1));
    let given = seq![(o.parts)(0, 0), number(bytes_of(x, byte_count(o, event)), 0, 1)];
    seek_finds(code.log, 0, 0, 0);
    let m0 = booted(code, memory);
    extracts(m0, code, o, receiver, 0, 0);
    let m1 = m0.step(code, o);
    stores(m1, code, o, event, Val::Param(1), Val::Slot(0));
    let m2 = m1.step(code, o);
    loads(m2, code, o, LType::I8, Val::Slot(0));
    let m3 = m2.step(code, o);
    stored_parts(memory, p, x, byte_count(o, event), 0, 1);
    number_and_last_byte(m2.memory, p, 1);
    assert(byte_limit(1) == 0x100) by {
        assert(byte_limit(0) == 1);
    }
    converts(m3, code, o, CastOp::ZExt, LType::I8, Val::At(2), LType::I64);
    let m4 = m3.step(code, o);
    assert(arguments(o, m4.results, a2(Val::At(0), Val::At(3))) =~= given) by {
        reveal_with_fuel(arguments, 4);
    }
    arrives(m4, code, o, calling(code, o, Rt::RtSendLifecycle, given, |m: Memory| true));
}

/// What `ReplyTo.send` gives the runtime: the pid and the token of the
/// receiver, and where the reply is.
pub open spec fn replies_with(c: &EmitContext, o: Outside, reply_ty: IRType) -> Seq<int> {
    seq![
        (o.parts)(0, 0),
        (o.parts)(0, 1),
        (o.values)(Val::Slot(0)),
        c.abi(value_type(reply_ty)) as int,
        glue_given(c, o, reply_ty),
    ]
}

/// Memory with the reply in its stack slot.
pub open spec fn with_reply(o: Outside, memory: Memory, reply_ty: IRType) -> Memory {
    stored(
        memory,
        (o.values)(Val::Slot(0)),
        (o.values)(Val::Param(1)),
        byte_count(o, value_type(reply_ty)),
    )
}

/// `ReplyTo.send` hands the runtime the reply for the caller's pid under
/// the call's token, and says whether it was delivered: it was where the
/// runtime answers zero.
#[verifier::spinoff_prover]
#[verifier::rlimit(40)]
pub proof fn reply_goes_to_the_caller(
    c: &EmitContext,
    o: Outside,
    memory: Memory,
    receiver: LType,
    reply_ty: IRType,
    symbol: IRSymbol,
    tags: (IRVariantTag, IRVariantTag),
)
    requires
        delivery(c, symbol) == Some(tags),
        lies_in(c, o, symbol, tags.0.0),
        lies_in(c, o, symbol, tags.1.0),
        slots_stand(o, reply_send_code(c, start(), receiver, reply_ty, symbol, tags)),
        0 <= (o.values)(Val::Param(1)) < byte_limit(byte_count(o, value_type(reply_ty))),
    ensures
        ({
            let code = reply_send_code(c, start(), receiver, reply_ty, symbol, tags);
            let ready = with_reply(o, memory, reply_ty);
            let status = (o.calls)(Callee::Runtime(Rt::RtReply), replies_with(c, o, reply_ty), ready).0;
            let told = if status as u64 == 0 {
                c.tag_of(symbol, "Delivered"@)->0
            } else {
                c.tag_of(symbol, "Expired"@)->0
            };
            &&& number(
                ready,
                (o.values)(Val::Slot(0)),
                byte_count(o, value_type(reply_ty)),
            ) == (o.values)(Val::Param(1))
            &&& booted(code, memory).comes_to(
                code,
                o,
                gave_variant(c, o, symbol, told.0, seq![]),
            )
        }),
{
    let s = start();
    let code = reply_send_code(c, s, receiver, reply_ty, symbol, tags);
    let lt = value_type(reply_ty);
    let ready = with_reply(o, memory, reply_ty);
    let status = (o.calls)(Callee::Runtime(Rt::RtReply), replies_with(c, o, reply_ty), ready).0;
    let t = s.i(Inst::Extract(receiver, Val::Param(0), 0)).i(Inst::Extract(receiver, Val::Param(0), 1));
    let (g, glue) = drop_glue_code(c, serialize_code(t, reply_ty, Val::Param(1)), reply_ty);
    let args = a5(s.v(0), s.v(1), s.sv(0), num(c.abi(lt)), glue);
    let w = g.i(call(Rt::RtReply, args));
    let a = w.word("reply_delivered"@).word("reply_expired"@).word("reply_merge"@)
        .i(itest(Pred::Eq, g.v(0), num(0)))
        .i(Inst::CondBr(w.v(0), w.b(0), w.b(1)))
        .at(w.b(0));
    let (d, delivered) = enum_value_code(c, a, symbol, tags.0, seq![]);
    let b = d.i(Inst::Br(w.b(2))).at(w.b(1));
    let (e, expired) = enum_value_code(c, b, symbol, tags.1, seq![]);
    let j = e.i(Inst::Br(w.b(2))).at(w.b(2));
    unit_stands(c, a, symbol, tags.0.0);
    unit_stands(c, b, symbol, tags.1.0);
    assert(g.log.len() == 3 && g.blocks == 1);
    assert(code == j.i(Inst::Phi(LType::Enum(symbol)))
        .edge(j.v(0), delivered, w.b(0))
        .edge(j.v(0), expired, w.b(1))
        .i(Inst::Ret(LType::Enum(symbol), j.v(0))));
    assert(stands(code, j));
    assert(stands(code, e));
    assert(stands(code, b));
    assert(stands(code, d));
    assert(stands(code, a));
    assert(code.log[0] == a.log[0] && code.log[1] == a.log[1] && code.log[2] == a.log[2] && code.log[3]
        == a.log[3] && code.log[4] == a.log[4] && code.log[5] == a.log[5]);
    assert(code.log[9] == b.log[9] && code.log[13] == j.log[13]);
    assert(forall|i: int| 0 <= i < 6 ==> (#[trigger] code.log[i]).block == 0);
    assert forall|i: int| 6 <= i < 10 implies (#[trigger] code.log[i]).block == 1 by {
        assert(code.log[i] == b.log[i]);
        if i < 9 {
            assert(b.log[i] == d.log[i]);
        }
    }
    assert forall|i: int| 10 <= i < 14 implies (#[trigger] code.log[i]).block == 2 by {
        assert(code.log[i] == j.log[i]);
        if i < 13 {
            assert(j.log[i] == e.log[i]);
        }
    }
    seek_finds(code.log, 0, 0, 0);
    seek_finds(code.log, 1, 0, 6);
    seek_finds(code.log, 2, 0, 10);
    seek_finds(code.log, 3, 0, 14);
    assert(code.slots[0] == a.slots[0]);
    store_is_read_back(
        memory,
        (o.values)(Val::Slot(0)),
        (o.values)(Val::Param(1)),
        byte_count(o, lt),
    );
    let m0 = booted(code, memory);
    extracts(m0, code, o, receiver, 0, 0);
    let m1 = m0.step(code, o);
    extracts(m1, code, o, receiver, 0, 1);
    let m2 = m1.step(code, o);
    stores(m2, code, o, lt, Val::Param(1), Val::Slot(0));
    let m3 = m2.step(code, o);
    assert(arguments(o, m3.results, args) =~= replies_with(c, o, reply_ty)) by {
        reveal_with_fuel(arguments, 7);
    }
    calls(m3, code, o, Callee::Runtime(Rt::RtReply), args);
    let m4 = m3.step(code, o);
    tests(m4, code, o, Pred::Eq, LType::I64, Val::At(3), num(0));
    let m5 = m4.step(code, o);
    branches(m5, code, o, Val::At(4), 1, 2);
    let m6 = m5.step(code, o);
    assert(operands(o, m6.results, seq![]) =~= seq![]);
    let joined = if status as u64 == 0 {
        assert(code.slots[a.slots.len() as int] == d.slots[a.slots.len() as int]);
        assert(builds(c, code, o, a, m6, symbol, tags.0, seq![]));
        let k = enum_value_runs(c, code, o, a, m6, symbol, tags.0, seq![]);
        jumps(k, code, o, 3);
        incoming_finds(code.edges, Val::At(14), 1, 0);
        k.step(code, o)
    } else {
        assert(code.slots[b.slots.len() as int] == e.slots[b.slots.len() as int]);
        assert(builds(c, code, o, b, m6, symbol, tags.1, seq![]));
        let k = enum_value_runs(c, code, o, b, m6, symbol, tags.1, seq![]);
        jumps(k, code, o, 3);
        incoming_finds(code.edges, Val::At(14), 2, 1);
        k.step(code, o)
    };
    let told = if status as u64 == 0 {
        c.tag_of(symbol, "Delivered"@)->0
    } else {
        c.tag_of(symbol, "Expired"@)->0
    };
    let v = incoming(code.edges, Val::At(14), joined.from)->0;
    takes(joined, code, o, LType::Enum(symbol), v);
    let m15 = joined.step(code, o);
    ends(m15, code, o, LType::Enum(symbol), Val::At(14));
    arrives(m15.step(code, o), code, o, gave_variant(c, o, symbol, told.0, seq![]));
}

/// The `ReplyTo` in the reply slot of a call's envelope: behind the tag
/// word it holds the pid that the reply goes to and the token.
pub open spec fn reply_to_in(o: Outside, memory: Memory, p: int, message_ty: IRType) -> (int, int) {
    let slot = p + (o.offsets)(LType::Envelope(message_ty), 1);
    (number(memory, slot + 8, 8), number(memory, slot + 16, 8))
}

/// A reply reaches the call that it answers. Whoever receives the envelope
/// of a call and sends a reply through the `ReplyTo` in it hands the
/// runtime the pid of the caller and the token that the caller waits on.
pub proof fn reply_answers_the_call(
    c: &EmitContext,
    caller: Outside,
    memory: Memory,
    sent: Memory,
    message_ty: IRType,
    reply_ty: IRType,
    replier: Outside,
)
    requires
        holds_envelope(
            caller,
            sent,
            (caller.values)(Val::Slot(0)),
            message_ty,
            (caller.values)(Val::Param(1)),
            0,
            own_pid(caller, memory).0,
            new_token(caller, memory).0,
        ),
        ((replier.parts)(0, 0), (replier.parts)(0, 1)) == reply_to_in(
            caller,
            sent,
            (caller.values)(Val::Slot(0)),
            message_ty,
        ),
    ensures
        replies_with(c, replier, reply_ty)[0] == own_pid(caller, memory).0,
        replies_with(c, replier, reply_ty)[1] == new_token(caller, memory).0,
{
}

} // verus!
