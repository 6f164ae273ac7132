//! `Ref<M, R>` and `ReplyTo<R>` methods: the mailbox protocol.
//!
//! A message goes out as an envelope `{ message, reply slot }`. The reply
//! slot is an `Option<ReplyTo<R>>` packed into three words: the tag word,
//! the caller's pid and the call token. A reply is the bare value.

use vstd::prelude::*;
use crate::ctx::{EmitContext, GlueKind};
use crate::emit::enums::{build_single_value, build_unit_value, enum_value_appends, enum_value_code};
use crate::emit::heap_layout::{heap_leaf, is_heap_leaf};
use crate::error::{says, LlvmError};
use crate::intrinsics::element::{release_in_slot, release_in_slot_code};
use crate::intrinsics::params::{expect_enum_symbol, has_param, missing, not_enum, nth_int, nth_param, nth_struct, param_fault};
use crate::intrinsics::result::{
    result_fault, return_symbol, returns_result, single_payload, single_payload_type, ERR_TAG,
    OK_TAG,
};
use crate::ir::{IRFunction, IRSymbol, IRType, IRVariantTag, RefMethod};
use crate::llvm::{a0, a1, a2, a4, a5, call, itest, num, Body, CastOp, Code, Inst, LType, Pred, Val};
use crate::runtime::Rt;
use crate::semantics::{bit, later_code_keeps_values, recording_keeps_values};
use crate::text::concat3;
use crate::types::{value_basic_type, value_type, Kind};

verus! {

/// The tag word of a reply slot that holds a `ReplyTo`.
pub const SLOT_SOME: u64 = 0;

/// The tag word of an empty reply slot.
pub const SLOT_NONE: u64 = 1;

/// `CallError.Timeout` as the standard library declares it.
pub const CALL_ERROR_TIMEOUT: u8 = 0;

/// `CallError.ProcessDown` as the standard library declares it.
pub const CALL_ERROR_PROCESS_DOWN: u8 = 1;

/// The status of a call that got no reply in time: `-1`.
pub const NO_REPLY: u64 = 0xffff_ffff_ffff_ffff;

/// The empty reply slot.
pub open spec fn no_reply_slot() -> Val {
    Val::Words(SLOT_NONE, 0, 0)
}

/// A reply slot for the caller.
pub open spec fn reply_slot_code(s: Code, pid: Val, token: Val) -> Code {
    s.i(Inst::Insert(LType::Words(3), Val::Undef, LType::I64, num(SLOT_SOME), 0))
        .i(Inst::Insert(LType::Words(3), s.v(0), LType::I64, pid, 1))
        .i(Inst::Insert(LType::Words(3), s.v(1), LType::I64, token, 2))
}

/// Packs a reply slot for the caller.
pub fn option_some_payload(f: &mut Body, pid: Val, token: Val) -> (r: Val)
    ensures
        final(f)@ == reply_slot_code(old(f)@, pid, token),
        r == old(f)@.v(2),
{
    let a = f.ins(Inst::Insert(LType::Words(3), Val::Undef, LType::I64, num(SLOT_SOME), 0));
    let b = f.ins(Inst::Insert(LType::Words(3), a, LType::I64, pid, 1));
    f.ins(Inst::Insert(LType::Words(3), b, LType::I64, token, 2))
}

/// An envelope in a stack slot.
pub open spec fn envelope_code(s: Code, message_ty: IRType, message: Val, reply: Val) -> Code {
    let ty = LType::Envelope(message_ty);
    s.slot(ty)
        .i(Inst::Insert(ty, Val::Undef, value_type(message_ty), message, 0))
        .i(Inst::Insert(ty, s.v(0), LType::Words(3), reply, 1))
        .i(Inst::Store(ty, s.v(1), s.sv(0)))
}

/// Builds an envelope in a stack slot: its address and its size.
pub fn build_pair_envelope_alloca(
    c: &EmitContext,
    f: &mut Body,
    message_ty: IRType,
    message: Val,
    reply: Val,
) -> (r: (Val, Val))
    ensures
        final(f)@ == envelope_code(old(f)@, message_ty, message, reply),
        r.0 == old(f)@.sv(0),
        r.1 == num(c.abi(LType::Envelope(message_ty))),
{
    let ty = LType::Envelope(message_ty);
    let slot = f.slot(ty);
    let with_message = f.ins(
        Inst::Insert(ty, Val::Undef, value_basic_type(message_ty), message, 0),
    );
    let envelope = f.ins(Inst::Insert(ty, with_message, LType::Words(3), reply, 1));
    f.ins(Inst::Store(ty, envelope, slot));
    (slot, num(c.abi_size(ty)))
}

/// The payload carries heap of its own that has to be released when the
/// runtime discards it.
pub open spec fn owned_payload(c: &EmitContext, payload: IRType) -> bool {
    heap_leaf(payload) || c.glue_of(GlueKind::Drop, payload) is Some
}

/// Whether a payload carries heap of its own.
pub fn payload_owns_heap(c: &EmitContext, payload: IRType) -> (r: bool)
    ensures
        r == owned_payload(c, payload),
{
    is_heap_leaf(payload) || c.glue(GlueKind::Drop, payload).is_some()
}

/// The drop glue that goes to the runtime with a payload: the address of
/// its shim, or null where there is nothing to release.
pub open spec fn drop_glue_code(c: &EmitContext, s: Code, payload: IRType) -> (Code, Val) {
    if owned_payload(c, payload) {
        (s.shim(payload), Val::Shim(payload))
    } else {
        (s, Val::Null)
    }
}

/// Asks for the drop glue of a payload. Every site that sends the same
/// type shares one shim.
pub fn payload_drop_glue(c: &EmitContext, f: &mut Body, payload: IRType) -> (r: Val)
    ensures
        (final(f)@, r) == drop_glue_code(c, old(f)@, payload),
{
    if payload_owns_heap(c, payload) {
        f.shim(payload)
    } else {
        Val::Null
    }
}

/// The body of a drop shim: it releases the payload behind its pointer.
/// The runtime's discard path is type-erased, and by-value drop glue has
/// another signature, so the shim stands between the two.
pub fn build_payload_drop_shim(c: &EmitContext, f: &mut Body, payload: IRType)
    ensures
        final(f)@ == release_in_slot_code(c, old(f)@, payload, Val::Param(0)).i(Inst::RetVoid),
{
    release_in_slot(c, f, payload, Val::Param(0));
    f.ins(Inst::RetVoid);
}

/// `value` in a stack slot of its type.
pub open spec fn serialize_code(s: Code, ty: IRType, value: Val) -> Code {
    s.slot(value_type(ty)).i(Inst::Store(value_type(ty), value, s.sv(0)))
}

/// Spills a value to the stack: its address and its size.
pub fn serialize_to_stack(c: &EmitContext, f: &mut Body, ty: IRType, value: Val) -> (r: (Val, Val))
    ensures
        final(f)@ == serialize_code(old(f)@, ty, value),
        r.0 == old(f)@.sv(0),
        r.1 == num(c.abi(value_type(ty))),
{
    let lt = value_basic_type(ty);
    let slot = f.slot(lt);
    f.ins(Inst::Store(lt, value, slot));
    (slot, num(c.abi_size(lt)))
}

/// `Ref.self_ref`: the running process as a `Ref`.
pub open spec fn self_ref_code(s: Code, symbol: IRSymbol) -> Code {
    s.i(call(Rt::RtSelf, a0()))
        .i(Inst::Insert(LType::Struct(symbol), Val::Undef, LType::I64, s.v(0), 0))
        .i(Inst::Ret(LType::Struct(symbol), s.v(1)))
}

/// Emits `Ref.self_ref`.
pub fn emit_self_ref(f: &mut Body, symbol: IRSymbol)
    ensures
        final(f)@ == self_ref_code(old(f)@, symbol),
{
    let pid = f.ins(call(Rt::RtSelf, a0()));
    let value = f.ins(Inst::Insert(LType::Struct(symbol), Val::Undef, LType::I64, pid, 0));
    f.ins(Inst::Ret(LType::Struct(symbol), value));
}

/// `Ref.cast`: the message in an envelope with no reply slot, sent.
pub open spec fn cast_code(c: &EmitContext, s: Code, receiver: LType, message_ty: IRType) -> Code {
    let t = s.i(Inst::Extract(receiver, Val::Param(0), 0));
    let (g, glue) = drop_glue_code(
        c,
        envelope_code(t, message_ty, Val::Param(1), no_reply_slot()),
        message_ty,
    );
    g.i(
        call(
            Rt::RtSend,
            a4(s.v(0), s.sv(0), num(c.abi(LType::Envelope(message_ty))), glue),
        ),
    ).i(Inst::RetVoid)
}

/// Emits `Ref.cast`.
pub fn emit_cast(c: &EmitContext, f: &mut Body, receiver: LType, message_ty: IRType)
    ensures
        final(f)@ == cast_code(c, old(f)@, receiver, message_ty),
{
    let pid = f.ins(Inst::Extract(receiver, Val::Param(0), 0));
    let (envelope, size) = build_pair_envelope_alloca(
        c,
        f,
        message_ty,
        Val::Param(1),
        Val::Words(SLOT_NONE, 0, 0),
    );
    let glue = payload_drop_glue(c, f, message_ty);
    f.ins(call(Rt::RtSend, a4(pid, envelope, size, glue)));
    f.ins(Inst::RetVoid);
}

/// `Ref.send_after`: the same envelope, sent after a delay.
pub open spec fn send_after_code(
    c: &EmitContext,
    s: Code,
    receiver: LType,
    message_ty: IRType,
) -> Code {
    let t = s.i(Inst::Extract(receiver, Val::Param(0), 0));
    let (g, glue) = drop_glue_code(
        c,
        envelope_code(t, message_ty, Val::Param(1), no_reply_slot()),
        message_ty,
    );
    g.i(
        call(
            Rt::RtSendAfter,
            a5(
                s.v(0),
                s.sv(0),
                num(c.abi(LType::Envelope(message_ty))),
                Val::Param(2),
                glue,
            ),
        ),
    ).i(Inst::RetVoid)
}

/// Emits `Ref.send_after`.
pub fn emit_send_after(c: &EmitContext, f: &mut Body, receiver: LType, message_ty: IRType)
    ensures
        final(f)@ == send_after_code(c, old(f)@, receiver, message_ty),
{
    let pid = f.ins(Inst::Extract(receiver, Val::Param(0), 0));
    let (envelope, size) = build_pair_envelope_alloca(
        c,
        f,
        message_ty,
        Val::Param(1),
        Val::Words(SLOT_NONE, 0, 0),
    );
    let glue = payload_drop_glue(c, f, message_ty);
    f.ins(call(Rt::RtSendAfter, a5(pid, envelope, size, Val::Param(2), glue)));
    f.ins(Inst::RetVoid);
}

/// `Err(CallError.<tag>)`, and a branch to the join.
pub open spec fn call_error_code(
    c: &EmitContext,
    s: Code,
    result: IRSymbol,
    call_error: IRSymbol,
    tag: u8,
    merge: usize,
) -> (Code, Val) {
    let (e, error) = enum_value_code(c, s, call_error, IRVariantTag(tag), seq![]);
    let (r, value) = enum_value_code(c, e, result, IRVariantTag(ERR_TAG), seq![error]);
    (r.i(Inst::Br(merge)), value)
}

/// Builds a call error and goes to the join.
pub fn build_call_error_result(
    c: &EmitContext,
    f: &mut Body,
    result: IRSymbol,
    call_error: IRSymbol,
    tag: u8,
    merge: usize,
) -> (r: Val)
    requires
        c.payload(call_error, tag).len() == 0,
        c.payload(result, ERR_TAG).len() == 1,
    ensures
        (final(f)@, r) == call_error_code(c, old(f)@, result, call_error, tag, merge),
{
    let error = build_unit_value(c, f, call_error, IRVariantTag(tag));
    let value = build_single_value(c, f, result, IRVariantTag(ERR_TAG), error);
    f.ins(Inst::Br(merge));
    value
}

/// The sending half of `Ref.call`: a token is minted, the message goes
/// out with a reply slot for the caller, and the caller waits for the
/// reply. The status is the last instruction's result.
pub open spec fn call_send_code(
    c: &EmitContext,
    s: Code,
    receiver: LType,
    message_ty: IRType,
    reply_ty: IRType,
) -> Code {
    let t = s.i(Inst::Extract(receiver, Val::Param(0), 0))
        .i(call(Rt::RtSelf, a0()))
        .i(call(Rt::RtCallToken, a0()));
    let (g, glue) = drop_glue_code(
        c,
        envelope_code(
            reply_slot_code(t, s.v(1), s.v(2)),
            message_ty,
            Val::Param(1),
            s.v(5),
        ),
        message_ty,
    );
    g.i(
        call(
            Rt::RtSend,
            a4(s.v(0), s.sv(0), num(c.abi(LType::Envelope(message_ty))), glue),
        ),
    )
        .slot(value_type(reply_ty))
        .i(
            call(
                Rt::RtCallReceive,
                a4(s.v(2), s.sv(1), num(c.abi(value_type(reply_ty))), Val::Param(2)),
            ),
        )
}

/// Emits the sending half of `Ref.call`: the target pid, the reply's
/// address and the status.
pub fn emit_call_send(
    c: &EmitContext,
    f: &mut Body,
    receiver: LType,
    message_ty: IRType,
    reply_ty: IRType,
) -> (r: (Val, Val, Val))
    ensures
        final(f)@ == call_send_code(c, old(f)@, receiver, message_ty, reply_ty),
        r == (old(f)@.v(0), old(f)@.sv(1), old(f)@.v(10)),
{
    let pid = f.ins(Inst::Extract(receiver, Val::Param(0), 0));
    let caller = f.ins(call(Rt::RtSelf, a0()));
    let token = f.ins(call(Rt::RtCallToken, a0()));
    let reply_to = option_some_payload(f, caller, token);
    let (envelope, size) = build_pair_envelope_alloca(c, f, message_ty, Val::Param(1), reply_to);
    let glue = payload_drop_glue(c, f, message_ty);
    f.ins(call(Rt::RtSend, a4(pid, envelope, size, glue)));
    let lt = value_basic_type(reply_ty);
    let slot = f.slot(lt);
    let cap = num(c.abi_size(lt));
    let status = f.ins(call(Rt::RtCallReceive, a4(token, slot, cap, Val::Param(2))));
    (pid, slot, status)
}

/// `Ref.call`. The blocks are timeout-check, reply, timeout, down and
/// join: a status of `-1` is a timeout where the target is alive and
/// `ProcessDown` where it is not; any other status loads the reply.
pub open spec fn call_code(
    c: &EmitContext,
    s: Code,
    receiver: LType,
    message_ty: IRType,
    reply_ty: IRType,
    result: IRSymbol,
    call_error: IRSymbol,
) -> Code {
    let w = call_send_code(c, s, receiver, message_ty, reply_ty);
    let (t, timeout) = call_error_code(
        c,
        w
            .word("call_timeout_check"@)
            .word("call_got_reply"@)
            .word("call_build_timeout"@)
            .word("call_build_down"@)
            .word("call_merge"@)
            .i(itest(Pred::Eq, s.v(10), num(NO_REPLY)))
            .i(Inst::CondBr(w.v(0), w.b(0), w.b(1)))
            .at(w.b(0))
            .i(call(Rt::RtIsProcessAlive, a1(s.v(0))))
            .i(itest(Pred::Ne, w.v(2), num(0)))
            .i(Inst::CondBr(w.v(3), w.b(2), w.b(3)))
            .at(w.b(2)),
        result,
        call_error,
        CALL_ERROR_TIMEOUT,
        w.b(4),
    );
    let (d, down) = call_error_code(
        c,
        t.at(w.b(3)),
        result,
        call_error,
        CALL_ERROR_PROCESS_DOWN,
        w.b(4),
    );
    let l = d.at(w.b(1)).i(Inst::Load(value_type(reply_ty), s.sv(1)));
    let (o, ok) = enum_value_code(c, l, result, IRVariantTag(OK_TAG), seq![d.v(0)]);
    let j = o.i(Inst::Br(w.b(4))).at(w.b(4));
    j.i(Inst::Phi(LType::Enum(result)))
        .edge(j.v(0), timeout, w.b(2))
        .edge(j.v(0), down, w.b(3))
        .edge(j.v(0), ok, w.b(1))
        .i(Inst::Ret(LType::Enum(result), j.v(0)))
}

/// `Ref.call` up to its two decisions.
spec fn call_front(w: Code, status: Val, target: Val) -> Code {
    w
        .word("call_timeout_check"@)
        .word("call_got_reply"@)
        .word("call_build_timeout"@)
        .word("call_build_down"@)
        .word("call_merge"@)
        .i(itest(Pred::Eq, status, num(NO_REPLY)))
        .i(Inst::CondBr(w.v(0), w.b(0), w.b(1)))
        .at(w.b(0))
        .i(call(Rt::RtIsProcessAlive, a1(target)))
        .i(itest(Pred::Ne, w.v(2), num(0)))
        .i(Inst::CondBr(w.v(3), w.b(2), w.b(3)))
}

proof fn call_front_values(w: Code, env: spec_fn(Val) -> u64, status: Val, target: Val)
    requires
        w.room(5),
        w.defines(status),
    ensures
        ({
            let f = call_front(w, status, target);
            &&& f.value(env, w.v(0)) == bit(w.value(env, status) == NO_REPLY)
            &&& f.value(env, w.v(3)) == bit(env(w.v(2)) != 0)
        }),
{
    let c0 = w
        .word("call_timeout_check"@)
        .word("call_got_reply"@)
        .word("call_build_timeout"@)
        .word("call_build_down"@)
        .word("call_merge"@);
    assert(forall|v: Val| w.value(env, v) == c0.value(env, v));
    let test = itest(Pred::Eq, status, num(NO_REPLY));
    let go = Inst::CondBr(w.v(0), w.b(0), w.b(1));
    let ask = call(Rt::RtIsProcessAlive, a1(target));
    let told = itest(Pred::Ne, w.v(2), num(0));
    recording_keeps_values(c0, env, test);
    let c1 = c0.i(test);
    recording_keeps_values(c1, env, go);
    let c2 = c1.i(go).at(w.b(0));
    assert(forall|v: Val| c2.value(env, v) == c1.i(go).value(env, v));
    assert(c2.value(env, w.v(0)) == bit(w.value(env, status) == NO_REPLY));
    recording_keeps_values(c2, env, ask);
    let c3 = c2.i(ask);
    assert(c3.value(env, w.v(0)) == c2.value(env, w.v(0)));
    assert(c3.value(env, w.v(2)) == env(w.v(2)));
    recording_keeps_values(c3, env, told);
    let c4 = c3.i(told);
    assert(c4.value(env, w.v(0)) == c3.value(env, w.v(0)));
    recording_keeps_values(c4, env, Inst::CondBr(w.v(3), w.b(2), w.b(3)));
}

/// A call that got a reply goes to the block that gives it back. One that
/// got none is a timeout where the target is alive and `ProcessDown` where
/// it is not.
pub proof fn call_tells_three_outcomes(
    c: &EmitContext,
    s: Code,
    env: spec_fn(Val) -> u64,
    receiver: LType,
    message_ty: IRType,
    reply_ty: IRType,
    result: IRSymbol,
    call_error: IRSymbol,
)
    requires
        call_code(c, s, receiver, message_ty, reply_ty, result, call_error).log.len() <= usize::MAX,
    ensures
        ({
            let w = call_send_code(c, s, receiver, message_ty, reply_ty);
            let code = call_code(c, s, receiver, message_ty, reply_ty, result, call_error);
            let n = w.log.len() as int;
            let (status, alive) = (env(s.v(10)), env(w.v(2)));
            &&& code.log[n + 1].inst == Inst::CondBr(w.v(0), w.b(0), w.b(1))
            &&& code.value(env, w.v(0)) == bit(status == NO_REPLY)
            &&& code.log[n + 4].inst == Inst::CondBr(w.v(3), w.b(2), w.b(3))
            &&& code.value(env, w.v(3)) == bit(alive != 0)
        }),
{
    let w = call_send_code(c, s, receiver, message_ty, reply_ty);
    let code = call_code(c, s, receiver, message_ty, reply_ty, result, call_error);
    let f = call_front(w, s.v(10), s.v(0));
    assert(w.log.len() == s.log.len() + 11);
    call_begins(c, s, receiver, message_ty, reply_ty, result, call_error);
    assert(f.log[w.log.len() as int + 1] == code.log.subrange(0, f.log.len() as int)[w.log.len() as int
        + 1]);
    assert(f.log[w.log.len() as int + 4] == code.log.subrange(0, f.log.len() as int)[w.log.len() as int
        + 4]);
    call_front_values(w, env, s.v(10), s.v(0));
    later_code_keeps_values(f, code, env, w.v(0));
    later_code_keeps_values(f, code, env, w.v(3));
    let before = Code { log: w.log.drop_last(), ..w };
    let wait = w.log.last().inst;
    recording_keeps_values(before, env, wait);
    assert(before.i(wait).log =~= w.log);
    assert(w.value(env, s.v(10)) == env(s.v(10)));
}

/// What `Ref.call` begins with.
proof fn call_begins(
    c: &EmitContext,
    s: Code,
    receiver: LType,
    message_ty: IRType,
    reply_ty: IRType,
    result: IRSymbol,
    call_error: IRSymbol,
)
    ensures
        ({
            let w = call_send_code(c, s, receiver, message_ty, reply_ty);
            call_front(w, s.v(10), s.v(0)).log.is_prefix_of(
                call_code(c, s, receiver, message_ty, reply_ty, result, call_error).log,
            )
        }),
{
    let w = call_send_code(c, s, receiver, message_ty, reply_ty);
    let f = call_front(w, s.v(10), s.v(0)).at(w.b(2));
    let code = call_code(c, s, receiver, message_ty, reply_ty, result, call_error);
    let (t, timeout) = call_error_code(c, f, result, call_error, CALL_ERROR_TIMEOUT, w.b(4));
    let u = t.at(w.b(3));
    let (d, down) = call_error_code(c, u, result, call_error, CALL_ERROR_PROCESS_DOWN, w.b(4));
    let l = d.at(w.b(1)).i(Inst::Load(value_type(reply_ty), s.sv(1)));
    let (o, ok) = enum_value_code(c, l, result, IRVariantTag(OK_TAG), seq![d.v(0)]);
    call_error_appends(c, f, result, call_error, CALL_ERROR_TIMEOUT, w.b(4));
    call_error_appends(c, u, result, call_error, CALL_ERROR_PROCESS_DOWN, w.b(4));
    enum_value_appends(c, l, result, IRVariantTag(OK_TAG), seq![d.v(0)]);
    assert forall|i: int| 0 <= i < f.log.len() implies #[trigger] f.log[i] == code.log[i] by {
        assert(f.log[i] == t.log.subrange(0, f.log.len() as int)[i]);
        assert(u.log[i] == d.log.subrange(0, u.log.len() as int)[i]);
        assert(l.log[i] == o.log.subrange(0, l.log.len() as int)[i]);
    }
    assert(f.log =~= code.log.subrange(0, f.log.len() as int));
}

/// Building a call error leaves what was recorded before it alone.
proof fn call_error_appends(
    c: &EmitContext,
    s: Code,
    result: IRSymbol,
    call_error: IRSymbol,
    tag: u8,
    merge: usize,
)
    ensures
        s.log.is_prefix_of(call_error_code(c, s, result, call_error, tag, merge).0.log),
{
    let (e, error) = enum_value_code(c, s, call_error, IRVariantTag(tag), seq![]);
    let (r, value) = enum_value_code(c, e, result, IRVariantTag(ERR_TAG), seq![error]);
    let end = call_error_code(c, s, result, call_error, tag, merge).0;
    enum_value_appends(c, s, call_error, IRVariantTag(tag), seq![]);
    enum_value_appends(c, e, result, IRVariantTag(ERR_TAG), seq![error]);
    assert forall|i: int| 0 <= i < s.log.len() implies #[trigger] s.log[i] == end.log[i] by {
        assert(s.log[i] == e.log.subrange(0, s.log.len() as int)[i]);
        assert(e.log[i] == r.log.subrange(0, e.log.len() as int)[i]);
    }
    assert(s.log =~= end.log.subrange(0, s.log.len() as int));
}

/// Emits `Ref.call`.
pub fn emit_call(
    c: &EmitContext,
    f: &mut Body,
    receiver: LType,
    message_ty: IRType,
    reply_ty: IRType,
    result: IRSymbol,
    call_error: IRSymbol,
)
    requires
        c.payload(result, OK_TAG).len() == 1,
        c.payload(result, ERR_TAG).len() == 1,
        c.payload(call_error, CALL_ERROR_TIMEOUT).len() == 0,
        c.payload(call_error, CALL_ERROR_PROCESS_DOWN).len() == 0,
    ensures
        final(f)@ == call_code(
            c,
            old(f)@,
            receiver,
            message_ty,
            reply_ty,
            result,
            call_error,
        ),
{
    let (pid, slot, status) = emit_call_send(c, f, receiver, message_ty, reply_ty);
    let check_bb = f.block("call_timeout_check");
    let reply_bb = f.block("call_got_reply");
    let timeout_bb = f.block("call_build_timeout");
    let down_bb = f.block("call_build_down");
    let merge_bb = f.block("call_merge");
    let timed_out = f.ins(itest(Pred::Eq, status, num(NO_REPLY)));
    f.ins(Inst::CondBr(timed_out, check_bb, reply_bb));

    f.at(check_bb);
    let alive = f.ins(call(Rt::RtIsProcessAlive, a1(pid)));
    let target_alive = f.ins(itest(Pred::Ne, alive, num(0)));
    f.ins(Inst::CondBr(target_alive, timeout_bb, down_bb));

    f.at(timeout_bb);
    let timeout = build_call_error_result(c, f, result, call_error, CALL_ERROR_TIMEOUT, merge_bb);
    f.at(down_bb);
    let down = build_call_error_result(
        c,
        f,
        result,
        call_error,
        CALL_ERROR_PROCESS_DOWN,
        merge_bb,
    );

    f.at(reply_bb);
    let reply = f.ins(Inst::Load(value_basic_type(reply_ty), slot));
    let ok = build_single_value(c, f, result, IRVariantTag(OK_TAG), reply);
    f.ins(Inst::Br(merge_bb));

    f.at(merge_bb);
    let phi = f.ins(Inst::Phi(LType::Enum(result)));
    f.edge(phi, timeout, timeout_bb);
    f.edge(phi, down, down_bb);
    f.edge(phi, ok, reply_bb);
    f.ins(Inst::Ret(LType::Enum(result), phi));
}

/// `Ref.signal`: the tag byte of the lifecycle event, sent.
pub open spec fn signal_code(s: Code, receiver: LType, event: LType) -> Code {
    s.i(Inst::Extract(receiver, Val::Param(0), 0))
        .slot(event)
        .i(Inst::Store(event, Val::Param(1), s.sv(0)))
        .i(Inst::Load(LType::I8, s.sv(0)))
        .i(Inst::Cast(CastOp::ZExt, LType::I8, s.v(2), LType::I64))
        .i(call(Rt::RtSendLifecycle, a2(s.v(0), s.v(3))))
        .i(Inst::RetVoid)
}

/// Emits `Ref.signal`.
pub fn emit_signal(f: &mut Body, receiver: LType, event: LType)
    ensures
        final(f)@ == signal_code(old(f)@, receiver, event),
{
    let pid = f.ins(Inst::Extract(receiver, Val::Param(0), 0));
    let slot = f.slot(event);
    f.ins(Inst::Store(event, Val::Param(1), slot));
    let byte = f.ins(Inst::Load(LType::I8, slot));
    let wide = f.ins(Inst::Cast(CastOp::ZExt, LType::I8, byte, LType::I64));
    f.ins(call(Rt::RtSendLifecycle, a2(pid, wide)));
    f.ins(Inst::RetVoid);
}

/// `Ref.kill`.
pub open spec fn kill_code(s: Code, receiver: LType) -> Code {
    s.i(Inst::Extract(receiver, Val::Param(0), 0)).i(call(Rt::RtKill, a1(s.v(0)))).i(Inst::RetVoid)
}

/// Emits `Ref.kill`.
pub fn emit_kill(f: &mut Body, receiver: LType)
    ensures
        final(f)@ == kill_code(old(f)@, receiver),
{
    let pid = f.ins(Inst::Extract(receiver, Val::Param(0), 0));
    f.ins(call(Rt::RtKill, a1(pid)));
    f.ins(Inst::RetVoid);
}

/// `Ref.alive?`.
pub open spec fn alive_code(s: Code, receiver: LType) -> Code {
    s.i(Inst::Extract(receiver, Val::Param(0), 0))
        .i(call(Rt::RtIsProcessAlive, a1(s.v(0))))
        .i(itest(Pred::Ne, s.v(1), num(0)))
        .i(Inst::Ret(LType::I1, s.v(2)))
}

/// Emits `Ref.alive?`.
pub fn emit_alive(f: &mut Body, receiver: LType)
    ensures
        final(f)@ == alive_code(old(f)@, receiver),
{
    let pid = f.ins(Inst::Extract(receiver, Val::Param(0), 0));
    let alive = f.ins(call(Rt::RtIsProcessAlive, a1(pid)));
    let bit = f.ins(itest(Pred::Ne, alive, num(0)));
    f.ins(Inst::Ret(LType::I1, bit));
}

/// The two fieldless variants of a delivery result, by name.
pub open spec fn delivery(c: &EmitContext, symbol: IRSymbol) -> Option<(IRVariantTag, IRVariantTag)> {
    match (c.tag_of(symbol, "Delivered"@), c.tag_of(symbol, "Expired"@)) {
        (Some(d), Some(e)) => if c.payload(symbol, d.0).len() == 0 && c.payload(symbol, e.0).len()
            == 0 {
            Some((d, e))
        } else {
            None
        },
        _ => None,
    }
}

/// Resolves the variants of a delivery result.
pub fn resolve_delivery(c: &EmitContext, symbol: IRSymbol) -> (r: Option<(IRVariantTag, IRVariantTag)>)
    ensures
        r == delivery(c, symbol),
{
    match c.enum_variant_tag(symbol, "Delivered") {
        None => None,
        Some(d) => match c.enum_variant_tag(symbol, "Expired") {
            None => None,
            Some(e) => if c.enum_variant_payload(symbol, d.0).len() == 0 && c.enum_variant_payload(
                symbol,
                e.0,
            ).len() == 0 {
                Some((d, e))
            } else {
                None
            },
        },
    }
}

/// `ReplyTo.send`: the bare reply goes to the caller under its token. The
/// blocks are delivered, expired and join.
pub open spec fn reply_send_code(
    c: &EmitContext,
    s: Code,
    receiver: LType,
    reply_ty: IRType,
    symbol: IRSymbol,
    tags: (IRVariantTag, IRVariantTag),
) -> Code {
    let t = s.i(Inst::Extract(receiver, Val::Param(0), 0)).i(
        Inst::Extract(receiver, Val::Param(0), 1),
    );
    let (g, glue) = drop_glue_code(c, serialize_code(t, reply_ty, Val::Param(1)), reply_ty);
    let w = g.i(
        call(
            Rt::RtReply,
            a5(s.v(0), s.v(1), s.sv(0), num(c.abi(value_type(reply_ty))), glue),
        ),
    );
    let (d, delivered) = enum_value_code(
        c,
        w.word("reply_delivered"@).word("reply_expired"@).word("reply_merge"@)
            .i(itest(Pred::Eq, g.v(0), num(0)))
            .i(Inst::CondBr(w.v(0), w.b(0), w.b(1)))
            .at(w.b(0)),
        symbol,
        tags.0,
        seq![],
    );
    let (e, expired) = enum_value_code(
        c,
        d.i(Inst::Br(w.b(2))).at(w.b(1)),
        symbol,
        tags.1,
        seq![],
    );
    let j = e.i(Inst::Br(w.b(2))).at(w.b(2));
    j.i(Inst::Phi(LType::Enum(symbol)))
        .edge(j.v(0), delivered, w.b(0))
        .edge(j.v(0), expired, w.b(1))
        .i(Inst::Ret(LType::Enum(symbol), j.v(0)))
}

/// Emits `ReplyTo.send`.
pub fn emit_reply_send(
    c: &EmitContext,
    f: &mut Body,
    receiver: LType,
    reply_ty: IRType,
    symbol: IRSymbol,
    tags: (IRVariantTag, IRVariantTag),
)
    requires
        c.payload(symbol, tags.0.0).len() == 0,
        c.payload(symbol, tags.1.0).len() == 0,
    ensures
        final(f)@ == reply_send_code(c, old(f)@, receiver, reply_ty, symbol, tags),
{
    let pid = f.ins(Inst::Extract(receiver, Val::Param(0), 0));
    let token = f.ins(Inst::Extract(receiver, Val::Param(0), 1));
    let (ptr, len) = serialize_to_stack(c, f, reply_ty, Val::Param(1));
    let glue = payload_drop_glue(c, f, reply_ty);
    let status = f.ins(call(Rt::RtReply, a5(pid, token, ptr, len, glue)));
    let delivered_bb = f.block("reply_delivered");
    let expired_bb = f.block("reply_expired");
    let merge_bb = f.block("reply_merge");
    let ok = f.ins(itest(Pred::Eq, status, num(0)));
    f.ins(Inst::CondBr(ok, delivered_bb, expired_bb));
    f.at(delivered_bb);
    let delivered = build_unit_value(c, f, symbol, tags.0);
    f.ins(Inst::Br(merge_bb));
    f.at(expired_bb);
    let expired = build_unit_value(c, f, symbol, tags.1);
    f.ins(Inst::Br(merge_bb));
    f.at(merge_bb);
    let phi = f.ins(Inst::Phi(LType::Enum(symbol)));
    f.edge(phi, delivered, delivered_bb);
    f.edge(phi, expired, expired_bb);
    f.ins(Inst::Ret(LType::Enum(symbol), phi));
}

/// The function can be the `Ref` method.
#[verifier::opaque]
pub open spec fn ref_ok(c: &EmitContext, function: &IRFunction, method: RefMethod) -> bool {
    match method {
        RefMethod::SelfRef => function.return_type is Struct,
        RefMethod::AliveQ | RefMethod::Kill => has_param(function, 0, Kind::Aggregate),
        RefMethod::Cast => has_param(function, 0, Kind::Aggregate) && function.params@.len() > 1,
        RefMethod::SendAfter => has_param(function, 0, Kind::Aggregate) && has_param(
            function,
            2,
            Kind::Int,
        ),
        RefMethod::Signal => has_param(function, 0, Kind::Aggregate) && function.params@.len() > 1
            && function.params@[1].ty != IRType::Unit,
        RefMethod::Call => {
            &&& has_param(function, 0, Kind::Aggregate)
            &&& has_param(function, 2, Kind::Int)
            &&& returns_result(c, function)
            &&& function.return_type matches IRType::Enum(r) && c.payload(r, ERR_TAG).len() == 1
            &&& c.symbol_of("Global.Process.CallError"@) matches Some(e) && c.payload(
                e,
                CALL_ERROR_TIMEOUT,
            ).len() == 0 && c.payload(e, CALL_ERROR_PROCESS_DOWN).len() == 0
        },
    }
}

/// The body of a `Ref` method.
#[verifier::opaque]
pub open spec fn ref_code(c: &EmitContext, s: Code, function: &IRFunction, method: RefMethod) -> Code {
    let receiver = value_type(function.params@[0].ty);
    let message_ty = function.params@[1].ty;
    match method {
        RefMethod::SelfRef => self_ref_code(s, function.return_type->Struct_0),
        RefMethod::AliveQ => alive_code(s, receiver),
        RefMethod::Kill => kill_code(s, receiver),
        RefMethod::Cast => cast_code(c, s, receiver, message_ty),
        RefMethod::SendAfter => send_after_code(c, s, receiver, message_ty),
        RefMethod::Signal => signal_code(s, receiver, value_type(message_ty)),
        RefMethod::Call => {
            let result = function.return_type->Enum_0;
            call_code(
                c,
                s,
                receiver,
                message_ty,
                single_payload(c, result, OK_TAG)->0,
                result,
                c.symbol_of("Global.Process.CallError"@)->0,
            )
        },
    }
}

/// What is said of an ill-shaped process method.
pub open spec fn seal_fault(c: &EmitContext, function: &IRFunction, what: Seq<char>) -> Seq<char> {
    what + ", IR seal invariant violation on "@ + c.mangled(function.symbol)
}

/// What is said of a function that cannot be the `Ref` method.
pub open spec fn ref_fault(c: &EmitContext, function: &IRFunction, method: RefMethod) -> Seq<char> {
    if method == RefMethod::SelfRef {
        seal_fault(c, function, "`Ref.self_ref` does not return a struct"@)
    } else if !has_param(function, 0, Kind::Aggregate) {
        param_fault(c, function, 0, "self"@, Kind::Aggregate)
    } else {
        match method {
            RefMethod::Cast => missing(c, function, 1, "msg"@),
            RefMethod::SendAfter => param_fault(c, function, 2, "delay_ms"@, Kind::Int),
            RefMethod::Signal => if function.params@.len() <= 1 {
                missing(c, function, 1, "event"@)
            } else {
                seal_fault(c, function, "`Ref.signal` event is a Unit"@)
            },
            RefMethod::Call => call_shape_fault(c, function),
            _ => ""@,
        }
    }
}

/// What is said of a function with a receiver that cannot be `Ref.call`.
pub open spec fn call_shape_fault(c: &EmitContext, function: &IRFunction) -> Seq<char> {
    if !has_param(function, 2, Kind::Int) {
        param_fault(c, function, 2, "timeout"@, Kind::Int)
    } else if !returns_result(c, function) {
        result_fault(c, function, "Ref.call"@)
    } else if c.payload(function.return_type->Enum_0, ERR_TAG).len() != 1 {
        seal_fault(c, function, "`Ref.call` returns an ill-shaped result"@)
    } else if c.symbol_of("Global.Process.CallError"@) is None {
        seal_fault(c, function, "`CallError` is not declared"@)
    } else {
        seal_fault(c, function, "`CallError` variants carry payloads"@)
    }
}

fn ill_shaped(c: &EmitContext, function: &IRFunction, what: &str) -> (r: LlvmError)
    ensures
        says(r, seal_fault(c, function, what@)),
{
    LlvmError::Codegen(concat3(what, ", IR seal invariant violation on ", c.name_of(function.symbol)))
}

/// Emits a `Ref` method.
pub fn emit_ref(c: &EmitContext, function: &IRFunction, f: &mut Body, method: RefMethod) -> (r: Result<
    (),
    LlvmError,
>)
    ensures
        match r {
            Ok(()) => ref_ok(c, function, method) && final(f)@ == ref_code(
                c,
                old(f)@,
                function,
                method,
            ),
            Err(e) => !ref_ok(c, function, method) && says(e, ref_fault(c, function, method))
                && final(f)@ == old(f)@,
        },
{
    proof {
        reveal(ref_ok);
        reveal(ref_code);
    }
    match method {
        RefMethod::SelfRef => match function.return_type {
            IRType::Struct(symbol) => emit_self_ref(f, symbol),
            _ => {
                return Err(ill_shaped(c, function, "`Ref.self_ref` does not return a struct"));
            },
        },
        RefMethod::AliveQ => {
            let _self = nth_struct(c, function, 0, "self")?;
            emit_alive(f, value_basic_type(function.params[0].ty));
        },
        RefMethod::Kill => {
            let _self = nth_struct(c, function, 0, "self")?;
            emit_kill(f, value_basic_type(function.params[0].ty));
        },
        RefMethod::Cast => {
            let _self = nth_struct(c, function, 0, "self")?;
            let _msg = nth_param(c, function, 1, "msg")?;
            emit_cast(c, f, value_basic_type(function.params[0].ty), function.params[1].ty);
        },
        RefMethod::SendAfter => {
            let _self = nth_struct(c, function, 0, "self")?;
            let _delay = nth_int(c, function, 2, "delay_ms")?;
            emit_send_after(c, f, value_basic_type(function.params[0].ty), function.params[1].ty);
        },
        RefMethod::Signal => {
            let _self = nth_struct(c, function, 0, "self")?;
            let _event = nth_param(c, function, 1, "event")?;
            if function.params[1].ty == IRType::Unit {
                return Err(ill_shaped(c, function, "`Ref.signal` event is a Unit"));
            }
            emit_signal(
                f,
                value_basic_type(function.params[0].ty),
                value_basic_type(function.params[1].ty),
            );
        },
        RefMethod::Call => {
            let _self = nth_struct(c, function, 0, "self")?;
            let _timeout = nth_int(c, function, 2, "timeout")?;
            let result = return_symbol(c, function, "Ref.call")?;
            if c.enum_variant_payload(result, ERR_TAG).len() != 1 {
                return Err(ill_shaped(c, function, "`Ref.call` returns an ill-shaped result"));
            }
            let reply_ty = match single_payload_type(c, result, OK_TAG) {
                Some(ty) => ty,
                None => {
                    return Err(ill_shaped(c, function, "`Ref.call` Ok has no single payload"));
                },
            };
            match c.symbol_named("Global.Process.CallError") {
                Some(call_error) => {
                    if c.enum_variant_payload(call_error, CALL_ERROR_TIMEOUT).len() != 0
                        || c.enum_variant_payload(call_error, CALL_ERROR_PROCESS_DOWN).len() != 0 {
                        return Err(ill_shaped(c, function, "`CallError` variants carry payloads"));
                    }
                    emit_call(
                        c,
                        f,
                        value_basic_type(function.params[0].ty),
                        function.params[1].ty,
                        reply_ty,
                        result,
                        call_error,
                    );
                },
                None => {
                    return Err(ill_shaped(c, function, "`CallError` is not declared"));
                },
            }
        },
    }
    Ok(())
}

/// The function can be `ReplyTo.send`.
#[verifier::opaque]
pub open spec fn reply_ok(c: &EmitContext, function: &IRFunction) -> bool {
    &&& has_param(function, 0, Kind::Aggregate)
    &&& function.params@.len() > 1
    &&& function.return_type matches IRType::Enum(d) && delivery(c, d) is Some
}

/// What is said of a function that cannot be `ReplyTo.send`.
pub open spec fn reply_fault(c: &EmitContext, function: &IRFunction) -> Seq<char> {
    if !has_param(function, 0, Kind::Aggregate) {
        param_fault(c, function, 0, "self"@, Kind::Aggregate)
    } else if function.params@.len() <= 1 {
        missing(c, function, 1, "reply"@)
    } else if !(function.return_type is Enum) {
        not_enum(c, function, "`ReplyTo.send`"@, function.return_type)
    } else {
        seal_fault(c, function, "`ReplyTo.send` returns an ill-shaped enum"@)
    }
}

/// Emits `ReplyTo.send` for a function.
pub fn emit_reply_to(c: &EmitContext, function: &IRFunction, f: &mut Body) -> (r: Result<(), LlvmError>)
    ensures
        match r {
            Ok(()) => reply_ok(c, function) && final(f)@ == reply_send_code(
                c,
                old(f)@,
                value_type(function.params@[0].ty),
                function.params@[1].ty,
                function.return_type->Enum_0,
                delivery(c, function.return_type->Enum_0)->0,
            ),
            Err(e) => !reply_ok(c, function) && says(e, reply_fault(c, function)) && final(f)@ == old(f)@,
        },
{
    proof {
        reveal(reply_ok);
    }
    let _self = nth_struct(c, function, 0, "self")?;
    let _reply = nth_param(c, function, 1, "reply")?;
    let symbol = expect_enum_symbol(c, function, function.return_type, "`ReplyTo.send`")?;
    match resolve_delivery(c, symbol) {
        Some(tags) => {
            emit_reply_send(
                c,
                f,
                value_basic_type(function.params[0].ty),
                function.params[1].ty,
                symbol,
                tags,
            );
            Ok(())
        },
        None => Err(ill_shaped(c, function, "`ReplyTo.send` returns an ill-shaped enum")),
    }
}

} // verus!
