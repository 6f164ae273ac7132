//! Process instructions, and the bodies of spawn and entry wrappers.
//!
//! A wrapper is what the scheduler calls: it loads the typed config out
//! of the pointer that it is given and calls the process body that its IR
//! body names. The entry wrapper also hands on the exit code.

use vstd::prelude::*;
use crate::ctx::EmitContext;
use crate::emit::frame::{undefined_block, undefined_local, undefined_value, Frame, Scope};
use crate::error::{says, LlvmError};
use crate::intrinsics::process::{
    drop_glue_code, payload_drop_glue, serialize_code, serialize_to_stack, NO_REPLY,
};
use crate::ir::{
    IRBasicBlock, IRFunction, IRInstruction, IRSymbol, IRType, ReceiveAfter, ReceiveArm,
};
use crate::llvm::{
    a0, a1, a2, a3, a4, call, call_fn, itest, num, Body, CastOp, Code, Inst, LType, Pred, Val,
};
use crate::runtime::Rt;
use crate::text::concat3;
use crate::types::{ir_basic_type, no_unit, value_basic_type, value_type};

verus! {

/// The callee of the first call among the instructions from the `i`-th
/// on.
pub open spec fn first_call(instructions: Seq<IRInstruction>, i: nat) -> Option<IRSymbol>
    decreases instructions.len() - i,
{
    if i >= instructions.len() {
        None
    } else {
        match instructions[i as int] {
            IRInstruction::Call { args, callee, dest } => Some(callee),
            _ => first_call(instructions, i + 1),
        }
    }
}

/// The callee of the first call in the blocks from the `i`-th on.
pub open spec fn first_call_in(blocks: Seq<IRBasicBlock>, i: nat) -> Option<IRSymbol>
    decreases blocks.len() - i,
{
    if i >= blocks.len() {
        None
    } else {
        match first_call(blocks[i as int].instructions@, 0) {
            Some(callee) => Some(callee),
            None => first_call_in(blocks, i + 1),
        }
    }
}

/// The process body that a wrapper's IR body calls.
pub fn wrapper_body_callee(function: &IRFunction) -> (r: Option<IRSymbol>)
    ensures
        r == first_call_in(function.blocks@, 0),
{
    let mut i: usize = 0;
    while i < function.blocks.len()
        invariant
            i <= function.blocks.len(),
            first_call_in(function.blocks@, 0) == first_call_in(function.blocks@, i as nat),
        decreases function.blocks.len() - i,
    {
        let instructions = &function.blocks[i].instructions;
        let mut j: usize = 0;
        while j < instructions.len()
            invariant
                i < function.blocks.len(),
                instructions@ == function.blocks@[i as int].instructions@,
                j <= instructions.len(),
                first_call_in(function.blocks@, 0) == first_call_in(function.blocks@, i as nat),
                first_call(instructions@, 0) == first_call(instructions@, j as nat),
            decreases instructions.len() - j,
        {
            match &instructions[j] {
                IRInstruction::Call { args: _, callee, dest: _ } => {
                    return Some(*callee);
                },
                _ => {},
            }
            j = j + 1;
        }
        i = i + 1;
    }
    None
}

/// The load of the config and the call of the process body, with what the
/// body returns.
pub open spec fn wrapper_shim_code(c: &EmitContext, s: Code, function: &IRFunction) -> Option<
    (Code, Option<Val>),
> {
    match first_call_in(function.blocks@, 0) {
        Some(callee) => match c.function_of(callee) {
            Some(k) => if function.params@.len() > 0 {
                Some(
                    (
                        s.i(Inst::Load(value_type(function.params@[0].ty), Val::Param(0))).i(
                            call_fn(k, a1(s.v(0))),
                        ),
                        if c.declared@[k as int].ret == LType::Void {
                            None
                        } else {
                            Some(s.v(1))
                        },
                    ),
                )
            } else {
                None
            },
            None => None,
        },
        None => None,
    }
}

fn ill_wrapped(c: &EmitContext, function: &IRFunction, what: &str) -> (r: LlvmError)
    ensures
        says(r, "wrapper `"@ + c.mangled(function.symbol) + what@),
{
    LlvmError::Codegen(concat3("wrapper `", c.name_of(function.symbol), what))
}

/// What is said of a wrapper that cannot be emitted.
pub open spec fn wrapper_fault(c: &EmitContext, function: &IRFunction) -> Seq<char> {
    "wrapper `"@ + c.mangled(function.symbol) + match first_call_in(function.blocks@, 0) {
        None => "` IR body carries no process-body call"@,
        Some(callee) => if c.function_of(callee) is None {
            "` process body is not declared"@
        } else {
            "` has no config parameter"@
        },
    }
}

/// Emits the load of the config and the call of the process body.
pub fn emit_wrapper_shim(c: &EmitContext, function: &IRFunction, f: &mut Body) -> (r: Result<
    Option<Val>,
    LlvmError,
>)
    ensures
        match r {
            Ok(v) => wrapper_shim_code(c, old(f)@, function) == Some((final(f)@, v)),
            Err(e) => wrapper_shim_code(c, old(f)@, function) is None && says(
                e,
                wrapper_fault(c, function),
            ),
        },
{
    let callee = match wrapper_body_callee(function) {
        Some(callee) => callee,
        None => {
            return Err(ill_wrapped(c, function, "` IR body carries no process-body call"));
        },
    };
    let k: usize = match c.declared_function(callee) {
        Some(k) => k,
        None => {
            return Err(ill_wrapped(c, function, "` process body is not declared"));
        },
    };
    if function.params.len() == 0 {
        return Err(ill_wrapped(c, function, "` has no config parameter"));
    }
    let config = f.ins(
        Inst::Load(value_basic_type(function.params[0].ty), Val::Param(0)),
    );
    let result = f.ins(call_fn(k, a1(config)));
    if c.declared[k].ret == LType::Void {
        Ok(None)
    } else {
        Ok(Some(result))
    }
}

/// The body of a spawn wrapper.
pub open spec fn spawn_wrapper_code(c: &EmitContext, s: Code, function: &IRFunction) -> Option<Code> {
    match wrapper_shim_code(c, s, function) {
        Some((t, _)) => Some(t.i(Inst::RetVoid)),
        None => None,
    }
}

/// Emits the body of a spawn wrapper.
pub fn emit_spawn_wrapper_body(c: &EmitContext, function: &IRFunction, f: &mut Body) -> (r: Result<
    (),
    LlvmError,
>)
    ensures
        match r {
            Ok(()) => spawn_wrapper_code(c, old(f)@, function) == Some(final(f)@),
            Err(e) => spawn_wrapper_code(c, old(f)@, function) is None && says(
                e,
                wrapper_fault(c, function),
            ),
        },
{
    let _result = emit_wrapper_shim(c, function, f)?;
    f.ins(Inst::RetVoid);
    Ok(())
}

/// The body of a process-entry wrapper: the exit code that the process
/// body returns is truncated and stored. A body that returns nothing has
/// no wrapper.
pub open spec fn entry_wrapper_code(c: &EmitContext, s: Code, function: &IRFunction) -> Option<Code> {
    match wrapper_shim_code(c, s, function) {
        Some((t, Some(code))) => Some(
            t.i(Inst::Cast(CastOp::Trunc, LType::I64, code, LType::I32))
                .i(Inst::Store(LType::I32, t.v(0), Val::ExitCode))
                .i(Inst::RetVoid),
        ),
        _ => None,
    }
}

/// What is said of a process-entry wrapper that cannot be emitted.
pub open spec fn entry_wrapper_fault(c: &EmitContext, s: Code, function: &IRFunction) -> Seq<char> {
    if wrapper_shim_code(c, s, function) is None {
        wrapper_fault(c, function)
    } else {
        "wrapper `"@ + c.mangled(function.symbol) + "` body call returned no exit code"@
    }
}

/// Emits the body of a process-entry wrapper.
pub fn emit_process_entry_wrapper_body(c: &EmitContext, function: &IRFunction, f: &mut Body) -> (r:
    Result<(), LlvmError>)
    ensures
        match r {
            Ok(()) => entry_wrapper_code(c, old(f)@, function) == Some(final(f)@),
            Err(e) => entry_wrapper_code(c, old(f)@, function) is None && says(
                e,
                entry_wrapper_fault(c, old(f)@, function),
            ),
        },
{
    match emit_wrapper_shim(c, function, f)? {
        Some(code) => {
            store_exit_code(f, code);
            f.ins(Inst::RetVoid);
            Ok(())
        },
        None => Err(ill_wrapped(c, function, "` body call returned no exit code")),
    }
}

/// Truncates an exit code and stores it.
fn store_exit_code(f: &mut Body, code: Val)
    ensures
        final(f)@ == old(f)@.i(Inst::Cast(CastOp::Trunc, LType::I64, code, LType::I32)).i(
            Inst::Store(LType::I32, old(f)@.v(0), Val::ExitCode),
        ),
{
    let narrow = f.ins(Inst::Cast(CastOp::Trunc, LType::I64, code, LType::I32));
    f.ins(Inst::Store(LType::I32, narrow, Val::ExitCode));
}

/// A spawn: the config goes to the runtime with its size and drop glue,
/// and the new pid comes back as a `Ref`.
pub open spec fn spawn_code(
    c: &EmitContext,
    s: Code,
    config: Val,
    config_type: IRType,
    ref_type: IRSymbol,
    wrapper: IRSymbol,
) -> Option<(Code, Val)> {
    match c.function_of(wrapper) {
        Some(k) => {
            let (t, glue) = drop_glue_code(c, serialize_code(s, config_type, config), config_type);
            Some(
                (
                    t.i(
                        call(
                            Rt::RtSpawn,
                            a4(
                                Val::Function(k),
                                s.sv(0),
                                num(c.abi(value_type(config_type))),
                                glue,
                            ),
                        ),
                    ).i(
                        Inst::Insert(LType::Struct(ref_type), Val::Undef, LType::I64, t.v(0), 0),
                    ),
                    t.v(1),
                ),
            )
        },
        None => None,
    }
}

/// What is said of a spawn whose wrapper is not declared.
pub open spec fn spawn_fault(c: &EmitContext, wrapper: IRSymbol) -> Seq<char> {
    "spawn target wrapper `"@ + c.mangled(wrapper) + "` not declared"@
}

/// Emits a spawn.
pub fn emit_spawn(
    c: &EmitContext,
    f: &mut Body,
    config: Val,
    config_type: IRType,
    ref_type: IRSymbol,
    wrapper: IRSymbol,
) -> (r: Result<Val, LlvmError>)
    ensures
        match r {
            Ok(v) => spawn_code(c, old(f)@, config, config_type, ref_type, wrapper) == Some(
                (final(f)@, v),
            ),
            Err(e) => spawn_code(c, old(f)@, config, config_type, ref_type, wrapper) is None && says(
                e,
                spawn_fault(c, wrapper),
            ),
        },
{
    let k: usize = match c.declared_function(wrapper) {
        Some(k) => k,
        None => {
            return Err(
                LlvmError::Codegen(
                    concat3("spawn target wrapper `", c.name_of(wrapper), "` not declared"),
                ),
            );
        },
    };
    let (ptr, size) = serialize_to_stack(c, f, config_type, config);
    let glue = payload_drop_glue(c, f, config_type);
    let pid = f.ins(call(Rt::RtSpawn, a4(Val::Function(k), ptr, size, glue)));
    Ok(f.ins(Inst::Insert(LType::Struct(ref_type), Val::Undef, LType::I64, pid, 0)))
}

/// Emits a change of the running process's scheduling weight.
pub fn emit_set_priority(f: &mut Body, level: Val)
    ensures
        final(f)@ == old(f)@.i(call(Rt::RtSetPriority, a1(level))),
{
    f.ins(call(Rt::RtSetPriority, a1(level)));
}

/// Emits a point at which the runtime may re-queue the process.
pub fn emit_yield_check(f: &mut Body)
    ensures
        final(f)@ == old(f)@.i(call(Rt::RtYieldCheck, a0())),
{
    f.ins(call(Rt::RtYieldCheck, a0()));
}

/// The size of the widest payload of the first `k` arms: none where one
/// is a `Unit`.
pub open spec fn widest(c: &EmitContext, arms: Seq<ReceiveArm>, k: nat) -> Option<u64>
    decreases k,
{
    if k == 0 {
        Some(0)
    } else {
        match widest(c, arms, (k - 1) as nat) {
            Some(w) => {
                let ty = arms[k - 1].payload_type;
                let size = c.abi(value_type(ty));
                if ty == IRType::Unit {
                    None
                } else if size > w {
                    Some(size)
                } else {
                    Some(w)
                }
            },
            None => None,
        }
    }
}

proof fn unsized_stays(c: &EmitContext, arms: Seq<ReceiveArm>, n: nat, m: nat)
    requires
        n <= m,
        widest(c, arms, n) is None,
    ensures
        widest(c, arms, m) is None,
    decreases m - n,
{
    if n < m {
        unsized_stays(c, arms, n, (m - 1) as nat);
    }
}

/// How many words hold so many bytes, at least one.
pub open spec fn words_for(bytes: u64) -> usize {
    (if bytes == 0 {
        1
    } else {
        (bytes - 1) / 8 + 1
    }) as usize
}

/// Measures the widest payload of some arms.
pub fn widest_payload(c: &EmitContext, arms: &Vec<ReceiveArm>) -> (r: Result<u64, LlvmError>)
    ensures
        match r {
            Ok(w) => widest(c, arms@, arms@.len()) == Some(w),
            Err(e) => widest(c, arms@, arms@.len()) is None && says(e, no_unit()),
        },
{
    let mut w: u64 = 0;
    let mut i: usize = 0;
    while i < arms.len()
        invariant
            i <= arms.len(),
            widest(c, arms@, i as nat) == Some(w),
        decreases arms.len() - i,
    {
        match ir_basic_type(arms[i].payload_type) {
            Ok(ty) => {
                let size: u64 = c.abi_size(ty);
                if size > w {
                    w = size;
                }
            },
            Err(e) => {
                proof {
                    unsized_stays(c, arms@, (i + 1) as nat, arms@.len());
                }
                return Err(e);
            },
        }
        i = i + 1;
    }
    Ok(w)
}

/// How many words hold so many bytes, at least one.
pub fn payload_words(bytes: u64) -> (r: usize)
    ensures
        r == words_for(bytes),
{
    if bytes == 0 {
        1
    } else {
        ((bytes - 1) / 8 + 1) as usize
    }
}

/// The dispatch over the first `k` arms: each test has a block that moves
/// the payload into the arm's local and goes to its body, and the next
/// test goes on behind it.
pub open spec fn arms_code(
    s: Code,
    sc: Scope,
    slot: Val,
    tag: Val,
    arms: Seq<ReceiveArm>,
    k: nat,
) -> Option<Code>
    decreases k,
{
    if k == 0 {
        Some(s)
    } else {
        let arm = arms[k - 1];
        match (
            arms_code(s, sc, slot, tag, arms, (k - 1) as nat),
            sc.local(arm.payload_local),
            sc.block(arm.body),
        ) {
            (Some(t), Some(local), Some(body)) => Some(
                t.i(itest(Pred::Eq, tag, num(arm.wire_byte as u64)))
                    .word("arm_prelude"@).word("arm_test"@)
                    .i(Inst::CondBr(t.v(0), t.b(0), t.b(1)))
                    .at(t.b(0))
                    .i(Inst::Load(value_type(arm.payload_type), slot))
                    .i(Inst::Store(value_type(arm.payload_type), t.v(2), local))
                    .i(Inst::Br(body))
                    .at(t.b(1)),
            ),
            _ => None,
        }
    }
}

proof fn failed_arms_stay(
    s: Code,
    sc: Scope,
    slot: Val,
    tag: Val,
    arms: Seq<ReceiveArm>,
    n: nat,
    m: nat,
)
    requires
        n <= m,
        arms_code(s, sc, slot, tag, arms, n) is None,
    ensures
        arms_code(s, sc, slot, tag, arms, m) is None,
    decreases m - n,
{
    if n < m {
        failed_arms_stay(s, sc, slot, tag, arms, n, (m - 1) as nat);
    }
}

/// What is said of an arm whose local or body is not there.
pub open spec fn arm_fault(sc: Scope, arm: ReceiveArm) -> Seq<char> {
    if sc.local(arm.payload_local) is None {
        undefined_local(arm.payload_local)
    } else {
        undefined_block(arm.body)
    }
}

/// What is said of the first arm from the `i`-th on that cannot be emitted.
pub open spec fn arms_fault(sc: Scope, arms: Seq<ReceiveArm>, i: nat) -> Seq<char>
    decreases arms.len() - i,
{
    if i >= arms.len() {
        ""@
    } else if sc.local(arms[i as int].payload_local) is None || sc.block(arms[i as int].body) is None {
        arm_fault(sc, arms[i as int])
    } else {
        arms_fault(sc, arms, i + 1)
    }
}

/// Emits the dispatch over the arms of a receive.
pub fn dispatch_arms(f: &mut Body, fr: &Frame, slot: Val, tag: Val, arms: &Vec<ReceiveArm>) -> (r:
    Result<(), LlvmError>)
    ensures
        match r {
            Ok(()) => arms_code(old(f)@, fr@, slot, tag, arms@, arms@.len()) matches Some(t)
                && final(f)@ == t.i(Inst::Unreachable),
            Err(e) => arms_code(old(f)@, fr@, slot, tag, arms@, arms@.len()) is None && says(
                e,
                arms_fault(fr@, arms@, 0),
            ),
        },
{
    let mut i: usize = 0;
    while i < arms.len()
        invariant
            i <= arms.len(),
            arms_code(old(f)@, fr@, slot, tag, arms@, i as nat) == Some(f@),
            arms_fault(fr@, arms@, 0) == arms_fault(fr@, arms@, i as nat),
        decreases arms.len() - i,
    {
        match emit_arm(f, fr, slot, tag, arms[i]) {
            Ok(()) => {},
            Err(e) => {
                proof {
                    failed_arms_stay(
                        old(f)@,
                        fr@,
                        slot,
                        tag,
                        arms@,
                        (i + 1) as nat,
                        arms@.len(),
                    );
                }
                return Err(e);
            },
        }
        i = i + 1;
    }
    f.ins(Inst::Unreachable);
    Ok(())
}

/// Emits the test of one arm and the move of its payload.
fn emit_arm(f: &mut Body, fr: &Frame, slot: Val, tag: Val, arm: ReceiveArm) -> (r: Result<
    (),
    LlvmError,
>)
    ensures
        ({
            let s = old(f)@;
            match r {
                Ok(()) => {
                    &&& fr@.local(arm.payload_local) matches Some(local)
                    &&& fr@.block(arm.body) matches Some(body)
                    &&& final(f)@ == s.i(itest(Pred::Eq, tag, num(arm.wire_byte as u64)))
                        .word("arm_prelude"@).word("arm_test"@)
                        .i(Inst::CondBr(s.v(0), s.b(0), s.b(1)))
                        .at(s.b(0))
                        .i(Inst::Load(value_type(arm.payload_type), slot))
                        .i(Inst::Store(value_type(arm.payload_type), s.v(2), local))
                        .i(Inst::Br(body))
                        .at(s.b(1))
                },
                Err(e) => says(e, arm_fault(fr@, arm)) && (fr@.local(arm.payload_local) is None
                    || fr@.block(arm.body) is None),
            }
        }),
{
    let local = fr.local_slot(arm.payload_local)?;
    let body: usize = fr.lookup_block(arm.body)?;
    let is_match = f.ins(itest(Pred::Eq, tag, num(arm.wire_byte as u64)));
    let prelude = f.block("arm_prelude");
    let next = f.block("arm_test");
    f.ins(Inst::CondBr(is_match, prelude, next));
    f.at(prelude);
    let ty = value_basic_type(arm.payload_type);
    let payload = f.ins(Inst::Load(ty, slot));
    f.ins(Inst::Store(ty, payload, local));
    f.ins(Inst::Br(body));
    f.at(next);
    Ok(())
}

/// A receive: the next message is copied into a slot that fits the widest
/// payload, and its tag picks the arm. With a timeout, no message in time
/// goes to the `after` body. A tag that no arm takes cannot occur.
pub open spec fn receive_code(
    c: &EmitContext,
    s: Code,
    sc: Scope,
    after: Option<ReceiveAfter>,
    arms: Seq<ReceiveArm>,
) -> Option<Code> {
    match widest(c, arms, arms.len()) {
        None => None,
        Some(w) => {
            let a = s.slot(LType::Words(words_for(w)));
            let dispatched = match after {
                None => arms_code(
                    a.i(call(Rt::RtReceive, a2(s.sv(0), num(w)))),
                    sc,
                    s.sv(0),
                    s.v(0),
                    arms,
                    arms.len(),
                ),
                Some(timed) => match (sc.value(timed.timeout), sc.block(timed.body)) {
                    (Some(timeout), Some(body)) => arms_code(
                        a.i(call(Rt::RtReceiveTimeout, a3(s.sv(0), num(w), timeout)))
                            .i(itest(Pred::Eq, s.v(0), num(NO_REPLY)))
                            .word("receive_dispatch"@)
                            .i(Inst::CondBr(s.v(1), body, s.b(0)))
                            .at(s.b(0)),
                        sc,
                        s.sv(0),
                        s.v(0),
                        arms,
                        arms.len(),
                    ),
                    _ => None,
                },
            };
            match dispatched {
                Some(t) => Some(t.i(Inst::Unreachable)),
                None => None,
            }
        },
    }
}

/// What is said of a receive that cannot be emitted.
pub open spec fn receive_fault(
    c: &EmitContext,
    sc: Scope,
    after: Option<ReceiveAfter>,
    arms: Seq<ReceiveArm>,
) -> Seq<char> {
    if widest(c, arms, arms.len()) is None {
        no_unit()
    } else {
        match after {
            Some(timed) => if sc.value(timed.timeout) is None {
                undefined_value(timed.timeout)
            } else if sc.block(timed.body) is None {
                undefined_block(timed.body)
            } else {
                arms_fault(sc, arms, 0)
            },
            None => arms_fault(sc, arms, 0),
        }
    }
}

/// Emits a receive.
pub fn emit_receive(
    c: &EmitContext,
    f: &mut Body,
    fr: &Frame,
    after: Option<ReceiveAfter>,
    arms: &Vec<ReceiveArm>,
) -> (r: Result<(), LlvmError>)
    ensures
        match r {
            Ok(()) => receive_code(c, old(f)@, fr@, after, arms@) == Some(final(f)@),
            Err(e) => receive_code(c, old(f)@, fr@, after, arms@) is None && says(
                e,
                receive_fault(c, fr@, after, arms@),
            ),
        },
{
    let w: u64 = widest_payload(c, arms)?;
    let slot = f.slot(LType::Words(payload_words(w)));
    let tag = match after {
        None => f.ins(call(Rt::RtReceive, a2(slot, num(w)))),
        Some(timed) => {
            let timeout = fr.lookup(timed.timeout)?;
            let body: usize = fr.lookup_block(timed.body)?;
            let tag = f.ins(call(Rt::RtReceiveTimeout, a3(slot, num(w), timeout)));
            let is_none = f.ins(itest(Pred::Eq, tag, num(NO_REPLY)));
            let dispatch = f.block("receive_dispatch");
            f.ins(Inst::CondBr(is_none, body, dispatch));
            f.at(dispatch);
            tag
        },
    };
    dispatch_arms(f, fr, slot, tag, arms)
}

} // verus!
