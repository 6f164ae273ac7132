//! Dispatch over instructions: each one goes to its emitter, and its
//! result is bound.

use vstd::prelude::*;
use crate::ctx::EmitContext;
use crate::emit::binary_match::{binary_match_code, emit_binary_match, match_fault};
use crate::emit::calls::{call_code, call_fault, emit_call};
use crate::emit::clone::{clone_code, emit_clone, needs_glue};
use crate::emit::closures::{
    call_closure_code, call_closure_fault, capture_fault, capture_of_fault, closure_equals_code,
    emit_call_closure, emit_closure_equals, emit_load_capture, emit_load_capture_of,
    emit_make_closure, load_capture_code, load_capture_of_code, make_closure_code,
    make_closure_fault,
};
use crate::emit::concat::{concat_code, emit_concat};
use crate::emit::deep_copy::{deep_copy_code, emit_deep_copy};
use crate::emit::enums::{
    emit_enum_construct, emit_enum_payload_field_get, emit_enum_tag_get, enum_construct_code,
    enum_construct_fault, enum_payload_field_get_code, enum_tag_get_code,
};
use crate::emit::frame::{undefined_local, undefined_value, Frame, Scope};
use crate::emit::indirect::{emit_indirect_present, indirect_present_code};
use crate::emit::locals::{
    drop_local_code, drop_local_fault, drop_value_code, emit_drop_local, emit_drop_value,
    emit_local_decl, emit_local_read, emit_local_write, local_decl_code,
};
use crate::emit::ops::{
    binary_op_code, binary_op_ok, emit_binary_op, emit_numeric_widen, emit_unary_op, no_widening,
    not_on_floats, not_on_strings, unary_op_code, unary_op_ok, widening,
};
use crate::emit::process::{
    emit_receive, emit_set_priority, emit_spawn, emit_yield_check, receive_code, receive_fault,
    spawn_code, spawn_fault,
};
use crate::emit::tuples::{
    emit_tuple_get, emit_tuple_init, tuple_get_code, tuple_get_fault, tuple_init_code,
    tuple_init_fault,
};
use crate::error::{says, LlvmError};
use crate::ir::{IRInstruction, ValueId};
use crate::llvm::{a0, a1, call, Body, Code, Inst, Val};
use crate::runtime::Rt;
use crate::types::value_type;

verus! {

/// The outcome of an instruction whose result is bound to `dest`.
pub open spec fn bound(sc: Scope, dest: ValueId, outcome: Option<(Code, Val)>) -> Option<
    (Code, Scope),
> {
    match outcome {
        Some((t, v)) => Some((t, sc.bind(dest, v))),
        None => None,
    }
}

/// The outcome of an instruction that binds nothing.
pub open spec fn unbound(sc: Scope, outcome: Option<Code>) -> Option<(Code, Scope)> {
    match outcome {
        Some(t) => Some((t, sc)),
        None => None,
    }
}

/// One instruction: its code and the scope behind it, or nothing where an
/// operand is not bound or the instruction is not defined on its types.
pub open spec fn instruction_code(
    c: &EmitContext,
    s: Code,
    sc: Scope,
    instruction: IRInstruction,
) -> Option<(Code, Scope)> {
    match instruction {
        IRInstruction::BinaryMatch { dest, layout, segments, subject } => match sc.value(subject) {
            Some(payload) => bound(
                sc,
                dest,
                binary_match_code(s, sc, layout, segments@, payload),
            ),
            None => None,
        },
        IRInstruction::BinaryOp { dest, lhs, op, operand_ty, rhs, texts } => match (
            sc.value(lhs),
            sc.value(rhs),
        ) {
            (Some(l), Some(r)) => if binary_op_ok(op, operand_ty) {
                bound(sc, dest, Some(binary_op_code(s, op, operand_ty, l, r, &texts)))
            } else {
                None
            },
            _ => None,
        },
        IRInstruction::Call { args, callee, dest } => bound(
            sc,
            dest,
            call_code(c, s, sc, args@, callee),
        ),
        IRInstruction::CallClosure { args, callee, dest, signature } => bound(
            sc,
            dest,
            call_closure_code(c, s, sc, callee, args@, signature),
        ),
        IRInstruction::Clone { dest, source, ty } => match sc.value(source) {
            Some(v) => match clone_code(s, ty, v) {
                Some(t) => Some((t, sc.bind(dest, v))),
                None => None,
            },
            None => None,
        },
        IRInstruction::ClosureEquals { dest, lhs, rhs, signature } => match (
            sc.value(lhs),
            sc.value(rhs),
        ) {
            (Some(l), Some(r)) => Some(
                (closure_equals_code(s, l, r, signature), sc.bind(dest, s.v(18))),
            ),
            _ => None,
        },
        IRInstruction::Concat { dest, kind, lhs, rhs } => match (sc.value(lhs), sc.value(rhs)) {
            (Some(l), Some(r)) => bound(sc, dest, Some(concat_code(s, kind, l, r))),
            _ => None,
        },
        IRInstruction::DeepCopy { dest, source, ty } => match sc.value(source) {
            Some(v) => bound(sc, dest, deep_copy_code(s, ty, v)),
            None => None,
        },
        IRInstruction::DropLocal { local, ty } => unbound(sc, drop_local_code(s, sc, local, ty)),
        IRInstruction::DropValue { ty, value } => match sc.value(value) {
            Some(v) => unbound(sc, drop_value_code(s, ty, v)),
            None => None,
        },
        IRInstruction::EnumConstruct { dest, payload, tag, ty } => bound(
            sc,
            dest,
            enum_construct_code(c, s, sc, payload, tag, ty),
        ),
        IRInstruction::EnumPayloadFieldGet { dest, payload_index, tag, ty, value } => match sc.value(
            value,
        ) {
            Some(v) => if payload_index < c.payload(ty, tag.0).len() {
                bound(
                    sc,
                    dest,
                    Some(enum_payload_field_get_code(c, s, payload_index, tag, ty, v)),
                )
            } else {
                None
            },
            None => None,
        },
        IRInstruction::EnumTagGet { dest, ty, value } => match sc.value(value) {
            Some(v) => Some((enum_tag_get_code(s, ty, v), sc.bind(dest, s.v(2)))),
            None => None,
        },
        IRInstruction::IndirectPresent { base, dest, slot } => match sc.value(base) {
            Some(v) => bound(sc, dest, Some(indirect_present_code(s, v, slot))),
            None => None,
        },
        IRInstruction::LoadCapture { capture_index, dest, ty } => bound(
            sc,
            dest,
            load_capture_code(s, sc, capture_index, ty),
        ),
        IRInstruction::LoadCaptureOf { capture_index, closure, dest, ty } => bound(
            sc,
            dest,
            load_capture_of_code(s, sc, closure, capture_index, ty),
        ),
        IRInstruction::LocalDecl { local, ty } => Some(local_decl_code(s, sc, local, ty)),
        IRInstruction::LocalRead { dest, local, ty } => match sc.local(local) {
            Some(slot) => Some(
                (s.i(Inst::Load(value_type(ty), slot)), sc.bind(dest, s.v(0))),
            ),
            None => None,
        },
        IRInstruction::LocalWrite { local, ty, value } => match (sc.value(value), sc.local(local)) {
            (Some(v), Some(slot)) => Some((s.i(Inst::Store(value_type(ty), v, slot)), sc)),
            _ => None,
        },
        IRInstruction::MakeClosure { body, captures, dest } => bound(
            sc,
            dest,
            make_closure_code(c, s, sc, body, captures@),
        ),
        IRInstruction::NumericWiden { dest, from, to, value } => match (
            sc.value(value),
            widening(from, to),
        ) {
            (Some(v), Some((op, ty))) => Some(
                (s.i(Inst::Cast(op, value_type(from), v, ty)), sc.bind(dest, s.v(0))),
            ),
            _ => None,
        },
        IRInstruction::Receive { after, arms } => unbound(sc, receive_code(c, s, sc, after, arms@)),
        IRInstruction::SetPriority { tag } => match sc.value(tag) {
            Some(v) => Some((s.i(call(Rt::RtSetPriority, a1(v))), sc)),
            None => None,
        },
        IRInstruction::Spawn { config, config_type, dest, ref_type, wrapper } => match sc.value(
            config,
        ) {
            Some(v) => bound(sc, dest, spawn_code(c, s, v, config_type, ref_type, wrapper)),
            None => None,
        },
        IRInstruction::TupleGet { base, dest, index, tuple } => match sc.value(base) {
            Some(v) => bound(sc, dest, tuple_get_code(c, s, v, index, tuple)),
            None => None,
        },
        IRInstruction::TupleInit { dest, elements, tuple } => bound(
            sc,
            dest,
            tuple_init_code(c, s, sc, elements@, tuple),
        ),
        IRInstruction::UnaryOp { dest, op, operand, operand_ty, texts } => match sc.value(operand) {
            Some(v) => if unary_op_ok(op, operand_ty) {
                bound(sc, dest, Some(unary_op_code(s, op, operand_ty, v, texts.overflow@)))
            } else {
                None
            },
            None => None,
        },
        IRInstruction::YieldCheck => Some((s.i(call(Rt::RtYieldCheck, a0())), sc)),
    }
}

/// What is said of the first of two values that was never bound.
pub open spec fn pair_fault(sc: Scope, lhs: ValueId, rhs: ValueId) -> Seq<char> {
    if sc.value(lhs) is None {
        undefined_value(lhs)
    } else {
        undefined_value(rhs)
    }
}

/// The operand that an instruction reads before anything else.
pub open spec fn operand_of(instruction: IRInstruction) -> Option<ValueId> {
    match instruction {
        IRInstruction::BinaryMatch { subject, .. } => Some(subject),
        IRInstruction::Clone { source, .. } => Some(source),
        IRInstruction::DeepCopy { source, .. } => Some(source),
        IRInstruction::DropValue { value, .. } => Some(value),
        IRInstruction::EnumPayloadFieldGet { value, .. } => Some(value),
        IRInstruction::EnumTagGet { value, .. } => Some(value),
        IRInstruction::IndirectPresent { base, .. } => Some(base),
        IRInstruction::LocalWrite { value, .. } => Some(value),
        IRInstruction::NumericWiden { value, .. } => Some(value),
        IRInstruction::SetPriority { tag } => Some(tag),
        IRInstruction::Spawn { config, .. } => Some(config),
        IRInstruction::TupleGet { base, .. } => Some(base),
        IRInstruction::UnaryOp { operand, .. } => Some(operand),
        _ => None,
    }
}

/// What is said of an instruction that cannot be emitted.
#[verifier::opaque]
pub open spec fn instruction_fault(
    c: &EmitContext,
    s: Code,
    sc: Scope,
    instruction: IRInstruction,
    e: LlvmError,
) -> bool {
    if operand_of(instruction) matches Some(id) && sc.value(id) is None {
        says(e, undefined_value(operand_of(instruction)->0))
    } else {
        match instruction {
            IRInstruction::BinaryMatch { layout, segments, subject, .. } => match_fault(
                s,
                sc,
                layout,
                segments@,
                sc.value(subject)->0,
                e,
            ),
            IRInstruction::BinaryOp { lhs, op, rhs, .. } => says(
                e,
                if sc.value(lhs) is None || sc.value(rhs) is None {
                    pair_fault(sc, lhs, rhs)
                } else {
                    not_on_strings(op)
                },
            ),
            IRInstruction::Call { args, callee, .. } => says(e, call_fault(c, sc, args@, callee)),
            IRInstruction::CallClosure { args, callee, .. } => says(
                e,
                call_closure_fault(sc, callee, args@),
            ),
            IRInstruction::Clone { ty, .. } => says(e, needs_glue(ty)),
            IRInstruction::ClosureEquals { lhs, rhs, .. } => says(e, pair_fault(sc, lhs, rhs)),
            IRInstruction::Concat { lhs, rhs, .. } => says(e, pair_fault(sc, lhs, rhs)),
            IRInstruction::DeepCopy { ty, .. } => says(e, needs_glue(ty)),
            IRInstruction::DropLocal { local, ty } => says(e, drop_local_fault(local, ty)),
            IRInstruction::DropValue { ty, .. } => says(e, needs_glue(ty)),
            IRInstruction::EnumConstruct { payload, ty, .. } => enum_construct_fault(
                c,
                sc,
                payload,
                ty,
                e,
            ),
            IRInstruction::EnumPayloadFieldGet { .. } => says(
                e,
                "enum payload field past the variant's fields"@,
            ),
            IRInstruction::LoadCapture { ty, .. } => says(e, capture_fault(ty)),
            IRInstruction::LoadCaptureOf { closure, ty, .. } => says(
                e,
                capture_of_fault(sc, closure, ty),
            ),
            IRInstruction::LocalRead { local, .. } => says(e, undefined_local(local)),
            IRInstruction::LocalWrite { local, .. } => says(e, undefined_local(local)),
            IRInstruction::MakeClosure { body, captures, .. } => says(
                e,
                make_closure_fault(c, sc, body, captures@),
            ),
            IRInstruction::NumericWiden { from, .. } => says(e, no_widening(from)),
            IRInstruction::Receive { after, arms } => says(e, receive_fault(c, sc, after, arms@)),
            IRInstruction::Spawn { wrapper, .. } => says(e, spawn_fault(c, wrapper)),
            IRInstruction::TupleGet { index, tuple, .. } => says(e, tuple_get_fault(c, index, tuple)),
            IRInstruction::TupleInit { elements, .. } => says(e, tuple_init_fault(sc, elements@)),
            IRInstruction::UnaryOp { .. } => says(e, not_on_floats()),
            _ => false,
        }
    }
}

/// Emits one instruction.
pub fn emit_instruction(c: &EmitContext, f: &mut Body, fr: &mut Frame, instruction: &IRInstruction) -> (r:
    Result<(), LlvmError>)
    ensures
        match r {
            Ok(()) => instruction_code(c, old(f)@, old(fr)@, *instruction) == Some(
                (final(f)@, final(fr)@),
            ),
            Err(e) => instruction_code(c, old(f)@, old(fr)@, *instruction) is None && e is Codegen
                && instruction_fault(c, old(f)@, old(fr)@, *instruction, e),
        },
{
    proof {
        reveal(instruction_fault);
    }
    match instruction {
        IRInstruction::BinaryMatch { dest, layout, segments, subject } => {
            let payload = fr.lookup(*subject)?;
            let v = emit_binary_match(f, fr, *layout, segments, payload)?;
            fr.bind(*dest, v);
        },
        IRInstruction::BinaryOp { dest, lhs, op, operand_ty, rhs, texts } => {
            let l = fr.lookup(*lhs)?;
            let r = fr.lookup(*rhs)?;
            let v = emit_binary_op(f, *op, *operand_ty, l, r, texts)?;
            fr.bind(*dest, v);
        },
        IRInstruction::Call { args, callee, dest } => {
            let v = emit_call(c, f, fr, args, *callee)?;
            fr.bind(*dest, v);
        },
        IRInstruction::CallClosure { args, callee, dest, signature } => {
            let v = emit_call_closure(c, f, fr, *callee, args, *signature)?;
            fr.bind(*dest, v);
        },
        IRInstruction::Clone { dest, source, ty } => {
            let v = fr.lookup(*source)?;
            let cloned = emit_clone(f, *ty, v)?;
            fr.bind(*dest, cloned);
        },
        IRInstruction::ClosureEquals { dest, lhs, rhs, signature } => {
            let l = fr.lookup(*lhs)?;
            let r = fr.lookup(*rhs)?;
            let v = emit_closure_equals(f, l, r, *signature);
            fr.bind(*dest, v);
        },
        IRInstruction::Concat { dest, kind, lhs, rhs } => {
            let l = fr.lookup(*lhs)?;
            let r = fr.lookup(*rhs)?;
            let v = emit_concat(f, *kind, l, r);
            fr.bind(*dest, v);
        },
        IRInstruction::DeepCopy { dest, source, ty } => {
            let v = fr.lookup(*source)?;
            let copy = emit_deep_copy(f, *ty, v)?;
            fr.bind(*dest, copy);
        },
        IRInstruction::DropLocal { local, ty } => {
            emit_drop_local(f, fr, *local, *ty)?;
        },
        IRInstruction::DropValue { ty, value } => {
            let v = fr.lookup(*value)?;
            emit_drop_value(f, *ty, v)?;
        },
        IRInstruction::EnumConstruct { dest, payload, tag, ty } => {
            let v = emit_enum_construct(c, f, fr, payload, *tag, *ty)?;
            fr.bind(*dest, v);
        },
        IRInstruction::EnumPayloadFieldGet { dest, payload_index, tag, ty, value } => {
            let v = fr.lookup(*value)?;
            if *payload_index >= c.enum_variant_payload(*ty, tag.0).len() {
                return Err(
                    LlvmError::Codegen("enum payload field past the variant's fields".to_owned()),
                );
            }
            let field = emit_enum_payload_field_get(c, f, *payload_index, *tag, *ty, v);
            fr.bind(*dest, field);
        },
        IRInstruction::EnumTagGet { dest, ty, value } => {
            let v = fr.lookup(*value)?;
            let tag = emit_enum_tag_get(f, *ty, v);
            fr.bind(*dest, tag);
        },
        IRInstruction::IndirectPresent { base, dest, slot } => {
            let v = fr.lookup(*base)?;
            let present = emit_indirect_present(f, v, *slot);
            fr.bind(*dest, present);
        },
        IRInstruction::LoadCapture { capture_index, dest, ty } => {
            let v = emit_load_capture(f, fr, *capture_index, *ty)?;
            fr.bind(*dest, v);
        },
        IRInstruction::LoadCaptureOf { capture_index, closure, dest, ty } => {
            let v = emit_load_capture_of(f, fr, *closure, *capture_index, *ty)?;
            fr.bind(*dest, v);
        },
        IRInstruction::LocalDecl { local, ty } => {
            emit_local_decl(f, fr, *local, *ty);
        },
        IRInstruction::LocalRead { dest, local, ty } => {
            let v = emit_local_read(f, fr, *local, *ty)?;
            fr.bind(*dest, v);
        },
        IRInstruction::LocalWrite { local, ty, value } => {
            let v = fr.lookup(*value)?;
            emit_local_write(f, fr, *local, *ty, v)?;
        },
        IRInstruction::MakeClosure { body, captures, dest } => {
            let v = emit_make_closure(c, f, fr, *body, captures)?;
            fr.bind(*dest, v);
        },
        IRInstruction::NumericWiden { dest, from, to, value } => {
            let v = fr.lookup(*value)?;
            let wide = emit_numeric_widen(f, *from, *to, v)?;
            fr.bind(*dest, wide);
        },
        IRInstruction::Receive { after, arms } => {
            emit_receive(c, f, fr, *after, arms)?;
        },
        IRInstruction::SetPriority { tag } => {
            let v = fr.lookup(*tag)?;
            emit_set_priority(f, v);
        },
        IRInstruction::Spawn { config, config_type, dest, ref_type, wrapper } => {
            let v = fr.lookup(*config)?;
            let spawned = emit_spawn(c, f, v, *config_type, *ref_type, *wrapper)?;
            fr.bind(*dest, spawned);
        },
        IRInstruction::TupleGet { base, dest, index, tuple } => {
            let v = fr.lookup(*base)?;
            let element = emit_tuple_get(c, f, v, *index, *tuple)?;
            fr.bind(*dest, element);
        },
        IRInstruction::TupleInit { dest, elements, tuple } => {
            let v = emit_tuple_init(c, f, fr, elements, *tuple)?;
            fr.bind(*dest, v);
        },
        IRInstruction::UnaryOp { dest, op, operand, operand_ty, texts } => {
            let v = fr.lookup(*operand)?;
            let result = emit_unary_op(f, *op, *operand_ty, v, texts.overflow.as_str())?;
            fr.bind(*dest, result);
        },
        IRInstruction::YieldCheck => {
            emit_yield_check(f);
        },
    }
    Ok(())
}

/// The first `k` instructions from the `i`-th on.
pub open spec fn instructions_code(
    c: &EmitContext,
    s: Code,
    sc: Scope,
    instructions: Seq<IRInstruction>,
    i: nat,
    k: nat,
) -> Option<(Code, Scope)>
    decreases k,
{
    if k == 0 {
        Some((s, sc))
    } else {
        match instructions_code(c, s, sc, instructions, i, (k - 1) as nat) {
            Some((t, tc)) => instruction_code(c, t, tc, instructions[i + k - 1]),
            None => None,
        }
    }
}

proof fn failed_instructions_stay(
    c: &EmitContext,
    s: Code,
    sc: Scope,
    instructions: Seq<IRInstruction>,
    i: nat,
    n: nat,
    m: nat,
)
    requires
        n <= m,
        instructions_code(c, s, sc, instructions, i, n) is None,
    ensures
        instructions_code(c, s, sc, instructions, i, m) is None,
    decreases m - n,
{
    if n < m {
        failed_instructions_stay(c, s, sc, instructions, i, n, (m - 1) as nat);
    }
}

/// What is said of instructions that cannot be emitted: what is said of the
/// first of them that cannot.
pub open spec fn instructions_fault(
    c: &EmitContext,
    s: Code,
    sc: Scope,
    instructions: Seq<IRInstruction>,
    i: nat,
    k: nat,
    e: LlvmError,
) -> bool {
    exists|n: nat| #[trigger] fails_at(c, s, sc, instructions, i, k, n, e)
}

/// The instructions before the `n`-th can be emitted, and it cannot.
pub open spec fn fails_at(
    c: &EmitContext,
    s: Code,
    sc: Scope,
    instructions: Seq<IRInstruction>,
    i: nat,
    k: nat,
    n: nat,
    e: LlvmError,
) -> bool {
    n < k && match instructions_code(c, s, sc, instructions, i, n) {
        Some((t, tc)) => instruction_code(c, t, tc, instructions[(i + n) as int]) is None
            && instruction_fault(c, t, tc, instructions[(i + n) as int], e),
        None => false,
    }
}

/// Emits the instructions from the `from`-th up to the `to`-th.
#[verifier::spinoff_prover]
#[verifier::rlimit(60)]
pub fn emit_instructions(
    c: &EmitContext,
    f: &mut Body,
    fr: &mut Frame,
    instructions: &Vec<IRInstruction>,
    from: usize,
    to: usize,
) -> (r: Result<(), LlvmError>)
    requires
        from <= to <= instructions@.len(),
    ensures
        match r {
            Ok(()) => instructions_code(
                c,
                old(f)@,
                old(fr)@,
                instructions@,
                from as nat,
                (to - from) as nat,
            ) == Some((final(f)@, final(fr)@)),
            Err(e) => instructions_code(
                c,
                old(f)@,
                old(fr)@,
                instructions@,
                from as nat,
                (to - from) as nat,
            ) is None && e is Codegen && instructions_fault(
                c,
                old(f)@,
                old(fr)@,
                instructions@,
                from as nat,
                (to - from) as nat,
                e,
            ),
        },
{
    let mut i: usize = from;
    while i < to
        invariant
            from <= i <= to <= instructions@.len(),
            instructions_code(
                c,
                old(f)@,
                old(fr)@,
                instructions@,
                from as nat,
                (i - from) as nat,
            ) == Some((f@, fr@)),
        decreases to - i,
    {
        match emit_instruction(c, f, fr, &instructions[i]) {
            Ok(()) => {},
            Err(e) => {
                proof {
                    assert(fails_at(
                        c,
                        old(f)@,
                        old(fr)@,
                        instructions@,
                        from as nat,
                        (to - from) as nat,
                        (i - from) as nat,
                        e,
                    ));
                    failed_instructions_stay(
                        c,
                        old(f)@,
                        old(fr)@,
                        instructions@,
                        from as nat,
                        (i - from + 1) as nat,
                        (to - from) as nat,
                    );
                }
                return Err(e);
            },
        }
        i = i + 1;
    }
    Ok(())
}

} // verus!
