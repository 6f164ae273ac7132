//! Dispatch over intrinsics: each id goes to the emitter of its body.

use vstd::prelude::*;
use crate::ctx::EmitContext;
use crate::error::{says, LlvmError};
use crate::intrinsics::binary::{
    binary_code, binary_fault, binary_ok, bits_code, bits_fault, bits_ok, emit_binary, emit_bits,
};
use crate::intrinsics::bitwise::{bitwise_code, bitwise_ok, emit_bitwise};
use crate::intrinsics::cptr::{cptr_code, cptr_fault, cptr_ok, emit_cptr};
use crate::intrinsics::cstring::{cstring_fault, cstring_ok, emit_to_string, to_string_code};
use crate::intrinsics::debug::{emit_format, format_code, format_kind};
use crate::intrinsics::equality::{emit_eq, eq_code, eq_fault, eq_ok};
use crate::intrinsics::hash::{emit_hash, hash_code, hash_kind};
use crate::intrinsics::kernel::{emit_adopt_binary, emit_panic};
use crate::intrinsics::list::{emit_list, list_code, list_fault, list_ok, list_receiver};
use crate::intrinsics::map::{emit_map, map_code, map_fault, map_ok, map_receiver};
use crate::intrinsics::numeric::{convert_code, convert_fault, convert_ok, emit_numeric_convert};
use crate::intrinsics::params::{has_param, missing, param_fault};
use crate::intrinsics::parse::{emit_parse, parse_code, parse_fault, parse_ok};
use crate::intrinsics::process::{
    delivery, emit_ref, emit_reply_to, ref_code, ref_fault, ref_ok, reply_fault, reply_ok,
    reply_send_code,
};
use crate::intrinsics::set::{emit_set, set_code, set_fault, set_ok, set_receiver};
use crate::intrinsics::socket::{emit_socket, socket_code, socket_fault, socket_ok};
use crate::intrinsics::string::{emit_string, string_code, string_fault, string_ok};
use crate::ir::{IRFunction, IRIntrinsicId, IRType};
use crate::llvm::{a1, call, Body, Code, Inst, LType, Val};
use crate::runtime::Rt;
use crate::types::{value_type, Kind};

verus! {

/// The function has the shape that its intrinsic asks for.
pub open spec fn intrinsic_ok(c: &EmitContext, function: &IRFunction, id: IRIntrinsicId) -> bool {
    match id {
        IRIntrinsicId::AdoptBinary => has_param(function, 0, Kind::Pointer),
        IRIntrinsicId::Binary(m) => binary_ok(c, function, m),
        IRIntrinsicId::Bits(m) => bits_ok(c, function, m),
        IRIntrinsicId::Bitwise(op, _) => bitwise_ok(function, op),
        IRIntrinsicId::CPtr(m) => cptr_ok(c, function, m),
        IRIntrinsicId::CString => cstring_ok(c, function),
        IRIntrinsicId::Debug(d) => has_param(function, 0, format_kind(d)),
        IRIntrinsicId::Equality(e) => eq_ok(function, e),
        IRIntrinsicId::Hash(h) => has_param(function, 0, hash_kind(h)),
        IRIntrinsicId::KernelPanic => function.params@.len() > 0,
        IRIntrinsicId::List(m) => list_ok(c, function, m),
        IRIntrinsicId::MapOf(m) => map_ok(c, function, m),
        IRIntrinsicId::NumericConvert(n) => convert_ok(c, function, n),
        IRIntrinsicId::Parse(_) => parse_ok(c, function),
        IRIntrinsicId::Ref(m) => ref_ok(c, function, m),
        IRIntrinsicId::ReplyToSend => reply_ok(c, function),
        IRIntrinsicId::SetOf(m) => set_ok(c, function, m),
        IRIntrinsicId::Socket(m) => socket_ok(c, function, m),
        IRIntrinsicId::String(m) => string_ok(c, function, m),
    }
}

/// The body of an intrinsic.
pub open spec fn intrinsic_code(
    c: &EmitContext,
    s: Code,
    function: &IRFunction,
    id: IRIntrinsicId,
) -> Code {
    match id {
        IRIntrinsicId::AdoptBinary => s.i(Inst::Ret(LType::Ptr, Val::Param(0))),
        IRIntrinsicId::Binary(m) => binary_code(c, s, function, m),
        IRIntrinsicId::Bits(m) => bits_code(c, s, function, m),
        IRIntrinsicId::Bitwise(op, signed) => bitwise_code(s, function, op, signed),
        IRIntrinsicId::CPtr(m) => cptr_code(c, s, function, m),
        IRIntrinsicId::CString => to_string_code(
            c,
            s,
            value_type(function.params@[0].ty),
            function.return_type->Enum_0,
        ),
        IRIntrinsicId::Debug(d) => format_code(s, function, d),
        IRIntrinsicId::Equality(e) => eq_code(s, function, e),
        IRIntrinsicId::Hash(h) => hash_code(s, function, h),
        IRIntrinsicId::KernelPanic => s.i(call(Rt::Panic, a1(Val::Param(0)))).i(
            Inst::Unreachable,
        ),
        IRIntrinsicId::List(m) => match list_receiver(function, m) {
            Some(IRType::List(t)) => list_code(c, s, function, m, c.node(t)),
            _ => s,
        },
        IRIntrinsicId::MapOf(m) => match map_receiver(function, m) {
            Some(IRType::MapOf(k, v)) => map_code(c, s, function, m, c.node(k), c.node(v)),
            _ => s,
        },
        IRIntrinsicId::NumericConvert(n) => convert_code(c, s, function, n),
        IRIntrinsicId::Parse(t) => parse_code(c, s, t, function.return_type->Enum_0),
        IRIntrinsicId::Ref(m) => ref_code(c, s, function, m),
        IRIntrinsicId::ReplyToSend => reply_send_code(
            c,
            s,
            value_type(function.params@[0].ty),
            function.params@[1].ty,
            function.return_type->Enum_0,
            delivery(c, function.return_type->Enum_0)->0,
        ),
        IRIntrinsicId::SetOf(m) => match set_receiver(function, m) {
            Some(IRType::SetOf(t)) => set_code(c, s, function, m, c.node(t)),
            _ => s,
        },
        IRIntrinsicId::Socket(m) => socket_code(c, s, function, m),
        IRIntrinsicId::String(m) => string_code(c, s, function, m),
    }
}

/// What is said of a function that cannot be the intrinsic.
pub open spec fn intrinsic_fault(c: &EmitContext, function: &IRFunction, id: IRIntrinsicId) -> Seq<char> {
    match id {
        IRIntrinsicId::AdoptBinary => param_fault(c, function, 0, "self"@, Kind::Pointer),
        IRIntrinsicId::Binary(m) => binary_fault(c, function, m),
        IRIntrinsicId::Bits(m) => bits_fault(c, function, m),
        IRIntrinsicId::Bitwise(_, _) => if has_param(function, 0, Kind::Int) {
            param_fault(c, function, 1, "other"@, Kind::Int)
        } else {
            param_fault(c, function, 0, "self"@, Kind::Int)
        },
        IRIntrinsicId::CPtr(m) => cptr_fault(c, function, m),
        IRIntrinsicId::CString => cstring_fault(c, function),
        IRIntrinsicId::Debug(d) => param_fault(c, function, 0, "self"@, format_kind(d)),
        IRIntrinsicId::Equality(e) => eq_fault(c, function, e),
        IRIntrinsicId::Hash(h) => param_fault(c, function, 0, "self"@, hash_kind(h)),
        IRIntrinsicId::KernelPanic => missing(c, function, 0, "message"@),
        IRIntrinsicId::List(m) => list_fault(c, function, m),
        IRIntrinsicId::MapOf(m) => map_fault(c, function, m),
        IRIntrinsicId::NumericConvert(n) => convert_fault(c, function, n),
        IRIntrinsicId::Parse(_) => parse_fault(c, function),
        IRIntrinsicId::Ref(m) => ref_fault(c, function, m),
        IRIntrinsicId::ReplyToSend => reply_fault(c, function),
        IRIntrinsicId::SetOf(m) => set_fault(c, function, m),
        IRIntrinsicId::Socket(m) => socket_fault(c, function, m),
        IRIntrinsicId::String(m) => string_fault(c, function, m),
    }
}

/// Emits the body of an intrinsic.
pub fn emit_intrinsic_body(
    c: &EmitContext,
    function: &IRFunction,
    f: &mut Body,
    id: IRIntrinsicId,
) -> (r: Result<(), LlvmError>)
    ensures
        match r {
            Ok(()) => intrinsic_ok(c, function, id) && final(f)@ == intrinsic_code(
                c,
                old(f)@,
                function,
                id,
            ),
            Err(e) => !intrinsic_ok(c, function, id) && says(e, intrinsic_fault(c, function, id))
                && final(f)@ == old(f)@,
        },
{
    match id {
        IRIntrinsicId::AdoptBinary => emit_adopt_binary(c, function, f),
        IRIntrinsicId::Binary(m) => emit_binary(c, function, f, m),
        IRIntrinsicId::Bits(m) => emit_bits(c, function, f, m),
        IRIntrinsicId::Bitwise(op, signed) => emit_bitwise(c, function, f, op, signed),
        IRIntrinsicId::CPtr(m) => emit_cptr(c, function, f, m),
        IRIntrinsicId::CString => emit_to_string(c, function, f),
        IRIntrinsicId::Debug(d) => emit_format(c, function, f, d),
        IRIntrinsicId::Equality(e) => emit_eq(c, function, f, e),
        IRIntrinsicId::Hash(h) => emit_hash(c, function, f, h),
        IRIntrinsicId::KernelPanic => emit_panic(c, function, f),
        IRIntrinsicId::List(m) => emit_list(c, function, f, m),
        IRIntrinsicId::MapOf(m) => emit_map(c, function, f, m),
        IRIntrinsicId::NumericConvert(n) => emit_numeric_convert(c, function, f, n),
        IRIntrinsicId::Parse(t) => emit_parse(c, function, f, t),
        IRIntrinsicId::Ref(m) => emit_ref(c, function, f, m),
        IRIntrinsicId::ReplyToSend => emit_reply_to(c, function, f),
        IRIntrinsicId::SetOf(m) => emit_set(c, function, f, m),
        IRIntrinsicId::Socket(m) => emit_socket(c, function, f, m),
        IRIntrinsicId::String(m) => emit_string(c, function, f, m),
    }
}

} // verus!
