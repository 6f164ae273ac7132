//! `String` methods. Those that count or cut codepoints go to the
//! runtime; the rest works on the payload layout.

use vstd::prelude::*;
use crate::ctx::EmitContext;
use crate::emit::enums::{build_single_value, build_unit_value, enum_value_code};
use crate::emit::heap_layout::{load_bit_length, load_bit_length_code, rc_inc_code};
use crate::error::{says, LlvmError};
use crate::intrinsics::hashtable::read::{OPTION_NONE, OPTION_SOME};
use crate::intrinsics::heap_payload::{nul_code, pointer_param, share_heap_payload, store_nul};
use crate::intrinsics::map::{is_option, option_shape};
use crate::intrinsics::params::{expect_enum_symbol, has_param, missing, not_enum, nth_param, nth_struct, param_fault};
use crate::intrinsics::result::{
    resolve_unit_error, result_fault, ret_ok, ret_ok_code, ret_unit_error, ret_unit_error_code,
    return_symbol, returns_result, single_payload, single_payload_type, unit_error,
    unit_error_fault, OK_TAG,
};
use crate::ir::{IRFunction, IRSymbol, IRType, IRVariantTag, StringMethod};
use crate::llvm::{
    a1, a2, a3, call, iadd, ilshr, is_null, itest, num, Body, Code, Inst, LType, Pred, Val,
};
use crate::runtime::Rt;
use crate::text::concat3;
use crate::types::{value_basic_type, value_type, Kind};

verus! {

/// The byte count of the receiver: its bit length over eight.
pub open spec fn byte_length_code(s: Code) -> Code {
    load_bit_length_code(s, Val::Param(0)).i(ilshr(s.v(1), 3))
}

/// Loads the byte count of the receiver.
pub fn load_byte_count(f: &mut Body) -> (r: Val)
    ensures
        final(f)@ == byte_length_code(old(f)@),
        r == old(f)@.v(2),
{
    let bits = load_bit_length(f, Val::Param(0));
    f.ins(ilshr(bits, 3))
}

/// A slice by the two fields of a `Range`: the helper clamps.
pub open spec fn slice_code(s: Code, range: LType, helper: Rt) -> Code {
    s.i(Inst::Extract(range, Val::Param(1), 0))
        .i(Inst::Extract(range, Val::Param(1), 1))
        .i(call(helper, a3(Val::Param(0), s.v(0), s.v(1))))
        .i(Inst::Ret(LType::Ptr, s.v(2)))
}

/// Emits a slice by the two fields of a `Range`.
pub fn emit_slice(f: &mut Body, range: LType, helper: Rt)
    ensures
        final(f)@ == slice_code(old(f)@, range, helper),
{
    let start = f.ins(Inst::Extract(range, Val::Param(1), 0));
    let stop = f.ins(Inst::Extract(range, Val::Param(1), 1));
    let sliced = f.ins(call(helper, a3(Val::Param(0), start, stop)));
    f.ins(Inst::Ret(LType::Ptr, sliced));
}

/// `String.get`: the helper's string, or `None` where it answers null.
/// The blocks are some and none.
pub open spec fn get_code(c: &EmitContext, s: Code, option: IRSymbol) -> Code {
    let (w, some) = enum_value_code(
        c,
        s.i(call(Rt::StringGet, a2(Val::Param(0), Val::Param(1))))
            .i(is_null(s.v(0)))
            .word("some"@).word("none"@)
            .i(Inst::CondBr(s.v(1), s.b(1), s.b(0)))
            .at(s.b(0)),
        option,
        IRVariantTag(OPTION_SOME),
        seq![s.v(0)],
    );
    let (n, none) = enum_value_code(
        c,
        w.i(Inst::Ret(LType::Enum(option), some)).at(s.b(1)),
        option,
        IRVariantTag(OPTION_NONE),
        seq![],
    );
    n.i(Inst::Ret(LType::Enum(option), none))
}

/// Emits `String.get`.
pub fn emit_get(c: &EmitContext, f: &mut Body, option: IRSymbol)
    requires
        option_shape(c, option),
    ensures
        final(f)@ == get_code(c, old(f)@, option),
{
    let raw = f.ins(call(Rt::StringGet, a2(Val::Param(0), Val::Param(1))));
    let null = f.ins(is_null(raw));
    let some_bb = f.block("some");
    let none_bb = f.block("none");
    f.ins(Inst::CondBr(null, none_bb, some_bb));
    f.at(some_bb);
    let some = build_single_value(c, f, option, IRVariantTag(OPTION_SOME), raw);
    f.ins(Inst::Ret(LType::Enum(option), some));
    f.at(none_bb);
    let none = build_unit_value(c, f, option, IRVariantTag(OPTION_NONE));
    f.ins(Inst::Ret(LType::Enum(option), none));
}

/// A NUL-terminated copy of the receiver as a `CString` struct, returned
/// as `Ok`.
pub open spec fn cstring_success_code(
    c: &EmitContext,
    s: Code,
    result: IRSymbol,
    ty: LType,
    byte_len: Val,
) -> Code {
    let b = nul_code(
        s.i(iadd(byte_len, num(1)))
            .i(call(Rt::Malloc, a1(s.v(0))))
            .i(call(Rt::Memcpy, a3(s.v(1), Val::Param(0), byte_len))),
        s.v(1),
        byte_len,
    );
    ret_ok_code(
        c,
        b.i(Inst::Alloca(ty))
            .i(Inst::Field(ty, b.v(0), 0))
            .i(Inst::Store(LType::Ptr, s.v(1), b.v(1)))
            .i(Inst::Field(ty, b.v(0), 1))
            .i(Inst::Store(LType::I64, byte_len, b.v(3)))
            .i(Inst::Load(ty, b.v(0))),
        result,
        b.v(5),
    )
}

/// Emits the success path of `String.to_cstring`.
pub fn emit_cstring_success(
    c: &EmitContext,
    f: &mut Body,
    result: IRSymbol,
    ty: LType,
    byte_len: Val,
)
    requires
        c.payload(result, OK_TAG).len() == 1,
    ensures
        final(f)@ == cstring_success_code(c, old(f)@, result, ty, byte_len),
{
    let size = f.ins(iadd(byte_len, num(1)));
    let buf = f.ins(call(Rt::Malloc, a1(size)));
    f.ins(call(Rt::Memcpy, a3(buf, Val::Param(0), byte_len)));
    store_nul(f, buf, byte_len);
    let slot = f.ins(Inst::Alloca(ty));
    let ptr_field = f.ins(Inst::Field(ty, slot, 0));
    f.ins(Inst::Store(LType::Ptr, buf, ptr_field));
    let len_field = f.ins(Inst::Field(ty, slot, 1));
    f.ins(Inst::Store(LType::I64, byte_len, len_field));
    let cstring = f.ins(Inst::Load(ty, slot));
    ret_ok(c, f, result, cstring);
}

/// `String.to_cstring`: a string with a NUL inside is refused. The blocks
/// are refused and valid.
pub open spec fn to_cstring_code(c: &EmitContext, s: Code, result: IRSymbol, ty: LType) -> Code {
    let t = byte_length_code(s)
        .i(call(Rt::StringContainsNul, a1(Val::Param(0))))
        .i(itest(Pred::Ne, s.v(3), num(0)))
        .word("interior_nul"@).word("valid"@)
        .i(Inst::CondBr(s.v(4), s.b(0), s.b(1)))
        .at(s.b(0));
    cstring_success_code(
        c,
        ret_unit_error_code(c, t, result, unit_error(c, result, "InteriorNul"@)->0).at(s.b(1)),
        result,
        ty,
        s.v(2),
    )
}

/// Emits `String.to_cstring`.
pub fn emit_to_cstring(
    c: &EmitContext,
    f: &mut Body,
    result: IRSymbol,
    ty: LType,
    error: (IRSymbol, IRVariantTag),
)
    requires
        c.payload(result, OK_TAG).len() == 1,
        unit_error(c, result, "InteriorNul"@) == Some(error),
    ensures
        final(f)@ == to_cstring_code(c, old(f)@, result, ty),
{
    let byte_len = load_byte_count(f);
    let has_nul = f.ins(call(Rt::StringContainsNul, a1(Val::Param(0))));
    let rejected = f.ins(itest(Pred::Ne, has_nul, num(0)));
    let invalid_bb = f.block("interior_nul");
    let valid_bb = f.block("valid");
    f.ins(Inst::CondBr(rejected, invalid_bb, valid_bb));
    f.at(invalid_bb);
    ret_unit_error(c, f, result, error);
    f.at(valid_bb);
    emit_cstring_success(c, f, result, ty, byte_len);
}

/// The function can be the method.
#[verifier::opaque]
pub open spec fn string_ok(c: &EmitContext, function: &IRFunction, method: StringMethod) -> bool {
    has_param(function, 0, Kind::Pointer) && match method {
        StringMethod::ByteLength | StringMethod::Length | StringMethod::ToBinary => true,
        StringMethod::Slice => has_param(function, 1, Kind::Aggregate),
        StringMethod::Get => function.params@.len() > 1 && (function.return_type matches IRType::Enum(
            o,
        ) && option_shape(c, o)),
        StringMethod::ToCstring => returns_result(c, function) && (function.return_type matches IRType::Enum(
            r,
        ) && single_payload(c, r, OK_TAG)->0 is Struct && unit_error(c, r, "InteriorNul"@) is Some),
    }
}

/// The body of a `String` method.
#[verifier::opaque]
pub open spec fn string_code(
    c: &EmitContext,
    s: Code,
    function: &IRFunction,
    method: StringMethod,
) -> Code {
    match method {
        StringMethod::ByteLength => byte_length_code(s).i(Inst::Ret(LType::I64, s.v(2))),
        StringMethod::Get => get_code(c, s, function.return_type->Enum_0),
        StringMethod::Length => s.i(call(Rt::StringLength, a1(Val::Param(0)))).i(
            Inst::Ret(LType::I64, s.v(0)),
        ),
        StringMethod::Slice => slice_code(s, value_type(function.params@[1].ty), Rt::StringSlice),
        StringMethod::ToBinary => rc_inc_code(s, Val::Param(0)).i(
            Inst::Ret(LType::Ptr, Val::Param(0)),
        ),
        StringMethod::ToCstring => {
            let result = function.return_type->Enum_0;
            to_cstring_code(c, s, result, value_type(single_payload(c, result, OK_TAG)->0))
        },
    }
}

/// What is said of an ill-shaped function.
pub open spec fn shape_fault(c: &EmitContext, function: &IRFunction, what: Seq<char>) -> Seq<char> {
    what + " on "@ + c.mangled(function.symbol)
}

fn ill_shaped(c: &EmitContext, function: &IRFunction, what: &str) -> (r: LlvmError)
    ensures
        says(r, shape_fault(c, function, what@)),
{
    LlvmError::Codegen(concat3(what, " on ", c.name_of(function.symbol)))
}

/// What is said of a function that cannot be the `String` method.
pub open spec fn string_fault(c: &EmitContext, function: &IRFunction, method: StringMethod) -> Seq<char> {
    if !has_param(function, 0, Kind::Pointer) {
        param_fault(c, function, 0, "self"@, Kind::Pointer)
    } else {
        match method {
            StringMethod::Get => if function.params@.len() <= 1 {
                missing(c, function, 1, "index"@)
            } else if !(function.return_type is Enum) {
                not_enum(c, function, "String.get"@, function.return_type)
            } else {
                shape_fault(c, function, "String.get returns an ill-shaped option"@)
            },
            StringMethod::Slice => param_fault(c, function, 1, "range"@, Kind::Aggregate),
            StringMethod::ToCstring => if !returns_result(c, function) {
                result_fault(c, function, "String.to_cstring"@)
            } else if unit_error(c, function.return_type->Enum_0, "InteriorNul"@) is None {
                unit_error_fault(c, function, "InteriorNul"@)
            } else {
                shape_fault(c, function, "String.to_cstring expected a CString Ok payload"@)
            },
            _ => ""@,
        }
    }
}

/// Emits a `String` method.
pub fn emit_string(c: &EmitContext, function: &IRFunction, f: &mut Body, method: StringMethod) -> (r: Result<
    (),
    LlvmError,
>)
    ensures
        match r {
            Ok(()) => string_ok(c, function, method) && final(f)@ == string_code(
                c,
                old(f)@,
                function,
                method,
            ),
            Err(e) => !string_ok(c, function, method) && says(e, string_fault(c, function, method))
                && final(f)@ == old(f)@,
        },
{
    proof {
        reveal(string_ok);
        reveal(string_code);
    }
    let payload = pointer_param(c, function)?;
    match method {
        StringMethod::ByteLength => {
            let count = load_byte_count(f);
            f.ins(Inst::Ret(LType::I64, count));
        },
        StringMethod::Get => {
            let _index = nth_param(c, function, 1, "index")?;
            let option = expect_enum_symbol(c, function, function.return_type, "String.get")?;
            if !is_option(c, option) {
                return Err(ill_shaped(c, function, "String.get returns an ill-shaped option"));
            }
            emit_get(c, f, option);
        },
        StringMethod::Length => {
            let len = f.ins(call(Rt::StringLength, a1(payload)));
            f.ins(Inst::Ret(LType::I64, len));
        },
        StringMethod::Slice => {
            let _range = nth_struct(c, function, 1, "range")?;
            emit_slice(f, value_basic_type(function.params[1].ty), Rt::StringSlice);
        },
        StringMethod::ToBinary => {
            let shared = share_heap_payload(f, payload);
            f.ins(Inst::Ret(LType::Ptr, shared));
        },
        StringMethod::ToCstring => {
            let result = return_symbol(c, function, "String.to_cstring")?;
            let error = resolve_unit_error(c, function, result, "InteriorNul")?;
            match single_payload_type(c, result, OK_TAG) {
                Some(IRType::Struct(symbol)) => {
                    emit_to_cstring(c, f, result, LType::Struct(symbol), error)
                },
                _ => {
                    return Err(
                        ill_shaped(c, function, "String.to_cstring expected a CString Ok payload"),
                    );
                },
            }
        },
    }
    Ok(())
}

} // verus!
