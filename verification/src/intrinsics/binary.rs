//! `Binary` and `Bits` methods. Both share the payload layout; `Binary`
//! is always byte-aligned, the last byte of a `Bits` may be partial.

use vstd::prelude::*;
use crate::ctx::EmitContext;
use crate::emit::enums::{build_single_value, build_unit_value, enum_value_code};
use crate::emit::heap_layout::{load_bit_length, load_bit_length_code, rc_inc_code};
use crate::error::{says, LlvmError};
use crate::intrinsics::hashtable::read::{OPTION_NONE, OPTION_SOME};
use crate::intrinsics::heap_payload::{
    byte_count_code, byte_count_from_bits, copy_heap_payload, copy_payload_code, pointer_param,
    share_heap_payload,
};
use crate::intrinsics::map::{is_option, option_shape};
use crate::intrinsics::params::{expect_enum_symbol, has_param, not_enum, nth_int, nth_struct, param_fault};
use crate::intrinsics::result::{
    resolve_unit_error, result_fault, ret_err, ret_err_code, ret_ok, ret_ok_code, ret_unit_error,
    ret_unit_error_code, return_symbol, returns_result, unit_error, unit_error_fault, ERR_TAG,
    OK_TAG,
};
use crate::intrinsics::string::{byte_length_code, emit_slice, load_byte_count, slice_code};
use crate::ir::{BinaryMethod, BitsMethod, IRFunction, IRSymbol, IRType, IRVariantTag};
use crate::llvm::{
    a2, call, gep_in, iand, itest, num, BinOp, Body, CastOp, Code, Inst, LType, Pred, Val,
};
use crate::runtime::Rt;
use crate::text::concat3;
use crate::types::{value_basic_type, value_type, Kind};

verus! {

/// An indexed byte read: `Some` of the byte where the index is not
/// negative and below the byte count, `None` elsewhere. The blocks are
/// some and none.
pub open spec fn byte_lookup_code(c: &EmitContext, s: Code, option: IRSymbol, ceil: bool) -> Code {
    let (b, count) = byte_count_code(load_bit_length_code(s, Val::Param(0)), s.v(1), ceil);
    let (w, some) = enum_value_code(
        c,
        b.i(itest(Pred::Sge, Val::Param(1), num(0)))
            .i(itest(Pred::Slt, Val::Param(1), count))
            .i(Inst::Bin(BinOp::And, LType::I1, b.v(0), b.v(1)))
            .word("some"@).word("none"@)
            .i(Inst::CondBr(b.v(2), b.b(0), b.b(1)))
            .at(b.b(0))
            .i(gep_in(Val::Param(0), Val::Param(1)))
            .i(Inst::Load(LType::I8, b.v(4)))
            .i(Inst::Cast(CastOp::ZExt, LType::I8, b.v(5), LType::I64)),
        option,
        IRVariantTag(OPTION_SOME),
        seq![b.v(6)],
    );
    let (n, none) = enum_value_code(
        c,
        w.i(Inst::Ret(LType::Enum(option), some)).at(b.b(1)),
        option,
        IRVariantTag(OPTION_NONE),
        seq![],
    );
    n.i(Inst::Ret(LType::Enum(option), none))
}

/// Emits an indexed byte read.
pub fn emit_byte_lookup(c: &EmitContext, f: &mut Body, option: IRSymbol, ceil: bool)
    requires
        option_shape(c, option),
    ensures
        final(f)@ == byte_lookup_code(c, old(f)@, option, ceil),
{
    let index = Val::Param(1);
    let bits = load_bit_length(f, Val::Param(0));
    let count = byte_count_from_bits(f, bits, ceil);
    let nonnegative = f.ins(itest(Pred::Sge, index, num(0)));
    let below = f.ins(itest(Pred::Slt, index, count));
    let in_bounds = f.ins(Inst::Bin(BinOp::And, LType::I1, nonnegative, below));
    let some_bb = f.block("some");
    let none_bb = f.block("none");
    f.ins(Inst::CondBr(in_bounds, some_bb, none_bb));
    f.at(some_bb);
    let byte_ptr = f.ins(gep_in(Val::Param(0), index));
    let byte = f.ins(Inst::Load(LType::I8, byte_ptr));
    let wide = f.ins(Inst::Cast(CastOp::ZExt, LType::I8, byte, LType::I64));
    let some = build_single_value(c, f, option, IRVariantTag(OPTION_SOME), wide);
    f.ins(Inst::Ret(LType::Enum(option), some));
    f.at(none_bb);
    let none = build_unit_value(c, f, option, IRVariantTag(OPTION_NONE));
    f.ins(Inst::Ret(LType::Enum(option), none));
}

/// `Binary.to_string`: a fresh NUL-terminated copy where the bytes are
/// UTF-8, `InvalidUTF8` where they are not. The blocks are valid and
/// invalid.
pub open spec fn to_string_code(c: &EmitContext, s: Code, result: IRSymbol) -> Code {
    let (t, payload) = copy_payload_code(
        byte_length_code(s)
            .i(call(Rt::Utf8Validate, a2(Val::Param(0), s.v(2))))
            .i(itest(Pred::Ne, s.v(3), num(0)))
            .word("valid"@).word("invalid"@)
            .i(Inst::CondBr(s.v(4), s.b(0), s.b(1)))
            .at(s.b(0)),
        Val::Param(0),
        true,
        false,
    );
    ret_unit_error_code(
        c,
        ret_ok_code(c, t, result, payload).at(s.b(1)),
        result,
        unit_error(c, result, "InvalidUTF8"@)->0,
    )
}

/// Emits `Binary.to_string`.
pub fn emit_to_string(
    c: &EmitContext,
    f: &mut Body,
    result: IRSymbol,
    error: (IRSymbol, IRVariantTag),
)
    requires
        c.payload(result, OK_TAG).len() == 1,
        unit_error(c, result, "InvalidUTF8"@) == Some(error),
    ensures
        final(f)@ == to_string_code(c, old(f)@, result),
{
    let count = load_byte_count(f);
    let is_valid = f.ins(call(Rt::Utf8Validate, a2(Val::Param(0), count)));
    let succeeded = f.ins(itest(Pred::Ne, is_valid, num(0)));
    let valid_bb = f.block("valid");
    let invalid_bb = f.block("invalid");
    f.ins(Inst::CondBr(succeeded, valid_bb, invalid_bb));
    f.at(valid_bb);
    let fresh = copy_heap_payload(f, Val::Param(0), true, false);
    ret_ok(c, f, result, fresh);
    f.at(invalid_bb);
    ret_unit_error(c, f, result, error);
}

/// What `Bits.to_binary` answers for a partial byte.
pub open spec fn unaligned_text() -> Seq<char> {
    "bit length is not byte-aligned"@
}

/// `Bits.to_binary`: the shared block where the bit length is a multiple
/// of eight, an error text elsewhere. The blocks are ok and err.
pub open spec fn to_binary_code(c: &EmitContext, s: Code, result: IRSymbol) -> Code {
    let t = load_bit_length_code(s, Val::Param(0))
        .i(iand(s.v(1), num(7)))
        .i(itest(Pred::Eq, s.v(2), num(0)))
        .word("ok"@).word("err"@)
        .i(Inst::CondBr(s.v(3), s.b(0), s.b(1)))
        .at(s.b(0));
    let ok = ret_ok_code(c, rc_inc_code(t, Val::Param(0)), result, Val::Param(0)).at(s.b(1));
    ret_err_code(c, ok.text(unaligned_text()), result, ok.tv(0))
}

/// Emits `Bits.to_binary`.
pub fn emit_to_binary(c: &EmitContext, f: &mut Body, result: IRSymbol)
    requires
        c.payload(result, OK_TAG).len() == 1,
        c.payload(result, ERR_TAG).len() == 1,
    ensures
        final(f)@ == to_binary_code(c, old(f)@, result),
{
    let bits = load_bit_length(f, Val::Param(0));
    let remainder = f.ins(iand(bits, num(7)));
    let aligned = f.ins(itest(Pred::Eq, remainder, num(0)));
    let ok_bb = f.block("ok");
    let err_bb = f.block("err");
    f.ins(Inst::CondBr(aligned, ok_bb, err_bb));
    f.at(ok_bb);
    let shared = share_heap_payload(f, Val::Param(0));
    ret_ok(c, f, result, shared);
    f.at(err_bb);
    let message = f.text("bit length is not byte-aligned");
    ret_err(c, f, result, message);
}

/// The function can be the `Binary` method.
#[verifier::opaque]
pub open spec fn binary_ok(c: &EmitContext, function: &IRFunction, method: BinaryMethod) -> bool {
    has_param(function, 0, Kind::Pointer) && match method {
        BinaryMethod::ByteSize | BinaryMethod::ToBits => true,
        BinaryMethod::Slice => has_param(function, 1, Kind::Aggregate),
        BinaryMethod::At => has_param(function, 1, Kind::Int)
            && (function.return_type matches IRType::Enum(o) && option_shape(c, o)),
        BinaryMethod::ToString => returns_result(c, function)
            && (function.return_type matches IRType::Enum(r) && unit_error(
            c,
            r,
            "InvalidUTF8"@,
        ) is Some),
    }
}

/// The body of a `Binary` method.
#[verifier::opaque]
pub open spec fn binary_code(
    c: &EmitContext,
    s: Code,
    function: &IRFunction,
    method: BinaryMethod,
) -> Code {
    match method {
        BinaryMethod::At => byte_lookup_code(c, s, function.return_type->Enum_0, false),
        BinaryMethod::ByteSize => byte_length_code(s).i(Inst::Ret(LType::I64, s.v(2))),
        BinaryMethod::Slice => slice_code(s, value_type(function.params@[1].ty), Rt::BinarySlice),
        BinaryMethod::ToBits => rc_inc_code(s, Val::Param(0)).i(
            Inst::Ret(LType::Ptr, Val::Param(0)),
        ),
        BinaryMethod::ToString => to_string_code(c, s, function.return_type->Enum_0),
    }
}

/// What is said of an ill-shaped function.
pub open spec fn shape_fault(c: &EmitContext, function: &IRFunction, what: Seq<char>) -> Seq<char> {
    what + " on "@ + c.mangled(function.symbol)
}

fn ill_shaped(c: &EmitContext, function: &IRFunction, what: &str) -> (r: LlvmError)
    ensures
        says(r, shape_fault(c, function, what@)),
{
    LlvmError::Codegen(concat3(what, " on ", c.name_of(function.symbol)))
}

/// What is said of a function that cannot be the `Binary` method.
pub open spec fn binary_fault(c: &EmitContext, function: &IRFunction, method: BinaryMethod) -> Seq<char> {
    if !has_param(function, 0, Kind::Pointer) {
        param_fault(c, function, 0, "self"@, Kind::Pointer)
    } else {
        match method {
            BinaryMethod::At => lookup_fault(
                c,
                function,
                "Binary.at returns an ill-shaped option"@,
            ),
            BinaryMethod::Slice => param_fault(c, function, 1, "range"@, Kind::Aggregate),
            BinaryMethod::ToString => if !returns_result(c, function) {
                result_fault(c, function, "binary intrinsic"@)
            } else {
                unit_error_fault(c, function, "InvalidUTF8"@)
            },
            _ => ""@,
        }
    }
}

/// What is said of a function that cannot be a look-up of a byte.
pub open spec fn lookup_fault(c: &EmitContext, function: &IRFunction, what: Seq<char>) -> Seq<char> {
    if !(function.return_type is Enum) {
        not_enum(c, function, "binary intrinsic"@, function.return_type)
    } else if !has_param(function, 1, Kind::Int) {
        param_fault(c, function, 1, "index"@, Kind::Int)
    } else {
        shape_fault(c, function, what)
    }
}

/// Emits a `Binary` method.
pub fn emit_binary(c: &EmitContext, function: &IRFunction, f: &mut Body, method: BinaryMethod) -> (r: Result<
    (),
    LlvmError,
>)
    ensures
        match r {
            Ok(()) => binary_ok(c, function, method) && final(f)@ == binary_code(
                c,
                old(f)@,
                function,
                method,
            ),
            Err(e) => !binary_ok(c, function, method) && says(e, binary_fault(c, function, method))
                && final(f)@ == old(f)@,
        },
{
    proof {
        reveal(binary_ok);
        reveal(binary_code);
    }
    let payload = pointer_param(c, function)?;
    match method {
        BinaryMethod::At => {
            let option = expect_enum_symbol(c, function, function.return_type, "binary intrinsic")?;
            let _index = nth_int(c, function, 1, "index")?;
            if !is_option(c, option) {
                return Err(ill_shaped(c, function, "Binary.at returns an ill-shaped option"));
            }
            emit_byte_lookup(c, f, option, false);
        },
        BinaryMethod::ByteSize => {
            let count = load_byte_count(f);
            f.ins(Inst::Ret(LType::I64, count));
        },
        BinaryMethod::Slice => {
            let _range = nth_struct(c, function, 1, "range")?;
            emit_slice(f, value_basic_type(function.params[1].ty), Rt::BinarySlice);
        },
        BinaryMethod::ToBits => {
            let shared = share_heap_payload(f, payload);
            f.ins(Inst::Ret(LType::Ptr, shared));
        },
        BinaryMethod::ToString => {
            let result = return_symbol(c, function, "binary intrinsic")?;
            let error = resolve_unit_error(c, function, result, "InvalidUTF8")?;
            emit_to_string(c, f, result, error);
        },
    }
    Ok(())
}

/// The function can be the `Bits` method.
#[verifier::opaque]
pub open spec fn bits_ok(c: &EmitContext, function: &IRFunction, method: BitsMethod) -> bool {
    has_param(function, 0, Kind::Pointer) && match method {
        BitsMethod::BitSize => true,
        BitsMethod::ByteAt => has_param(function, 1, Kind::Int)
            && (function.return_type matches IRType::Enum(o) && option_shape(c, o)),
        BitsMethod::ToBinary => returns_result(c, function)
            && (function.return_type matches IRType::Enum(r) && c.payload(r, ERR_TAG).len() == 1),
    }
}

/// The body of a `Bits` method.
#[verifier::opaque]
pub open spec fn bits_code(
    c: &EmitContext,
    s: Code,
    function: &IRFunction,
    method: BitsMethod,
) -> Code {
    match method {
        BitsMethod::BitSize => load_bit_length_code(s, Val::Param(0)).i(
            Inst::Ret(LType::I64, s.v(1)),
        ),
        BitsMethod::ByteAt => byte_lookup_code(c, s, function.return_type->Enum_0, true),
        BitsMethod::ToBinary => to_binary_code(c, s, function.return_type->Enum_0),
    }
}

/// What is said of a function that cannot be the `Bits` method.
pub open spec fn bits_fault(c: &EmitContext, function: &IRFunction, method: BitsMethod) -> Seq<char> {
    if !has_param(function, 0, Kind::Pointer) {
        param_fault(c, function, 0, "self"@, Kind::Pointer)
    } else {
        match method {
            BitsMethod::BitSize => ""@,
            BitsMethod::ByteAt => lookup_fault(
                c,
                function,
                "Bits.byte_at returns an ill-shaped option"@,
            ),
            BitsMethod::ToBinary => if !returns_result(c, function) {
                result_fault(c, function, "binary intrinsic"@)
            } else {
                shape_fault(c, function, "Bits.to_binary returns an ill-shaped result"@)
            },
        }
    }
}

/// Emits a `Bits` method.
pub fn emit_bits(c: &EmitContext, function: &IRFunction, f: &mut Body, method: BitsMethod) -> (r: Result<
    (),
    LlvmError,
>)
    ensures
        match r {
            Ok(()) => bits_ok(c, function, method) && final(f)@ == bits_code(
                c,
                old(f)@,
                function,
                method,
            ),
            Err(e) => !bits_ok(c, function, method) && says(e, bits_fault(c, function, method))
                && final(f)@ == old(f)@,
        },
{
    proof {
        reveal(bits_ok);
        reveal(bits_code);
    }
    let payload = pointer_param(c, function)?;
    match method {
        BitsMethod::BitSize => {
            let bits = load_bit_length(f, payload);
            f.ins(Inst::Ret(LType::I64, bits));
        },
        BitsMethod::ByteAt => {
            let option = expect_enum_symbol(c, function, function.return_type, "binary intrinsic")?;
            let _index = nth_int(c, function, 1, "index")?;
            if !is_option(c, option) {
                return Err(ill_shaped(c, function, "Bits.byte_at returns an ill-shaped option"));
            }
            emit_byte_lookup(c, f, option, true);
        },
        BitsMethod::ToBinary => {
            let result = return_symbol(c, function, "binary intrinsic")?;
            if c.enum_variant_payload(result, ERR_TAG).len() != 1 {
                return Err(ill_shaped(c, function, "Bits.to_binary returns an ill-shaped result"));
            }
            emit_to_binary(c, f, result);
        },
    }
    Ok(())
}

} // verus!
