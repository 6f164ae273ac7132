//! Checked `CString.to_string` conversion.

use vstd::prelude::*;
use crate::ctx::EmitContext;
use crate::emit::heap_layout::{block_alloc_size, init_heap_block, init_heap_block_code, overhead};
use crate::error::{says, LlvmError};
use crate::intrinsics::heap_payload::{nul_code, store_nul};
use crate::intrinsics::params::{has_param, nth_struct, param_fault};
use crate::intrinsics::result::{
    resolve_unit_error, result_fault, ret_ok, ret_ok_code, ret_unit_error, ret_unit_error_code,
    return_symbol, returns_result, unit_error, unit_error_fault, ERR_TAG, OK_TAG,
};
use crate::ir::{IRFunction, IRSymbol, IRType, IRVariantTag};
use crate::llvm::{
    a1, a2, a3, call, iadd, imul, is_null, itest, num, BinOp, Body, Code, Inst, LType, Pred, Val,
};
use crate::runtime::Rt;
use crate::types::{value_basic_type, value_type, Kind};

verus! {

/// Returning an error where a test holds. The blocks are refused and
/// continue.
pub open spec fn reject_code(
    c: &EmitContext,
    s: Code,
    rejected: Val,
    result: IRSymbol,
    error: (IRSymbol, IRVariantTag),
) -> Code {
    ret_unit_error_code(
        c,
        s
            .word("refused"@)
            .word("accepted"@).i(Inst::CondBr(rejected, s.b(0), s.b(1))).at(s.b(0)),
        result,
        error,
    ).at(s.b(1))
}

/// Returns an error where a test holds, and goes on otherwise.
pub fn reject_or_continue(
    c: &EmitContext,
    f: &mut Body,
    rejected: Val,
    result: IRSymbol,
    error: (IRSymbol, IRVariantTag),
)
    requires
        c.payload(result, ERR_TAG).len() == 1,
        c.payload(error.0, error.1.0).len() == 0,
    ensures
        final(f)@ == reject_code(c, old(f)@, rejected, result, error),
{
    let error_block = f.block("refused");
    let continuation = f.block("accepted");
    f.ins(Inst::CondBr(rejected, error_block, continuation));
    f.at(error_block);
    ret_unit_error(c, f, result, error);
    f.at(continuation);
}

/// A fresh string of `len` bytes behind `ptr`, returned as `Ok`.
pub open spec fn valid_string_code(
    c: &EmitContext,
    s: Code,
    result: IRSymbol,
    ptr: Val,
    len: Val,
    has_bytes: Val,
) -> Code {
    ret_ok_code(
        c,
        nul_code(
            init_heap_block_code(
                s.i(iadd(len, num(overhead(true))))
                    .i(call(Rt::Malloc, a1(s.v(0))))
                    .i(imul(len, num(8))),
                s.v(1),
                s.v(2),
            )
                .i(Inst::Select(LType::Ptr, has_bytes, ptr, s.v(6)))
                .i(call(Rt::Memcpy, a3(s.v(6), s.v(7), len))),
            s.v(6),
            len,
        ),
        result,
        s.v(6),
    )
}

/// Emits the success path of `CString.to_string`.
pub fn emit_valid_string(
    c: &EmitContext,
    f: &mut Body,
    result: IRSymbol,
    ptr: Val,
    len: Val,
    has_bytes: Val,
)
    requires
        c.payload(result, OK_TAG).len() == 1,
    ensures
        final(f)@ == valid_string_code(c, old(f)@, result, ptr, len, has_bytes),
{
    let total = block_alloc_size(f, len, true);
    let base = f.ins(call(Rt::Malloc, a1(total)));
    let bits = f.ins(imul(len, num(8)));
    let payload = init_heap_block(f, base, bits);
    let source = f.ins(Inst::Select(LType::Ptr, has_bytes, ptr, payload));
    f.ins(call(Rt::Memcpy, a3(payload, source, len)));
    store_nul(f, payload, len);
    ret_ok(c, f, result, payload);
}

/// `CString.to_string`: a negative length, a null pointer with bytes and
/// bytes that are not UTF-8 are refused, in this order.
#[verifier::opaque]
pub open spec fn to_string_code(c: &EmitContext, s: Code, receiver: LType, result: IRSymbol) -> Code {
    let n = reject_code(
        c,
        s.i(Inst::Extract(receiver, Val::Param(0), 0))
            .i(Inst::Extract(receiver, Val::Param(0), 1))
            .i(itest(Pred::Slt, s.v(1), num(0))),
        s.v(2),
        result,
        unit_error(c, result, "InvalidLength"@)->0,
    );
    let p = reject_code(
        c,
        n.i(is_null(s.v(0)))
            .i(itest(Pred::Ne, s.v(1), num(0)))
            .i(Inst::Bin(BinOp::And, LType::I1, n.v(0), n.v(1))),
        n.v(2),
        result,
        unit_error(c, result, "NullPointer"@)->0,
    );
    let u = reject_code(
        c,
        p.i(call(Rt::Utf8Validate, a2(s.v(0), s.v(1)))).i(itest(Pred::Eq, p.v(0), num(0))),
        p.v(1),
        result,
        unit_error(c, result, "InvalidUTF8"@)->0,
    );
    valid_string_code(c, u, result, s.v(0), s.v(1), n.v(1))
}

/// The function can be `CString.to_string`.
#[verifier::opaque]
pub open spec fn cstring_ok(c: &EmitContext, function: &IRFunction) -> bool {
    &&& has_param(function, 0, Kind::Aggregate)
    &&& returns_result(c, function)
    &&& function.return_type matches IRType::Enum(r) && unit_error(c, r, "InvalidLength"@) is Some
        && unit_error(c, r, "NullPointer"@) is Some && unit_error(c, r, "InvalidUTF8"@) is Some
}

/// What is said of a function that cannot be `CString.to_string`.
pub open spec fn cstring_fault(c: &EmitContext, function: &IRFunction) -> Seq<char> {
    if !has_param(function, 0, Kind::Aggregate) {
        param_fault(c, function, 0, "self"@, Kind::Aggregate)
    } else if !returns_result(c, function) {
        result_fault(c, function, "CString.to_string"@)
    } else {
        let r = function.return_type->Enum_0;
        unit_error_fault(
            c,
            function,
            if unit_error(c, r, "InvalidLength"@) is None {
                "InvalidLength"@
            } else if unit_error(c, r, "NullPointer"@) is None {
                "NullPointer"@
            } else {
                "InvalidUTF8"@
            },
        )
    }
}

/// Emits `CString.to_string`.
pub fn emit_to_string(c: &EmitContext, function: &IRFunction, f: &mut Body) -> (r: Result<(), LlvmError>)
    ensures
        match r {
            Ok(()) => cstring_ok(c, function) && final(f)@ == to_string_code(
                c,
                old(f)@,
                value_type(function.params@[0].ty),
                function.return_type->Enum_0,
            ),
            Err(e) => !cstring_ok(c, function) && says(e, cstring_fault(c, function)) && final(f)@
                == old(f)@,
        },
{
    proof {
        reveal(cstring_ok);
        reveal(to_string_code);
    }
    let receiver = nth_struct(c, function, 0, "self")?;
    let result = return_symbol(c, function, "CString.to_string")?;
    let invalid_length = resolve_unit_error(c, function, result, "InvalidLength")?;
    let null_pointer = resolve_unit_error(c, function, result, "NullPointer")?;
    let invalid_utf8 = resolve_unit_error(c, function, result, "InvalidUTF8")?;
    let ty = value_basic_type(function.params[0].ty);
    let ptr = f.ins(Inst::Extract(ty, receiver, 0));
    let len = f.ins(Inst::Extract(ty, receiver, 1));
    let negative = f.ins(itest(Pred::Slt, len, num(0)));
    reject_or_continue(c, f, negative, result, invalid_length);
    let null = f.ins(is_null(ptr));
    let has_bytes = f.ins(itest(Pred::Ne, len, num(0)));
    let invalid_pointer = f.ins(Inst::Bin(BinOp::And, LType::I1, null, has_bytes));
    reject_or_continue(c, f, invalid_pointer, result, null_pointer);
    let valid = f.ins(call(Rt::Utf8Validate, a2(ptr, len)));
    let rejected = f.ins(itest(Pred::Eq, valid, num(0)));
    reject_or_continue(c, f, rejected, result, invalid_utf8);
    emit_valid_string(c, f, result, ptr, len, has_bytes);
    Ok(())
}

} // verus!
