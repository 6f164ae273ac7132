//! `Result` values built by intrinsics.

use vstd::prelude::*;
use crate::ctx::EmitContext;
use crate::emit::enums::{build_single_value, build_unit_value, enum_value_code};
use crate::error::{says, LlvmError};
use crate::intrinsics::params::{expect_enum_symbol, not_enum};
use crate::ir::{IRFunction, IRSymbol, IRType, IRVariantTag};
use crate::llvm::{Body, Code, Inst, LType, Val};
use crate::text::concat5;

verus! {

/// `Result.Ok` as the standard library declares it.
pub const OK_TAG: u8 = 0;

/// `Result.Err` as the standard library declares it.
pub const ERR_TAG: u8 = 1;

/// The type carried by a variant with a single field.
pub open spec fn single_payload(c: &EmitContext, symbol: IRSymbol, tag: u8) -> Option<IRType> {
    if c.payload(symbol, tag).len() == 1 {
        Some(c.payload(symbol, tag)[0])
    } else {
        None
    }
}

/// The type carried by a variant with a single field.
pub fn single_payload_type(c: &EmitContext, symbol: IRSymbol, tag: u8) -> (r: Option<IRType>)
    ensures
        r == single_payload(c, symbol, tag),
{
    let slots = c.enum_variant_payload(symbol, tag);
    if slots.len() == 1 {
        Some(slots[0])
    } else {
        None
    }
}

/// The error enum of a `Result`, and the tag of one of its fieldless
/// variants.
pub open spec fn unit_error(c: &EmitContext, result: IRSymbol, variant: Seq<char>) -> Option<
    (IRSymbol, IRVariantTag),
> {
    match single_payload(c, result, ERR_TAG) {
        Some(IRType::Enum(error)) => match c.tag_of(error, variant) {
            Some(tag) => if c.payload(error, tag.0).len() == 0 {
                Some((error, tag))
            } else {
                None
            },
            None => None,
        },
        _ => None,
    }
}

/// What is said of an error variant that is not there.
pub open spec fn unit_error_fault(c: &EmitContext, function: &IRFunction, variant: Seq<char>) -> Seq<char> {
    "`Err` payload has no fieldless variant `"@ + variant + "` on `"@ + c.mangled(function.symbol)
        + "`"@
}

/// Resolves an error variant by name.
pub fn resolve_unit_error(
    c: &EmitContext,
    function: &IRFunction,
    result: IRSymbol,
    variant: &str,
) -> (r: Result<(IRSymbol, IRVariantTag), LlvmError>)
    ensures
        match r {
            Ok(p) => unit_error(c, result, variant@) == Some(p),
            Err(e) => unit_error(c, result, variant@) is None && says(
                e,
                unit_error_fault(c, function, variant@),
            ),
        },
{
    match single_payload_type(c, result, ERR_TAG) {
        Some(IRType::Enum(error)) => match c.enum_variant_tag(error, variant) {
            Some(tag) => if c.enum_variant_payload(error, tag.0).len() == 0 {
                return Ok((error, tag));
            },
            None => {},
        },
        _ => {},
    }
    Err(
        LlvmError::Codegen(
            concat5(
                "`Err` payload has no fieldless variant `",
                variant,
                "` on `",
                c.name_of(function.symbol),
                "`",
            ),
        ),
    )
}

/// The `Result` a function returns, whose `Ok` carries one field.
pub open spec fn returns_result(c: &EmitContext, function: &IRFunction) -> bool {
    function.return_type matches IRType::Enum(r) && c.payload(r, OK_TAG).len() == 1
}

/// What is said of a function that does not return a `Result`.
pub open spec fn result_fault(c: &EmitContext, function: &IRFunction, label: Seq<char>) -> Seq<char> {
    if function.return_type is Enum {
        label + " on `"@ + c.mangled(function.symbol) + "` Ok variant has unexpected payload"@
            + " (expected single-field)"@
    } else {
        not_enum(c, function, label, function.return_type)
    }
}

/// The `Result` a function returns.
pub fn return_symbol(c: &EmitContext, function: &IRFunction, label: &str) -> (r: Result<
    IRSymbol,
    LlvmError,
>)
    ensures
        match r {
            Ok(symbol) => returns_result(c, function) && function.return_type == IRType::Enum(
                symbol,
            ),
            Err(e) => !returns_result(c, function) && says(e, result_fault(c, function, label@)),
        },
{
    let symbol = expect_enum_symbol(c, function, function.return_type, label)?;
    if c.enum_variant_payload(symbol, OK_TAG).len() == 1 {
        Ok(symbol)
    } else {
        Err(
            LlvmError::Codegen(
                concat5(
                    label,
                    " on `",
                    c.name_of(function.symbol),
                    "` Ok variant has unexpected payload",
                    " (expected single-field)",
                ),
            ),
        )
    }
}

/// Returning `Ok(value)`.
pub open spec fn ret_ok_code(c: &EmitContext, s: Code, result: IRSymbol, value: Val) -> Code {
    let (t, ok) = enum_value_code(c, s, result, IRVariantTag(OK_TAG), seq![value]);
    t.i(Inst::Ret(LType::Enum(result), ok))
}

/// Returns `Ok(value)`.
pub fn ret_ok(c: &EmitContext, f: &mut Body, result: IRSymbol, value: Val)
    requires
        c.payload(result, OK_TAG).len() == 1,
    ensures
        final(f)@ == ret_ok_code(c, old(f)@, result, value),
{
    let ok = build_single_value(c, f, result, IRVariantTag(OK_TAG), value);
    f.ins(Inst::Ret(LType::Enum(result), ok));
}

/// Returning `Err(value)`.
pub open spec fn ret_err_code(c: &EmitContext, s: Code, result: IRSymbol, value: Val) -> Code {
    let (t, err) = enum_value_code(c, s, result, IRVariantTag(ERR_TAG), seq![value]);
    t.i(Inst::Ret(LType::Enum(result), err))
}

/// Returns `Err(value)`.
pub fn ret_err(c: &EmitContext, f: &mut Body, result: IRSymbol, value: Val)
    requires
        c.payload(result, ERR_TAG).len() == 1,
    ensures
        final(f)@ == ret_err_code(c, old(f)@, result, value),
{
    let err = build_single_value(c, f, result, IRVariantTag(ERR_TAG), value);
    f.ins(Inst::Ret(LType::Enum(result), err));
}

/// Returning `Err` of a fieldless error variant.
pub open spec fn ret_unit_error_code(
    c: &EmitContext,
    s: Code,
    result: IRSymbol,
    error: (IRSymbol, IRVariantTag),
) -> Code {
    let (t, e) = enum_value_code(c, s, error.0, error.1, seq![]);
    ret_err_code(c, t, result, e)
}

/// Returns `Err` of a fieldless error variant.
pub fn ret_unit_error(
    c: &EmitContext,
    f: &mut Body,
    result: IRSymbol,
    error: (IRSymbol, IRVariantTag),
)
    requires
        c.payload(result, ERR_TAG).len() == 1,
        c.payload(error.0, error.1.0).len() == 0,
    ensures
        final(f)@ == ret_unit_error_code(c, old(f)@, result, error),
{
    let e = build_unit_value(c, f, error.0, error.1);
    ret_err(c, f, result, e);
}

} // verus!
