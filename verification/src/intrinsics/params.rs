//! Checked access to the parameters of a function whose body is written
//! by hand.

use vstd::prelude::*;
use crate::ctx::EmitContext;
use crate::error::{says, LlvmError};
use crate::ir::{IRFunction, IRSymbol, IRType};
use crate::llvm::Val;
use crate::text::{concat2, concat3, concat5, decimal, usize_text};
use crate::types::{kind, kind_of, shape_name, shape_text, value_basic_type, value_type, Kind};

verus! {

/// Parameter `index` exists and is of the kind.
pub open spec fn has_param(function: &IRFunction, index: usize, k: Kind) -> bool {
    index < function.params@.len() && kind_of(value_type(function.params@[index as int].ty)) == k
}

/// What is said of a parameter that is not there.
pub open spec fn missing(c: &EmitContext, function: &IRFunction, index: usize, name: Seq<char>) -> Seq<
    char,
> {
    "missing param `"@ + name + "` (#"@ + decimal(index as nat) + ") on `"@ + c.mangled(function.symbol)
        + "`"@
}

/// What is said of a parameter of another kind.
pub open spec fn mismatch(
    c: &EmitContext,
    function: &IRFunction,
    index: usize,
    name: Seq<char>,
    k: Kind,
) -> Seq<char> {
    "expected "@ + kind_text(k) + " for `"@ + name + "` on `"@ + c.mangled(function.symbol)
        + "`, got `"@ + shape_text(function.params@[index as int].ty) + "`"@
}

/// What is said of a parameter that is missing or of another kind.
pub open spec fn param_fault(
    c: &EmitContext,
    function: &IRFunction,
    index: usize,
    name: Seq<char>,
    k: Kind,
) -> Seq<char> {
    if index < function.params@.len() {
        mismatch(c, function, index, name, k)
    } else {
        missing(c, function, index, name)
    }
}

pub open spec fn kind_text(k: Kind) -> Seq<char> {
    match k {
        Kind::Int => "integer"@,
        Kind::Float => "float"@,
        Kind::Pointer => "pointer"@,
        Kind::Aggregate => "struct"@,
    }
}

fn kind_name(k: Kind) -> (r: &'static str)
    ensures
        r@ == kind_text(k),
{
    match k {
        Kind::Int => "integer",
        Kind::Float => "float",
        Kind::Pointer => "pointer",
        Kind::Aggregate => "struct",
    }
}

/// Parameter `index`, whatever its type.
pub fn nth_param(c: &EmitContext, function: &IRFunction, index: usize, name: &str) -> (r: Result<
    Val,
    LlvmError,
>)
    ensures
        match r {
            Ok(v) => index < function.params@.len() && v == Val::Param(index),
            Err(e) => index >= function.params@.len() && says(
                e,
                missing(c, function, index, name@),
            ),
        },
{
    if index < function.params.len() {
        Ok(Val::Param(index))
    } else {
        let head = concat5("missing param `", name, "` (#", usize_text(index).as_str(), ") on `");
        Err(LlvmError::Codegen(concat3(head.as_str(), c.name_of(function.symbol), "`")))
    }
}

/// Parameter `index`, which has to be of the kind.
pub fn nth_of(c: &EmitContext, function: &IRFunction, index: usize, name: &str, k: Kind) -> (r: Result<
    Val,
    LlvmError,
>)
    ensures
        match r {
            Ok(v) => has_param(function, index, k) && v == Val::Param(index),
            Err(e) => !has_param(function, index, k) && says(
                e,
                param_fault(c, function, index, name@, k),
            ),
        },
{
    let v = nth_param(c, function, index, name)?;
    let ty = function.params[index].ty;
    if kind(value_basic_type(ty)) == k {
        Ok(v)
    } else {
        let head = concat5("expected ", kind_name(k), " for `", name, "` on `");
        let tail = concat5(
            head.as_str(),
            c.name_of(function.symbol),
            "`, got `",
            shape_name(ty),
            "`",
        );
        Err(LlvmError::Codegen(tail))
    }
}

/// An integer parameter.
pub fn nth_int(c: &EmitContext, function: &IRFunction, index: usize, name: &str) -> (r: Result<
    Val,
    LlvmError,
>)
    ensures
        match r {
            Ok(v) => has_param(function, index, Kind::Int) && v == Val::Param(index),
            Err(e) => !has_param(function, index, Kind::Int) && says(
                e,
                param_fault(c, function, index, name@, Kind::Int),
            ),
        },
{
    nth_of(c, function, index, name, Kind::Int)
}

/// A float parameter.
pub fn nth_float(c: &EmitContext, function: &IRFunction, index: usize, name: &str) -> (r: Result<
    Val,
    LlvmError,
>)
    ensures
        match r {
            Ok(v) => has_param(function, index, Kind::Float) && v == Val::Param(index),
            Err(e) => !has_param(function, index, Kind::Float) && says(
                e,
                param_fault(c, function, index, name@, Kind::Float),
            ),
        },
{
    nth_of(c, function, index, name, Kind::Float)
}

/// A pointer parameter.
pub fn nth_pointer(c: &EmitContext, function: &IRFunction, index: usize, name: &str) -> (r: Result<
    Val,
    LlvmError,
>)
    ensures
        match r {
            Ok(v) => has_param(function, index, Kind::Pointer) && v == Val::Param(index),
            Err(e) => !has_param(function, index, Kind::Pointer) && says(
                e,
                param_fault(c, function, index, name@, Kind::Pointer),
            ),
        },
{
    nth_of(c, function, index, name, Kind::Pointer)
}

/// A parameter held as a struct.
pub fn nth_struct(c: &EmitContext, function: &IRFunction, index: usize, name: &str) -> (r: Result<
    Val,
    LlvmError,
>)
    ensures
        match r {
            Ok(v) => has_param(function, index, Kind::Aggregate) && v == Val::Param(index),
            Err(e) => !has_param(function, index, Kind::Aggregate) && says(
                e,
                param_fault(c, function, index, name@, Kind::Aggregate),
            ),
        },
{
    nth_of(c, function, index, name, Kind::Aggregate)
}

/// What is said of a slot that should be an enum.
pub open spec fn not_enum(c: &EmitContext, function: &IRFunction, label: Seq<char>, ty: IRType) -> Seq<
    char,
> {
    label + " expected an enum-typed slot, got `"@ + shape_text(ty) + "` (symbol `"@ + c.mangled(
        function.symbol,
    ) + "`)"@
}

/// The enum that a slot holds.
pub fn expect_enum_symbol(c: &EmitContext, function: &IRFunction, ty: IRType, label: &str) -> (r: Result<
    IRSymbol,
    LlvmError,
>)
    ensures
        match r {
            Ok(symbol) => ty == IRType::Enum(symbol),
            Err(e) => !(ty is Enum) && says(e, not_enum(c, function, label@, ty)),
        },
{
    match ty {
        IRType::Enum(symbol) => Ok(symbol),
        _ => {
            let head = concat5(
                label,
                " expected an enum-typed slot, got `",
                shape_name(ty),
                "` (symbol `",
                c.name_of(function.symbol),
            );
            Err(LlvmError::Codegen(concat2(head.as_str(), "`)")))
        },
    }
}

} // verus!
