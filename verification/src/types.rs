//! Lowering of IR types to LLVM types.

use vstd::prelude::*;
use crate::error::{says, LlvmError};
use crate::ir::IRType;
use crate::llvm::LType;

verus! {

/// The LLVM type of a value. `Unit` values are an inert byte.
pub open spec fn value_type(ty: IRType) -> LType {
    match ty {
        IRType::Binary | IRType::Bits | IRType::String => LType::Ptr,
        IRType::CPtr(_) | IRType::Indirect(_) => LType::Ptr,
        IRType::Bool => LType::I1,
        IRType::Int8 | IRType::UInt8 | IRType::Unit => LType::I8,
        IRType::Int16 | IRType::UInt16 => LType::I16,
        IRType::Int32 | IRType::UInt32 => LType::I32,
        IRType::Int64 | IRType::UInt64 => LType::I64,
        IRType::Float32 => LType::F32,
        IRType::Float64 => LType::F64,
        IRType::Function(_) => LType::Closure,
        IRType::List(_) => LType::List,
        IRType::MapOf(_, _) | IRType::SetOf(_) => LType::Table,
        IRType::Struct(symbol) => LType::Struct(symbol),
        IRType::Enum(symbol) => LType::Enum(symbol),
        IRType::Union(id) => LType::Union(id),
        IRType::Tuple(id) => LType::Tuple(id),
    }
}

/// The LLVM type of a value. `Unit` values are an inert byte.
pub fn value_basic_type(ty: IRType) -> (r: LType)
    ensures
        r == value_type(ty),
{
    match ty {
        IRType::Binary | IRType::Bits | IRType::String => LType::Ptr,
        IRType::CPtr(_) | IRType::Indirect(_) => LType::Ptr,
        IRType::Bool => LType::I1,
        IRType::Int8 | IRType::UInt8 | IRType::Unit => LType::I8,
        IRType::Int16 | IRType::UInt16 => LType::I16,
        IRType::Int32 | IRType::UInt32 => LType::I32,
        IRType::Int64 | IRType::UInt64 => LType::I64,
        IRType::Float32 => LType::F32,
        IRType::Float64 => LType::F64,
        IRType::Function(_) => LType::Closure,
        IRType::List(_) => LType::List,
        IRType::MapOf(_, _) | IRType::SetOf(_) => LType::Table,
        IRType::Struct(symbol) => LType::Struct(symbol),
        IRType::Enum(symbol) => LType::Enum(symbol),
        IRType::Union(id) => LType::Union(id),
        IRType::Tuple(id) => LType::Tuple(id),
    }
}

/// What is said of a `Unit` where a value of its own is needed.
pub open spec fn no_unit() -> Seq<char> {
    "`Unit` has no value-level LLVM representation"@
}

/// The LLVM type of a value that has one: every type but `Unit`.
pub fn ir_basic_type(ty: IRType) -> (r: Result<LType, LlvmError>)
    ensures
        match r {
            Ok(t) => ty != IRType::Unit && t == value_type(ty),
            Err(e) => ty == IRType::Unit && says(e, no_unit()),
        },
{
    if ty == IRType::Unit {
        Err(LlvmError::Codegen("`Unit` has no value-level LLVM representation".to_owned()))
    } else {
        Ok(value_basic_type(ty))
    }
}

/// The value kinds that emitters tell apart.
#[derive(Clone, Copy, Debug, PartialEq, Eq, Structural)]
pub enum Kind {
    Int,
    Float,
    Pointer,
    Aggregate,
}

/// The kind of an LLVM type.
pub open spec fn kind_of(ty: LType) -> Kind {
    match ty {
        LType::I1 | LType::I8 | LType::I16 | LType::I32 | LType::I64 => Kind::Int,
        LType::F32 | LType::F64 => Kind::Float,
        LType::Ptr => Kind::Pointer,
        _ => Kind::Aggregate,
    }
}

/// The kind of an LLVM type.
pub fn kind(ty: LType) -> (r: Kind)
    ensures
        r == kind_of(ty),
{
    match ty {
        LType::I1 | LType::I8 | LType::I16 | LType::I32 | LType::I64 => Kind::Int,
        LType::F32 | LType::F64 => Kind::Float,
        LType::Ptr => Kind::Pointer,
        _ => Kind::Aggregate,
    }
}

/// The width of an integer type in bits, 64 for anything else.
pub open spec fn width_of(ty: LType) -> u64 {
    match ty {
        LType::I1 => 1,
        LType::I8 => 8,
        LType::I16 => 16,
        LType::I32 => 32,
        _ => 64,
    }
}

/// The width of an integer type in bits, 64 for anything else.
pub fn width(ty: LType) -> (r: u64)
    ensures
        r == width_of(ty),
        1 <= r <= 64,
{
    match ty {
        LType::I1 => 1,
        LType::I8 => 8,
        LType::I16 => 16,
        LType::I32 => 32,
        _ => 64,
    }
}

/// Whether arithmetic on the type is signed. Everything that is not an
/// unsigned integer counts as signed.
pub open spec fn signed(ty: IRType) -> bool {
    !(ty == IRType::UInt8 || ty == IRType::UInt16 || ty == IRType::UInt32 || ty == IRType::UInt64)
}

/// Whether arithmetic on the type is signed.
pub fn is_signed(ty: IRType) -> (r: bool)
    ensures
        r == signed(ty),
{
    match ty {
        IRType::UInt8 | IRType::UInt16 | IRType::UInt32 | IRType::UInt64 => false,
        _ => true,
    }
}

/// The name of a type's shape, as diagnostics give it.
pub open spec fn shape_text(ty: IRType) -> Seq<char> {
    match ty {
        IRType::Binary => "Binary"@,
        IRType::Bits => "Bits"@,
        IRType::Bool => "Bool"@,
        IRType::CPtr(_) => "CPtr"@,
        IRType::Enum(_) => "Enum"@,
        IRType::Float32 => "Float32"@,
        IRType::Float64 => "Float64"@,
        IRType::Function(_) => "Function"@,
        IRType::Indirect(_) => "Indirect"@,
        IRType::Int8 => "Int8"@,
        IRType::Int16 => "Int16"@,
        IRType::Int32 => "Int32"@,
        IRType::Int64 => "Int64"@,
        IRType::List(_) => "List"@,
        IRType::MapOf(_, _) => "Map"@,
        IRType::SetOf(_) => "Set"@,
        IRType::String => "String"@,
        IRType::Struct(_) => "Struct"@,
        IRType::Tuple(_) => "Tuple"@,
        IRType::UInt8 => "UInt8"@,
        IRType::UInt16 => "UInt16"@,
        IRType::UInt32 => "UInt32"@,
        IRType::UInt64 => "UInt64"@,
        IRType::Union(_) => "Union"@,
        IRType::Unit => "Unit"@,
    }
}

/// The name of a type's shape.
pub fn shape_name(ty: IRType) -> (r: &'static str)
    ensures
        r@ == shape_text(ty),
{
    match ty {
        IRType::Binary => "Binary",
        IRType::Bits => "Bits",
        IRType::Bool => "Bool",
        IRType::CPtr(_) => "CPtr",
        IRType::Enum(_) => "Enum",
        IRType::Float32 => "Float32",
        IRType::Float64 => "Float64",
        IRType::Function(_) => "Function",
        IRType::Indirect(_) => "Indirect",
        IRType::Int8 => "Int8",
        IRType::Int16 => "Int16",
        IRType::Int32 => "Int32",
        IRType::Int64 => "Int64",
        IRType::List(_) => "List",
        IRType::MapOf(_, _) => "Map",
        IRType::SetOf(_) => "Set",
        IRType::String => "String",
        IRType::Struct(_) => "Struct",
        IRType::Tuple(_) => "Tuple",
        IRType::UInt8 => "UInt8",
        IRType::UInt16 => "UInt16",
        IRType::UInt32 => "UInt32",
        IRType::UInt64 => "UInt64",
        IRType::Union(_) => "Union",
        IRType::Unit => "Unit",
    }
}

} // verus!
