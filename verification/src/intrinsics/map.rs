//! `Map<K, V>` methods.

use vstd::prelude::*;
use crate::ctx::EmitContext;
use crate::error::{says, LlvmError};
use crate::intrinsics::hashtable::cursor::{cursor_option, emit_next, next_code, resolve_cursor_option};
use crate::intrinsics::hashtable::insert::{emit_map_put, map_put_code};
use crate::intrinsics::hashtable::lifecycle::{
    emit_empty_q, emit_identity, emit_length, emit_new, identity_code,
};
use crate::intrinsics::hashtable::read::{
    emit_has_q, emit_map_get, emit_remove, has_q_code, map_get_code, remove_code, OPTION_NONE,
    OPTION_SOME,
};
use crate::intrinsics::hashtable::util::{
    empty_table_code, entry_fits, ir_byte_size, key_ops, layout_of, no_key_ops,
    resolve_key_hash_ops, table_layout, HashtableLayout,
};
use crate::intrinsics::params::{expect_enum_symbol, has_param, missing, not_enum, nth_int, nth_param, param_fault};
use crate::ir::{IRFunction, IRSymbol, IRType, MapMethod};
use crate::llvm::{itest, num, Body, Code, Inst, LType, Pred, Val};
use crate::text::{concat2, concat3};
use crate::types::{ir_basic_type, no_unit, shape_name, shape_text, Kind};

verus! {

/// The type that names a method's instantiation: what `new` returns, and
/// the receiver of every other method.
pub open spec fn map_receiver(function: &IRFunction, method: MapMethod) -> Option<IRType> {
    if method == MapMethod::New {
        Some(function.return_type)
    } else if function.params@.len() > 0 {
        Some(function.params@[0].ty)
    } else {
        None
    }
}

/// An option enum has the shape that `Some` and `None` are built for.
pub open spec fn option_shape(c: &EmitContext, symbol: IRSymbol) -> bool {
    c.payload(symbol, OPTION_SOME).len() == 1 && c.payload(symbol, OPTION_NONE).len() == 0
}

/// Whether an enum has the shape of an option.
pub fn is_option(c: &EmitContext, symbol: IRSymbol) -> (r: bool)
    ensures
        r == option_shape(c, symbol),
{
    c.enum_variant_payload(symbol, OPTION_SOME).len() == 1 && c.enum_variant_payload(
        symbol,
        OPTION_NONE,
    ).len() == 0
}

/// The function is one whose body the method can be.
#[verifier::opaque]
pub open spec fn map_ok(c: &EmitContext, function: &IRFunction, method: MapMethod) -> bool {
    match map_receiver(function, method) {
        Some(IRType::MapOf(k, v)) => {
            let key = c.node(k);
            let value = c.node(v);
            &&& key != IRType::Unit
            &&& value != IRType::Unit
            &&& entry_fits(c, key, Some(value))
            &&& match method {
                MapMethod::New | MapMethod::Length | MapMethod::EmptyQ | MapMethod::FromMap => true,
                MapMethod::HasQ | MapMethod::Remove => function.params@.len() > 1 && key_ops(
                    c,
                    key,
                ) is Some,
                MapMethod::Put => function.params@.len() > 2 && key_ops(c, key) is Some,
                MapMethod::Get => {
                    &&& function.params@.len() > 1
                    &&& key_ops(c, key) is Some
                    &&& function.return_type matches IRType::Enum(o) && option_shape(c, o)
                },
                MapMethod::Next => {
                    &&& has_param(function, 1, Kind::Int)
                    &&& function.return_type matches IRType::Enum(o) && cursor_option(c, o) is Some
                },
            }
        },
        _ => false,
    }
}

/// The body of a method of a `Map` from `key` to `value`.
#[verifier::opaque]
pub open spec fn map_code(
    c: &EmitContext,
    s: Code,
    function: &IRFunction,
    method: MapMethod,
    key: IRType,
    value: IRType,
) -> Code {
    let layout = layout_of(c, key, Some(value));
    match method {
        MapMethod::New => empty_table_code(s, layout.entry_size).i(Inst::Ret(LType::Table, s.v(7))),
        MapMethod::Length => s.i(Inst::Extract(LType::Table, Val::Param(0), 2)).i(
            Inst::Ret(LType::I64, s.v(0)),
        ),
        MapMethod::EmptyQ => s.i(Inst::Extract(LType::Table, Val::Param(0), 2))
            .i(itest(Pred::Eq, s.v(0), num(0)))
            .i(Inst::Ret(LType::I1, s.v(1))),
        MapMethod::FromMap => identity_code(c, s, layout),
        MapMethod::HasQ => has_q_code(s, layout, key_ops(c, key)->0),
        MapMethod::Remove => remove_code(c, s, layout, key_ops(c, key)->0),
        MapMethod::Put => map_put_code(c, s, layout, key_ops(c, key)->0, value),
        MapMethod::Get => map_get_code(
            c,
            s,
            layout,
            key_ops(c, key)->0,
            value,
            function.return_type->Enum_0,
        ),
        MapMethod::Next => next_code(
            c,
            s,
            layout,
            cursor_option(c, function.return_type->Enum_0)->0,
        ),
    }
}

/// What is said of an ill-shaped table method.
pub open spec fn table_fault(c: &EmitContext, function: &IRFunction, what: Seq<char>) -> Seq<char> {
    what + " on `"@ + (c.mangled(function.symbol) + "`"@)
}

/// What is said of a table whose entry has no size.
pub open spec fn layout_fault(c: &EmitContext, function: &IRFunction, key: IRType, value: Option<IRType>) -> Seq<
    char,
> {
    if key == IRType::Unit || value == Some(IRType::Unit) {
        no_unit()
    } else {
        table_fault(c, function, "table entry is too large"@)
    }
}

/// What is said of a function that cannot be a `next`.
pub open spec fn next_fault(c: &EmitContext, function: &IRFunction) -> Seq<char> {
    if !(function.return_type is Enum) {
        not_enum(c, function, "collection.next"@, function.return_type)
    } else if !has_param(function, 1, Kind::Int) {
        param_fault(c, function, 1, "cursor"@, Kind::Int)
    } else {
        table_fault(c, function, "collection.next has unexpected Option payload"@)
    }
}

/// What is said of a function that cannot be the `Map` method.
pub open spec fn map_fault(c: &EmitContext, function: &IRFunction, method: MapMethod) -> Seq<char> {
    match map_receiver(function, method) {
        None => table_fault(c, function, "Map method has no receiver"@),
        Some(IRType::MapOf(k, v)) => {
            let (key, value) = (c.node(k), Some(c.node(v)));
            if key == IRType::Unit || value == Some(IRType::Unit) || !entry_fits(c, key, value) {
                layout_fault(c, function, key, value)
            } else {
                match method {
                    MapMethod::HasQ | MapMethod::Remove => if function.params@.len() <= 1 {
                        missing(c, function, 1, "key"@)
                    } else {
                        no_key_ops(c, function, key)
                    },
                    MapMethod::Put => if function.params@.len() <= 2 {
                        missing(c, function, 2, "value"@)
                    } else {
                        no_key_ops(c, function, key)
                    },
                    MapMethod::Get => if !(function.return_type is Enum) {
                        not_enum(c, function, "Map.get"@, function.return_type)
                    } else if function.params@.len() <= 1 {
                        missing(c, function, 1, "key"@)
                    } else if key_ops(c, key) is None {
                        no_key_ops(c, function, key)
                    } else {
                        table_fault(c, function, "Map.get returns an ill-shaped option"@)
                    },
                    MapMethod::Next => next_fault(c, function),
                    _ => ""@,
                }
            }
        },
        Some(ty) => table_fault(
            c,
            function,
            "expected a `Map<K, V>` slot, got "@ + shape_text(ty),
        ),
    }
}

/// What is said of a receiver that is not a table.
pub fn not_a_table(c: &EmitContext, function: &IRFunction, what: &str) -> (r: LlvmError)
    ensures
        says(r, table_fault(c, function, what@)),
{
    LlvmError::Codegen(concat3(what, " on `", concat2(c.name_of(function.symbol), "`").as_str()))
}

/// Lays out a table where its entry has a size.
pub fn checked_layout(c: &EmitContext, function: &IRFunction, key: IRType, value: Option<IRType>) -> (r:
    Result<HashtableLayout, LlvmError>)
    ensures
        match r {
            Ok(layout) => {
                &&& key != IRType::Unit
                &&& value != Some(IRType::Unit)
                &&& entry_fits(c, key, value)
                &&& layout == layout_of(c, key, value)
            },
            Err(e) => {
                &&& says(e, layout_fault(c, function, key, value))
                &&& key == IRType::Unit || value == Some(IRType::Unit) || !entry_fits(c, key, value)
            },
        },
{
    let _key_ty = ir_basic_type(key)?;
    match value {
        Some(v) => {
            let _value_ty = ir_basic_type(v)?;
            let room: u64 = u64::MAX - ir_byte_size(c, key);
            if ir_byte_size(c, v) > room {
                return Err(not_a_table(c, function, "table entry is too large"));
            }
        },
        None => {},
    }
    Ok(table_layout(c, key, value))
}

/// Emits a `Map` method.
pub fn emit_map(c: &EmitContext, function: &IRFunction, f: &mut Body, method: MapMethod) -> (r: Result<
    (),
    LlvmError,
>)
    ensures
        match r {
            Ok(()) => {
                &&& map_ok(c, function, method)
                &&& map_receiver(function, method) matches Some(IRType::MapOf(k, v))
                    && final(f)@ == map_code(c, old(f)@, function, method, c.node(k), c.node(v))
            },
            Err(e) => !map_ok(c, function, method) && says(e, map_fault(c, function, method))
                && final(f)@ == old(f)@,
        },
{
    proof {
        reveal(map_ok);
        reveal(map_code);
    }
    let receiver = if method == MapMethod::New {
        function.return_type
    } else if function.params.len() > 0 {
        function.params[0].ty
    } else {
        return Err(not_a_table(c, function, "Map method has no receiver"));
    };
    match receiver {
        IRType::MapOf(k, v) => {
            let key = c.component(k);
            let value = c.component(v);
            let layout = checked_layout(c, function, key, Some(value))?;
            match method {
                MapMethod::New => emit_new(f, layout.entry_size),
                MapMethod::Length => emit_length(f),
                MapMethod::EmptyQ => emit_empty_q(f),
                MapMethod::FromMap => emit_identity(c, f, layout),
                MapMethod::HasQ => {
                    let _key = nth_param(c, function, 1, "key")?;
                    let ops = resolve_key_hash_ops(c, function, key)?;
                    emit_has_q(f, layout, ops);
                },
                MapMethod::Remove => {
                    let _key = nth_param(c, function, 1, "key")?;
                    let ops = resolve_key_hash_ops(c, function, key)?;
                    emit_remove(c, f, layout, ops);
                },
                MapMethod::Put => {
                    let _value = nth_param(c, function, 2, "value")?;
                    let ops = resolve_key_hash_ops(c, function, key)?;
                    emit_map_put(c, f, layout, ops, value);
                },
                MapMethod::Get => {
                    let option = expect_enum_symbol(c, function, function.return_type, "Map.get")?;
                    let _key = nth_param(c, function, 1, "key")?;
                    let ops = resolve_key_hash_ops(c, function, key)?;
                    if !is_option(c, option) {
                        return Err(not_a_table(c, function, "Map.get returns an ill-shaped option"));
                    }
                    emit_map_get(c, f, layout, ops, value, option);
                },
                MapMethod::Next => {
                    let option = expect_enum_symbol(
                        c,
                        function,
                        function.return_type,
                        "collection.next",
                    )?;
                    let _cursor = nth_int(c, function, 1, "cursor")?;
                    match resolve_cursor_option(c, option) {
                        Some(shape) => emit_next(c, f, layout, shape),
                        None => {
                            return Err(
                                not_a_table(
                                    c,
                                    function,
                                    "collection.next has unexpected Option payload",
                                ),
                            );
                        },
                    }
                },
            }
            Ok(())
        },
        _ => Err(
            not_a_table(c, function, concat2("expected a `Map<K, V>` slot, got ", shape_name(receiver)).as_str()),
        ),
    }
}

} // verus!
