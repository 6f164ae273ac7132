//! `Set<T>` methods.

use vstd::prelude::*;
use crate::ctx::EmitContext;
use crate::error::{says, LlvmError};
use crate::intrinsics::hashtable::cursor::{cursor_option, emit_next, next_code, resolve_cursor_option};
use crate::intrinsics::hashtable::from_list::{emit_set_from_list, set_from_list_code};
use crate::intrinsics::hashtable::insert::{emit_set_insert, set_insert_code};
use crate::intrinsics::hashtable::lifecycle::{
    emit_empty_q, emit_identity, emit_length, emit_new, identity_code,
};
use crate::intrinsics::hashtable::read::{emit_has_q, emit_remove, has_q_code, remove_code};
use crate::intrinsics::hashtable::util::{
    empty_table_code, key_ops, layout_of, no_key_ops, resolve_key_hash_ops,
};
use crate::intrinsics::map::{checked_layout, next_fault, not_a_table, table_fault};
use crate::intrinsics::params::{expect_enum_symbol, has_param, missing, nth_int, nth_param, nth_struct, param_fault};
use crate::ir::{IRFunction, IRType, SetMethod};
use crate::llvm::{itest, num, Body, Code, Inst, LType, Pred, Val};
use crate::text::concat2;
use crate::types::{no_unit, shape_name, shape_text, Kind};

verus! {

/// The type that names a method's instantiation: what `new` and
/// `from_list` return, and the receiver of every other method.
pub open spec fn set_receiver(function: &IRFunction, method: SetMethod) -> Option<IRType> {
    if method == SetMethod::New || method == SetMethod::FromList {
        Some(function.return_type)
    } else if function.params@.len() > 0 {
        Some(function.params@[0].ty)
    } else {
        None
    }
}

/// The function is one whose body the method can be.
#[verifier::opaque]
pub open spec fn set_ok(c: &EmitContext, function: &IRFunction, method: SetMethod) -> bool {
    match set_receiver(function, method) {
        Some(IRType::SetOf(t)) => {
            let item = c.node(t);
            &&& item != IRType::Unit
            &&& match method {
                SetMethod::New | SetMethod::Length | SetMethod::EmptyQ | SetMethod::FromSet => true,
                SetMethod::HasQ | SetMethod::Remove | SetMethod::Insert => function.params@.len() > 1
                    && key_ops(c, item) is Some,
                SetMethod::FromList => has_param(function, 0, Kind::Aggregate) && key_ops(
                    c,
                    item,
                ) is Some,
                SetMethod::Next => {
                    &&& has_param(function, 1, Kind::Int)
                    &&& function.return_type matches IRType::Enum(o) && cursor_option(c, o) is Some
                },
            }
        },
        _ => false,
    }
}

/// The body of a method of a `Set` of `item`.
#[verifier::opaque]
pub open spec fn set_code(
    c: &EmitContext,
    s: Code,
    function: &IRFunction,
    method: SetMethod,
    item: IRType,
) -> Code {
    let layout = layout_of(c, item, None);
    match method {
        SetMethod::New => empty_table_code(s, layout.entry_size).i(Inst::Ret(LType::Table, s.v(7))),
        SetMethod::Length => s.i(Inst::Extract(LType::Table, Val::Param(0), 2)).i(
            Inst::Ret(LType::I64, s.v(0)),
        ),
        SetMethod::EmptyQ => s.i(Inst::Extract(LType::Table, Val::Param(0), 2))
            .i(itest(Pred::Eq, s.v(0), num(0)))
            .i(Inst::Ret(LType::I1, s.v(1))),
        SetMethod::FromSet => identity_code(c, s, layout),
        SetMethod::HasQ => has_q_code(s, layout, key_ops(c, item)->0),
        SetMethod::Remove => remove_code(c, s, layout, key_ops(c, item)->0),
        SetMethod::Insert => set_insert_code(c, s, layout, key_ops(c, item)->0),
        SetMethod::FromList => set_from_list_code(c, s, layout, key_ops(c, item)->0),
        SetMethod::Next => next_code(
            c,
            s,
            layout,
            cursor_option(c, function.return_type->Enum_0)->0,
        ),
    }
}

/// What is said of a function that cannot be the `Set` method.
pub open spec fn set_fault(c: &EmitContext, function: &IRFunction, method: SetMethod) -> Seq<char> {
    match set_receiver(function, method) {
        None => table_fault(c, function, "Set method has no receiver"@),
        Some(IRType::SetOf(t)) => {
            let item = c.node(t);
            if item == IRType::Unit {
                no_unit()
            } else {
                match method {
                    SetMethod::HasQ | SetMethod::Remove | SetMethod::Insert => if function.params@.len()
                        <= 1 {
                        missing(c, function, 1, "item"@)
                    } else {
                        no_key_ops(c, function, item)
                    },
                    SetMethod::FromList => if !has_param(function, 0, Kind::Aggregate) {
                        param_fault(c, function, 0, "list"@, Kind::Aggregate)
                    } else {
                        no_key_ops(c, function, item)
                    },
                    SetMethod::Next => next_fault(c, function),
                    _ => ""@,
                }
            }
        },
        Some(ty) => table_fault(c, function, "expected a `Set<T>` slot, got "@ + shape_text(ty)),
    }
}

/// Emits a `Set` method.
pub fn emit_set(c: &EmitContext, function: &IRFunction, f: &mut Body, method: SetMethod) -> (r: Result<
    (),
    LlvmError,
>)
    ensures
        match r {
            Ok(()) => {
                &&& set_ok(c, function, method)
                &&& set_receiver(function, method) matches Some(IRType::SetOf(t)) && final(f)@
                    == set_code(c, old(f)@, function, method, c.node(t))
            },
            Err(e) => !set_ok(c, function, method) && says(e, set_fault(c, function, method))
                && final(f)@ == old(f)@,
        },
{
    proof {
        reveal(set_ok);
        reveal(set_code);
    }
    let receiver = if method == SetMethod::New || method == SetMethod::FromList {
        function.return_type
    } else if function.params.len() > 0 {
        function.params[0].ty
    } else {
        return Err(not_a_table(c, function, "Set method has no receiver"));
    };
    match receiver {
        IRType::SetOf(t) => {
            let item = c.component(t);
            let layout = checked_layout(c, function, item, None)?;
            match method {
                SetMethod::New => emit_new(f, layout.entry_size),
                SetMethod::Length => emit_length(f),
                SetMethod::EmptyQ => emit_empty_q(f),
                SetMethod::FromSet => emit_identity(c, f, layout),
                SetMethod::HasQ => {
                    let _item = nth_param(c, function, 1, "item")?;
                    let ops = resolve_key_hash_ops(c, function, item)?;
                    emit_has_q(f, layout, ops);
                },
                SetMethod::Remove => {
                    let _item = nth_param(c, function, 1, "item")?;
                    let ops = resolve_key_hash_ops(c, function, item)?;
                    emit_remove(c, f, layout, ops);
                },
                SetMethod::Insert => {
                    let _item = nth_param(c, function, 1, "item")?;
                    let ops = resolve_key_hash_ops(c, function, item)?;
                    emit_set_insert(c, f, layout, ops);
                },
                SetMethod::FromList => {
                    let _list = nth_struct(c, function, 0, "list")?;
                    let ops = resolve_key_hash_ops(c, function, item)?;
                    emit_set_from_list(c, f, layout, ops);
                },
                SetMethod::Next => {
                    let option = expect_enum_symbol(
                        c,
                        function,
                        function.return_type,
                        "collection.next",
                    )?;
                    let _cursor = nth_int(c, function, 1, "cursor")?;
                    match resolve_cursor_option(c, option) {
                        Some(shape) => emit_next(c, f, layout, shape),
                        None => {
                            return Err(
                                not_a_table(
                                    c,
                                    function,
                                    "collection.next has unexpected Option payload",
                                ),
                            );
                        },
                    }
                },
            }
            Ok(())
        },
        _ => Err(
            not_a_table(
                c,
                function,
                concat2("expected a `Set<T>` slot, got ", shape_name(receiver)).as_str(),
            ),
        ),
    }
}

} // verus!
