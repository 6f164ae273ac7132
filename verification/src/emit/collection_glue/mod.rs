//! Clone, deep-copy and drop glue of collections. Aggregate glue comes
//! with a body of its own; a collection's is a walk over its buffers,
//! made from the operand type.
//!
//! - clone copies the buffers and acquires every element;
//! - deep copy is the same walk with a deep copy of every element;
//! - drop releases every element and frees the buffers.

use vstd::prelude::*;
use crate::ctx::{EmitContext, GlueKind};
use crate::emit::collection_glue::list::{copy_list, copy_list_code, drop_list, drop_list_code};
use crate::emit::collection_glue::table::{copy_table, copy_table_code, drop_table, drop_table_code};
use crate::error::{says, LlvmError};
use crate::intrinsics::element::Walk;
use crate::intrinsics::hashtable::util::{entry_fits, layout_of};
use crate::intrinsics::map::{checked_layout, layout_fault};
use crate::ir::{IRFunction, IRType};
use crate::llvm::{Body, Code};
use crate::text::concat3;
use crate::types::{ir_basic_type, no_unit};

pub mod list;
pub mod table;

verus! {

/// A collection, by what its buffers hold.
pub open spec fn table_parts(c: &EmitContext, ty: IRType) -> Option<(IRType, Option<IRType>)> {
    match ty {
        IRType::SetOf(t) => Some((c.node(t), None)),
        IRType::MapOf(k, v) => Some((c.node(k), Some(c.node(v)))),
        _ => None,
    }
}

/// The operand of a glue function is a collection of sized elements.
pub open spec fn collection_ok(c: &EmitContext, function: &IRFunction) -> bool {
    function.params@.len() > 0 && match function.params@[0].ty {
        IRType::List(t) => c.node(t) != IRType::Unit,
        IRType::SetOf(t) => c.node(t) != IRType::Unit,
        IRType::MapOf(k, v) => c.node(k) != IRType::Unit && c.node(v) != IRType::Unit && entry_fits(
            c,
            c.node(k),
            Some(c.node(v)),
        ),
        _ => false,
    }
}

/// The body of a collection's glue function.
pub open spec fn collection_glue_code(
    c: &EmitContext,
    s: Code,
    function: &IRFunction,
    kind: GlueKind,
) -> Code {
    match function.params@[0].ty {
        IRType::List(t) => match kind {
            GlueKind::Clone => copy_list_code(c, s, c.node(t), Walk::Acquire),
            GlueKind::DeepCopy => copy_list_code(c, s, c.node(t), Walk::DeepCopy),
            GlueKind::Drop => drop_list_code(c, s, c.node(t)),
        },
        ty => {
            let (key, value) = table_parts(c, ty)->0;
            let layout = layout_of(c, key, value);
            match kind {
                GlueKind::Clone => copy_table_code(c, s, layout, Walk::Acquire),
                GlueKind::DeepCopy => copy_table_code(c, s, layout, Walk::DeepCopy),
                GlueKind::Drop => drop_table_code(c, s, layout),
            }
        },
    }
}

/// Emits the body of a collection's glue function.
pub fn emit_collection_glue_body(
    c: &EmitContext,
    function: &IRFunction,
    f: &mut Body,
    kind: GlueKind,
) -> (r: Result<(), LlvmError>)
    ensures
        match r {
            Ok(()) => collection_ok(c, function) && final(f)@ == collection_glue_code(
                c,
                old(f)@,
                function,
                kind,
            ),
            Err(e) => !collection_ok(c, function) && says(e, collection_fault(c, function)) && final(f)@
                == old(f)@,
        },
{
    if function.params.len() == 0 {
        return Err(not_a_collection(c, function));
    }
    let operand = function.params[0].ty;
    match operand {
        IRType::List(t) => {
            let element = c.component(t);
            let _ty = ir_basic_type(element)?;
            match kind {
                GlueKind::Clone => copy_list(c, f, element, Walk::Acquire),
                GlueKind::DeepCopy => copy_list(c, f, element, Walk::DeepCopy),
                GlueKind::Drop => drop_list(c, f, element),
            }
            Ok(())
        },
        IRType::SetOf(_) | IRType::MapOf(_, _) => {
            let (key, value) = match operand {
                IRType::MapOf(k, v) => (c.component(k), Some(c.component(v))),
                IRType::SetOf(t) => (c.component(t), None),
                _ => (IRType::Unit, None),
            };
            let layout = checked_layout(c, function, key, value)?;
            match kind {
                GlueKind::Clone => copy_table(c, f, layout, Walk::Acquire),
                GlueKind::DeepCopy => copy_table(c, f, layout, Walk::DeepCopy),
                GlueKind::Drop => drop_table(c, f, layout),
            }
            Ok(())
        },
        _ => Err(not_a_collection(c, function)),
    }
}

/// What is said of a function that cannot be glue of a collection.
pub open spec fn collection_fault(c: &EmitContext, function: &IRFunction) -> Seq<char> {
    if function.params@.len() == 0 {
        no_collection(c, function)
    } else {
        match function.params@[0].ty {
            IRType::List(_) => no_unit(),
            IRType::MapOf(k, v) => layout_fault(c, function, c.node(k), Some(c.node(v))),
            IRType::SetOf(t) => layout_fault(c, function, c.node(t), None),
            _ => no_collection(c, function),
        }
    }
}

/// What is said of glue that does not take a collection.
pub open spec fn no_collection(c: &EmitContext, function: &IRFunction) -> Seq<char> {
    "collection glue `"@ + c.mangled(function.symbol) + "` does not take a collection"@
}

fn not_a_collection(c: &EmitContext, function: &IRFunction) -> (r: LlvmError)
    ensures
        says(r, no_collection(c, function)),
{
    LlvmError::Codegen(
        concat3(
            "collection glue `",
            c.name_of(function.symbol),
            "` does not take a collection",
        ),
    )
}

} // verus!
