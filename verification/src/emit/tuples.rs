//! Tuple literals and projections. A tuple is an anonymous struct of its
//! elements; no element is ever boxed.

use vstd::prelude::*;
use crate::ctx::EmitContext;
use crate::emit::frame::{Frame, Scope};
use crate::error::{says, LlvmError};
use crate::ir::{IRType, ValueId};
use crate::llvm::{Body, Code, Inst, LType, Val};
use crate::types::{ir_basic_type, no_unit, value_basic_type, value_type};

verus! {

/// The stores of the first `k` elements into a tuple's slot.
pub open spec fn tuple_stores_code(
    c: &EmitContext,
    s: Code,
    tuple: usize,
    slot: Val,
    vals: Seq<Val>,
    k: nat,
) -> Code
    decreases k,
{
    if k == 0 {
        s
    } else {
        let t = tuple_stores_code(c, s, tuple, slot, vals, (k - 1) as nat);
        t.i(Inst::Field(LType::Tuple(tuple), slot, (k - 1) as usize)).i(
            Inst::Store(value_type(c.elements(tuple)[k - 1]), vals[k - 1], t.v(0)),
        )
    }
}

/// A tuple of some values: none where there are more than the tuple has
/// elements.
pub open spec fn tuple_init_code(
    c: &EmitContext,
    s: Code,
    sc: Scope,
    elements: Seq<ValueId>,
    tuple: usize,
) -> Option<(Code, Val)> {
    match sc.all_values(elements) {
        Some(vals) => if vals.len() <= c.elements(tuple).len() {
            let t = tuple_stores_code(
                c,
                s.slot(LType::Tuple(tuple)),
                tuple,
                s.sv(0),
                vals,
                vals.len(),
            );
            Some((t.i(Inst::Load(LType::Tuple(tuple), s.sv(0))), t.v(0)))
        } else {
            None
        },
        None => None,
    }
}

/// What is said of a tuple literal that cannot be emitted.
pub open spec fn tuple_init_fault(sc: Scope, elements: Seq<ValueId>) -> Seq<char> {
    if sc.all_values(elements) is None {
        sc.missing_value(elements, 0)
    } else {
        "tuple literal holds too many elements"@
    }
}

/// Emits a tuple literal.
pub fn emit_tuple_init(
    c: &EmitContext,
    f: &mut Body,
    fr: &Frame,
    elements: &Vec<ValueId>,
    tuple: usize,
) -> (r: Result<Val, LlvmError>)
    ensures
        match r {
            Ok(v) => tuple_init_code(c, old(f)@, fr@, elements@, tuple) == Some((final(f)@, v)),
            Err(e) => tuple_init_code(c, old(f)@, fr@, elements@, tuple) is None && says(
                e,
                tuple_init_fault(fr@, elements@),
            ),
        },
{
    let vals = fr.lookup_all(elements)?;
    if vals.len() > c.tuple_len(tuple) {
        return Err(LlvmError::Codegen("tuple literal holds too many elements".to_owned()));
    }
    let slot = f.slot(LType::Tuple(tuple));
    let ghost h = f@;
    let mut i: usize = 0;
    while i < vals.len()
        invariant
            i <= vals.len(),
            vals@.len() <= c.elements(tuple).len(),
            f@ == tuple_stores_code(c, h, tuple, slot, vals@, i as nat),
        decreases vals.len() - i,
    {
        let field = f.ins(Inst::Field(LType::Tuple(tuple), slot, i));
        let ty = match c.tuple_element(tuple, i) {
            Some(ty) => ty,
            None => IRType::Unit,
        };
        f.ins(Inst::Store(value_basic_type(ty), vals[i], field));
        i = i + 1;
    }
    Ok(f.ins(Inst::Load(LType::Tuple(tuple), slot)))
}

/// One element of a tuple value: none past its end and none of type
/// `Unit`.
pub open spec fn tuple_get_code(
    c: &EmitContext,
    s: Code,
    base: Val,
    index: usize,
    tuple: usize,
) -> Option<(Code, Val)> {
    if index < c.elements(tuple).len() && c.elements(tuple)[index as int] != IRType::Unit {
        Some(
            (
                s.slot(LType::Tuple(tuple))
                    .i(Inst::Store(LType::Tuple(tuple), base, s.sv(0)))
                    .i(Inst::Field(LType::Tuple(tuple), s.sv(0), index))
                    .i(Inst::Load(value_type(c.elements(tuple)[index as int]), s.v(1))),
                s.v(2),
            ),
        )
    } else {
        None
    }
}

/// What is said of a projection that cannot be emitted.
pub open spec fn tuple_get_fault(c: &EmitContext, index: usize, tuple: usize) -> Seq<char> {
    if index < c.elements(tuple).len() {
        no_unit()
    } else {
        "tuple projection past its elements"@
    }
}

/// Emits the projection of one element out of a tuple value.
pub fn emit_tuple_get(c: &EmitContext, f: &mut Body, base: Val, index: usize, tuple: usize) -> (r:
    Result<Val, LlvmError>)
    ensures
        match r {
            Ok(v) => tuple_get_code(c, old(f)@, base, index, tuple) == Some((final(f)@, v)),
            Err(e) => tuple_get_code(c, old(f)@, base, index, tuple) is None && says(
                e,
                tuple_get_fault(c, index, tuple),
            ),
        },
{
    match c.tuple_element(tuple, index) {
        Some(element) => {
            let ty = ir_basic_type(element)?;
            let slot = f.slot(LType::Tuple(tuple));
            f.ins(Inst::Store(LType::Tuple(tuple), base, slot));
            let field = f.ins(Inst::Field(LType::Tuple(tuple), slot, index));
            Ok(f.ins(Inst::Load(ty, field)))
        },
        None => Err(LlvmError::Codegen("tuple projection past its elements".to_owned())),
    }
}

} // verus!
