//! The layout of declared structs: one field per declared field, in
//! order.

use vstd::prelude::*;
use crate::ir::IRStructDecl;
use crate::llvm::LType;
use crate::types::{value_basic_type, value_type};

verus! {

/// The field types of a struct.
pub open spec fn struct_body(decl: IRStructDecl) -> Seq<LType> {
    Seq::new(decl.fields@.len(), |i: int| value_type(decl.fields@[i].ir_type))
}

/// Lays out a struct.
pub fn define_struct_body(decl: &IRStructDecl) -> (r: Vec<LType>)
    ensures
        r@ == struct_body(*decl),
{
    let mut body: Vec<LType> = Vec::new();
    let mut i: usize = 0;
    while i < decl.fields.len()
        invariant
            i <= decl.fields@.len(),
            body@ == struct_body(*decl).subrange(0, i as int),
        decreases decl.fields@.len() - i,
    {
        body.push(value_basic_type(decl.fields[i].ir_type));
        i = i + 1;
        assert(body@ =~= struct_body(*decl).subrange(0, i as int));
    }
    assert(body@ =~= struct_body(*decl));
    body
}

} // verus!
