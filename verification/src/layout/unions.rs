//! The layout of unions: `{ i64 tag, [m x i64] payload }`. The payload is
//! counted in words, so that the whole value is word-aligned and passes
//! in word-sized pieces.

use vstd::prelude::*;
use crate::ir::IRUnionDecl;

verus! {

/// How many words hold the widest member.
pub open spec fn union_words(decl: IRUnionDecl) -> int {
    (decl.max_payload_size + 7) / 8
}

/// Lays out a union: the number of payload words.
pub fn define_union_body(decl: &IRUnionDecl) -> (r: u32)
    ensures
        r == union_words(*decl),
{
    if decl.max_payload_size == 0 {
        0
    } else {
        (decl.max_payload_size - 1) / 8 + 1
    }
}

/// The payload words hold the widest member, and no word is spare.
pub proof fn payload_fits_tightly(decl: IRUnionDecl)
    ensures
        8 * union_words(decl) >= decl.max_payload_size,
        8 * (union_words(decl) - 1) < decl.max_payload_size,
{
}

} // verus!
