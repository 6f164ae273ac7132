//! Public error type produced by the LLVM backend.

use vstd::prelude::*;
use crate::text::{concat2, concat3};

verus! {

/// What can go wrong while a program is compiled. Each variant is a
/// short message.
#[derive(Debug, Clone, PartialEq, Eq)]
pub enum LlvmError {
    /// Failed to emit LLVM IR, e.g. a feature-gap instruction or an
    /// ill-shaped signature was encountered.
    Codegen(String),
    /// Target machine setup failed or the produced module was rejected
    /// when the object file was written.
    ObjectEmit(String),
}

impl LlvmError {
    /// The text shown to a user.
    pub open spec fn display(&self) -> Seq<char> {
        match self {
            LlvmError::Codegen(msg) => "LLVM codegen failed: "@ + msg@,
            LlvmError::ObjectEmit(msg) => "LLVM object emit failed: "@ + msg@,
        }
    }

    /// The error as the text shown to a user.
    pub fn to_text(&self) -> (r: String)
        ensures
            r@ == self.display(),
    {
        match self {
            LlvmError::Codegen(msg) => concat2("LLVM codegen failed: ", msg.as_str()),
            LlvmError::ObjectEmit(msg) => concat2("LLVM object emit failed: ", msg.as_str()),
        }
    }
}

/// `e` is a codegen error that says `message`.
pub open spec fn says(e: LlvmError, message: Seq<char>) -> bool {
    e matches LlvmError::Codegen(m) && m@ == message
}

/// A codegen error: what was being done, and what went wrong.
pub fn codegen_err(context: &str, cause: &str) -> (r: LlvmError)
    ensures
        says(r, context@ + ": "@ + cause@),
{
    LlvmError::Codegen(concat3(context, ": ", cause))
}

} // verus!
