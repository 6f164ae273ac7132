//! The calls into LLVM.
//!
//! A module goes to LLVM as assembly text. LLVM parses and verifies it
//! and gives it back in its own canonical form; it also tells how many
//! bytes a type takes on this machine.

use inkwell::context::Context;
use inkwell::memory_buffer::MemoryBuffer;
use inkwell::targets::{CodeModel, InitializationConfig, RelocMode, Target, TargetMachine};
use inkwell::OptimizationLevel;
use vstd::prelude::*;
use crate::ctx::{Declared, EmitContext};
use crate::error::{codegen_err, says, LlvmError};
use crate::llvm::{Code, LType};
use crate::print::module::{module_text, put_all_types, types_text};
use crate::print::types::{put_type, type_text};
use crate::text::{concat2, concat3, put, starts_with};

verus! {

/// What LLVM makes of a module in assembly text, given the module's name:
/// its canonical text, or what is wrong with it.
pub uninterp spec fn canonical_ir(text: Seq<char>, name: Seq<char>) -> Result<Seq<char>, Seq<char>>;

/// The size in bytes that LLVM gives the type of a global of a module in
/// assembly text, under a data layout.
pub uninterp spec fn abi_size(text: Seq<char>, global: Seq<char>, layout: Seq<char>) -> u64;

/// Some function goes by a name that LLVM keeps for its own. LLVM rewrites
/// such functions as it reads them, and ends the process on some that have
/// not the signature it expects.
pub open spec fn takes_llvm_name(declared: Seq<Declared>) -> bool {
    exists|i: int| 0 <= i < declared.len() && "llvm."@.is_prefix_of((#[trigger] declared[i]).name@)
}

/// Whether some function goes by a name that LLVM keeps for its own.
pub fn has_llvm_name(declared: &Vec<Declared>) -> (r: bool)
    ensures
        r == takes_llvm_name(declared@),
{
    let mut i: usize = 0;
    while i < declared.len()
        invariant
            i <= declared@.len(),
            forall|j: int|
                0 <= j < i ==> !"llvm."@.is_prefix_of((#[trigger] declared@[j]).name@),
        decreases declared@.len() - i,
    {
        if starts_with(declared[i].name.as_str(), "llvm.") {
            return true;
        }
        i = i + 1;
    }
    false
}

/// The text is a module that the library prints, with no function under a
/// name of LLVM's.
pub open spec fn is_printed(text: Seq<char>) -> bool {
    exists|c: EmitContext, bodies: Seq<Code>, name: Seq<char>|
        text == #[trigger] module_text(&c, bodies, name) && !takes_llvm_name(c.declared@)
}

/// `inkwell`'s `Context::create_module_from_ir`, then `Module::verify`
/// and `Module::print_to_string` on a buffer that holds `text` under
/// `name`.
///
/// The result is what LLVM says of the text: it is the same for the same
/// text and name. Nothing is said of which texts LLVM accepts. The text is
/// one that the library prints: it sets no layout, holds no metadata and
/// names no type of one processor.
#[verifier::external_body]
fn parse_and_print(text: &str, name: &str) -> (r: Result<String, String>)
    requires
        is_printed(text@),
    ensures
        (match r {
            Ok(t) => Ok::<Seq<char>, Seq<char>>(t@),
            Err(e) => Err(e@),
        }) == canonical_ir(text@, name@),
{
    let context = Context::create();
    let buffer = MemoryBuffer::create_from_memory_range_copy(text.as_bytes(), name);
    let module = context.create_module_from_ir(buffer).map_err(|e| e.to_string())?;
    module.verify().map_err(|e| e.to_string())?;
    Ok(module.print_to_string().to_string())
}

/// The module that a type is measured with: every declared type, a global
/// of the type, and a function that allocates one. LLVM refuses to allocate
/// what has no size.
pub open spec fn measuring_text(c: &EmitContext, ty: LType) -> Seq<char> {
    let o = type_text(c, types_text(c, ""@) + "@measured = external global "@, ty)
        + "\ndefine void @check() {\n  %t = alloca "@;
    type_text(c, o, ty) + "\n  ret void\n}\n"@
}

/// The text is a module that some type is measured with.
pub open spec fn measures(text: Seq<char>) -> bool {
    exists|c: EmitContext, ty: LType| text == #[trigger] measuring_text(&c, ty)
}

/// The module that a type is measured with.
pub fn measuring(c: &EmitContext, ty: LType) -> (r: String)
    ensures
        r@ == measuring_text(c, ty),
{
    let mut text = "".to_owned();
    put_all_types(c, &mut text);
    put(&mut text, "@measured = external global ");
    put_type(c, &mut text, ty);
    put(&mut text, "\ndefine void @check() {\n  %t = alloca ");
    put_type(c, &mut text, ty);
    put(&mut text, "\n  ret void\n}\n");
    text
}

/// `inkwell`'s `TargetData::get_abi_size` of the type of a global of a
/// module, for the machine this runs on, with the data layout
/// (`TargetData::get_data_layout`) that it was taken under. A text that
/// LLVM does not read, a global that is not there and a type without a size
/// are errors. LLVM does not come back from the question whether a struct
/// that holds itself has a size, so the text is one that LLVM refuses to
/// read in that case.
///
/// The size is the same for the same text, global and layout. Which layout
/// it is, and whether a target machine can be had, depends on the machine,
/// so nothing is promised of that.
#[verifier::external_body]
fn host_abi_size(text: &str, global: &str) -> (r: Result<(u64, String), String>)
    requires
        measures(text@),
    ensures
        r matches Ok(p) ==> p.0 == abi_size(text@, global@, p.1@),
{
    Target::initialize_native(&InitializationConfig::default())?;
    let triple = TargetMachine::get_default_triple();
    let target = Target::from_triple(&triple).map_err(|e| e.to_string())?;
    let level = OptimizationLevel::None;
    let machine = target
        .create_target_machine(&triple, "", "", level, RelocMode::Default, CodeModel::Default);
    let sizes = machine.ok_or("no target machine")?.get_target_data();
    let context = Context::create();
    let buffer = MemoryBuffer::create_from_memory_range_copy(text.as_bytes(), global);
    let module = context.create_module_from_ir(buffer).map_err(|e| e.to_string())?;
    let ty = module.get_global(global).ok_or("nothing to measure")?.get_value_type();
    ty.size_of().ok_or("a type without a size")?;
    Ok((sizes.get_abi_size(&ty), sizes.get_data_layout().as_str().to_string_lossy().to_string()))
}

/// The place behind the next `k` lines of a text.
pub open spec fn behind_lines(text: Seq<char>, i: int, k: nat) -> int
    decreases text.len() - i,
{
    if i >= text.len() || k == 0 {
        i
    } else if text[i] == '\n' {
        behind_lines(text, i + 1, (k - 1) as nat)
    } else {
        behind_lines(text, i + 1, k)
    }
}

/// A module's text with a data layout, behind its name and its source.
pub open spec fn pinned_text(text: Seq<char>, layout: Seq<char>) -> Seq<char> {
    let at = behind_lines(text, 0, 2);
    text.subrange(0, at) + "target datalayout = \""@ + layout + "\"\n"@ + text.subrange(
        at,
        text.len() as int,
    )
}

/// Pins a data layout in a module's text.
pub fn pinned(text: &str, layout: &str) -> (r: String)
    ensures
        r@ == pinned_text(text@, layout@),
{
    let n: usize = text.unicode_len();
    let mut i: usize = 0;
    let mut k: usize = 2;
    while i < n && k > 0
        invariant
            i <= n,
            n == text@.len(),
            behind_lines(text@, 0, 2) == behind_lines(text@, i as int, k as nat),
        decreases n - i,
    {
        if text.get_char(i) == '\n' {
            k = k - 1;
        }
        i = i + 1;
    }
    let mut out = text.substring_char(0, i).to_owned();
    put(&mut out, "target datalayout = \"");
    put(&mut out, layout);
    put(&mut out, "\"\n");
    put(&mut out, text.substring_char(i, n));
    out
}

/// What is said of a module that LLVM refuses, and of where it was kept
/// for a look at it.
pub open spec fn refused(dump: Option<Seq<char>>, message: Seq<char>) -> Seq<char> {
    "module verification failed"@ + (match dump {
        Some(path) => " (module dumped to "@ + path + ")"@,
        None => ""@,
    }) + ": "@ + message
}

/// The error of a module that LLVM refuses.
pub fn verification_failure(dump: Option<&str>, message: &str) -> (r: LlvmError)
    ensures
        says(
            r,
            refused(
                match dump {
                    Some(path) => Some(path@),
                    None => None,
                },
                message@,
            ),
        ),
{
    let suffix = match dump {
        Some(path) => concat3(" (module dumped to ", path, ")"),
        None => "".to_owned(),
    };
    codegen_err(concat2("module verification failed", suffix.as_str()).as_str(), message)
}

/// What a compile makes of what LLVM said of its module.
pub fn verified_module(outcome: Result<String, String>) -> (r: Result<String, LlvmError>)
    ensures
        match (outcome, r) {
            (Ok(t), Ok(s)) => s == t,
            (Err(m), Err(e)) => says(e, refused(None, m@)),
            _ => false,
        },
{
    match outcome {
        Ok(text) => Ok(text),
        Err(message) => Err(verification_failure(None, message.as_str())),
    }
}

/// Hands a module to LLVM: its canonical text, or an error that says what
/// LLVM says.
pub fn verify_module(text: &str, name: &str) -> (r: Result<String, LlvmError>)
    requires
        is_printed(text@),
    ensures
        match (canonical_ir(text@, name@), r) {
            (Ok(t), Ok(s)) => s@ == t,
            (Err(m), Err(e)) => says(e, refused(None, m)),
            _ => false,
        },
{
    verified_module(parse_and_print(text, name))
}

/// What a compile makes of what LLVM said of a type's size.
pub fn measured_size(outcome: Result<(u64, String), String>) -> (r: Result<(u64, String), LlvmError>)
    ensures
        match (outcome, r) {
            (Ok(n), Ok(m)) => m == n,
            (Err(m), Err(LlvmError::ObjectEmit(e))) => e == m,
            _ => false,
        },
{
    match outcome {
        Ok(size) => Ok(size),
        Err(message) => Err(LlvmError::ObjectEmit(message)),
    }
}

/// The size of a type under a data layout, as the tables stand: what LLVM
/// says of the global in `measuring_text`.
pub open spec fn size_under(c: &EmitContext, ty: LType, layout: Seq<char>) -> u64 {
    abi_size(measuring_text(c, ty), "measured"@, layout)
}

/// Measures a type on this machine: its size, and the data layout that it
/// has that size under.
pub fn measure(c: &EmitContext, ty: LType) -> (r: Result<(u64, String), LlvmError>)
    ensures
        match r {
            Ok(p) => p.0 == size_under(c, ty, p.1@),
            Err(e) => e is ObjectEmit,
        },
{
    let text = measuring(c, ty);
    assert(text@ == measuring_text(&*c, ty));
    measured_size(host_abi_size(text.as_str(), "measured"))
}

} // verus!
