//! LLVM backend for sealed IR programs and scripts.
//!
//! [`emit_llvm_ir`] compiles a program to the text of its LLVM module and
//! [`emit_script_llvm_ir`] does so for a script. [`layout`] fixes the
//! layout of declared types, [`function`] declares and defines functions,
//! [`emit`] lowers instructions, [`intrinsics`] writes the bodies of
//! `@intrinsic` functions, [`print`] turns recorded bodies into assembly
//! text, and [`native`] hands that text to LLVM. What recorded code
//! computes, stores and owns is said in [`semantics`], [`memory`] and
//! [`ownership`].

use vstd::prelude::*;

pub mod ctx;
pub mod debug;
pub mod emit;
pub mod error;
pub mod function;
pub mod intrinsics;
pub mod ir;
pub mod layout;
pub mod llvm;
pub mod memory;
pub mod native;
pub mod ownership;
pub mod print;
pub mod program;
pub mod runtime;
pub mod semantics;
pub mod text;
pub mod types;

pub use crate::error::LlvmError;
pub use crate::program::{emit_llvm_ir, emit_script_llvm_ir, IRProgram, IRScript};

verus! {

/// The CPU that emitted code may assume.
#[derive(Clone, Copy, Debug, PartialEq, Eq, Structural)]
pub enum TargetCpu {
    /// A portable baseline of the build architecture.
    Baseline,
    /// The machine that the compiler runs on.
    Native,
}

/// How hard LLVM optimizes.
#[derive(Clone, Copy, Debug, PartialEq, Eq, Structural)]
pub enum OptLevel {
    Off,
    Aggressive,
}

/// Code generation settings of a compile to an object file.
#[derive(Clone, Copy, Debug, PartialEq, Eq, Structural)]
pub struct CompileOptions {
    /// Run LLVM's optimization pipeline.
    pub release: bool,
    /// The CPU that emitted code may assume.
    pub target_cpu: TargetCpu,
}

impl Default for CompileOptions {
    fn default() -> (r: CompileOptions)
        ensures
            r == (CompileOptions { release: false, target_cpu: TargetCpu::Baseline }),
    {
        CompileOptions { release: false, target_cpu: TargetCpu::Baseline }
    }
}

impl CompileOptions {
    /// How hard LLVM optimizes under these settings.
    pub fn opt_level(self) -> (r: OptLevel)
        ensures
            r == (if self.release {
                OptLevel::Aggressive
            } else {
                OptLevel::Off
            }),
    {
        if self.release {
            OptLevel::Aggressive
        } else {
            OptLevel::Off
        }
    }
}

} // verus!
