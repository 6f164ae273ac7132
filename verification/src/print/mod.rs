//! LLVM assembly text.

pub mod bodies;
pub mod definitions;
pub mod faithful;
pub mod functions;
pub mod insts;
pub mod module;
pub mod read_back;
pub mod read_calls;
pub mod read_lines;
pub mod reading;
pub mod types;
pub mod values;
