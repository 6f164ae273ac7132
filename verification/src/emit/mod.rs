//! Emission of IR instructions.

pub mod arithmetic;
pub mod binary_match;
pub mod blocks;
pub mod calls;
pub mod clone;
pub mod closure_values;
pub mod closures;
pub mod collection_glue;
pub mod concat;
pub mod control;
pub mod deep_copy;
pub mod enums;
pub mod frame;
pub mod heap_layout;
pub mod indirect;
pub mod instruction;
pub mod locals;
pub mod matching;
pub mod meaning;
pub mod ops;
pub mod process;
pub mod receiving;
pub mod tuples;
pub mod variants;
