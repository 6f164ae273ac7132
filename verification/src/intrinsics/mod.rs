//! Bodies of `@intrinsic` functions.

pub mod acquiring;
pub mod binary;
pub mod bitwise;
pub mod cptr;
pub mod cstring;
pub mod debug;
pub mod dispatch;
pub mod element;
pub mod equality;
pub mod found_values;
pub mod hash;
pub mod hashtable;
pub mod heap_payload;
pub mod kernel;
pub mod leaf_values;
pub mod list;
pub mod list_values;
pub mod map;
pub mod messaging;
pub mod number_values;
pub mod numeric;
pub mod outcomes;
pub mod params;
pub mod parse;
pub mod payload_values;
pub mod popping;
pub mod process;
pub mod refusals;
pub mod result;
pub mod set;
pub mod sizes;
pub mod socket;
pub mod socket_values;
pub mod string;
pub mod value_semantics;
