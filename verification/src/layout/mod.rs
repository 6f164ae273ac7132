//! Layout of declared types.

pub mod enum_order;
pub mod structs;
pub mod topo;
pub mod unions;
pub mod wire_contract;
