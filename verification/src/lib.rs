//! A small Scheme runtime: a mark-and-sweep collector over an arena of
//! generation-checked slots, and the bytecode interpreter whose registers,
//! stack, globals and code constants are the collector's roots.

pub mod error;
pub mod gc;
pub mod heap;
pub mod laws;
pub mod machine;
pub mod objects;
pub mod op;
pub mod procs;
pub mod safety;
pub mod vm;
