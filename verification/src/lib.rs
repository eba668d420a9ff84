//! Verified core of a compiler from Wasm modules to rWasm bytecode.

pub mod binary_format;
pub mod bitwise;
pub mod common;
pub mod compiler;
pub mod engine;
pub mod import_linker;
pub mod instruction;
pub mod instruction_set;
pub mod machine;
pub mod module;
