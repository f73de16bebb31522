//! Ferrix: a register bytecode model with a verifier, an optimizer, a binary
//! format, a disassembler, an assembler and a source compiler.

pub mod assembler;
pub mod bytecode;
pub mod cli;
pub mod compiler;
pub mod diagnostics;
pub mod names;
pub mod object;
pub mod sorted;
pub mod text;
pub mod value;

pub use object::{Obj, ObjRef};
pub use value::Value;
