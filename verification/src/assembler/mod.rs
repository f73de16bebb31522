//! Test-friendly bytecode assembler with named labels.

pub mod builder;
pub mod finish_laws;
pub mod label;

pub use builder::{Assembler, AssemblerError};
