//! Decisions of the command line tools: commands, package manifests, module loading, debugging.

pub mod bench;
pub mod command;
pub mod command_laws;
pub mod debugger;
pub mod debugger_laws;
pub mod display;
pub mod explain;
pub mod invocation_laws;
pub mod manifest;
pub mod manifest_laws;
pub mod modules;
pub mod shown_laws;
pub mod stopping_laws;
pub mod telling_laws;
pub mod text_laws;
pub mod words;
