//! Source compiler: turns source text into a verified bytecode program by lexing, parsing,
//! performing semantic checks, and emitting register bytecode.

pub mod analysis;
pub mod ast;
pub mod capture_laws;
pub mod captures;
pub mod code_laws;
pub mod codegen;
pub mod derivation;
pub mod emitter;
pub mod error;
pub mod import_laws;
pub mod lexer;
pub mod lexer_laws;
pub mod link;
pub mod link_laws;
mod literal_laws;
pub mod meaning;
pub mod meaning_laws;
pub mod message_laws;
pub mod name_laws;
pub mod nesting_laws;
pub mod origin_laws;
pub mod parser;
pub mod parser_laws;
pub mod position_laws;
pub mod program_laws;
pub mod reference_laws;
pub mod scope_laws;
pub mod sema;
pub mod spelling_laws;
pub mod table_laws;
pub mod word_laws;
pub mod writing_laws;

pub use analysis::{CompileReport, CompilerAnalysisReport, ProgramOptimizationReport};
pub use codegen::{
    compile_program_ast, compile_program_ast_with_modules, compile_program_ast_with_named_modules,
    compile_source, compile_source_with_file_id, parse_source_with_file_id,
};
pub use error::{CompileError, CompileErrorKind};
pub use link::ImportedModuleAst;
