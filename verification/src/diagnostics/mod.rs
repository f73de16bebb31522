//! Source diagnostics and source-position helpers.

pub mod error;
pub mod place_laws;
pub mod rendering_laws;
pub mod source;
pub mod span;

pub use error::Diagnostic;
pub use source::{SourceFile, SourceLocation, SourceManager};
pub use span::{FileId, SourceSpan};
