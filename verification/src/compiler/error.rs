//! Compiler error model shared by lexer, parser, semantic analysis, and code generation.

use vstd::prelude::*;
use vstd::string::StringExecFns;

use crate::bytecode::verification::{error_text, VerificationError};
use crate::diagnostics::error::{Diagnostic, DiagnosticView};
use crate::diagnostics::span::SourceSpan;
use crate::text::{decimal, push_decimal};

verus! {

/// Source-level compile error with optional span information.
#[derive(Clone, Debug, PartialEq, Eq)]
pub struct CompileError {
    /// Structured error category.
    pub kind: CompileErrorKind,
    /// Source span that should be highlighted, when known.
    pub span: Option<SourceSpan>,
}

/// Specific compiler failure category.
#[derive(Clone, Debug, PartialEq, Eq)]
pub enum CompileErrorKind {
    UnexpectedCharacter { character: char },
    InvalidInteger { literal: String },
    UnterminatedString,
    InvalidStringEscape { escape: char },
    UnexpectedToken { expected: String, found: String },
    ExpectedExpression,
    UndefinedVariable { name: String },
    UndefinedFunction { name: String },
    UndefinedModuleExport { module: String, name: String },
    UndefinedMethod { name: String },
    DuplicateVariable { name: String },
    DuplicateFunction { name: String },
    DuplicateParameter { name: String },
    WrongCallArity { name: String, expected: usize, actual: usize },
    TypeMismatch { expected: String, found: String },
    UnknownType { name: String },
    TooManyParameters { max: usize },
    TooManyArguments { max: usize },
    TooManyArrayElements { max: usize },
    TooManyMapEntries { max: usize },
    TooManyRecordFields { max: usize },
    TooManyRegisters,
    TooManyInstructions,
    TooManyConstants { max: usize },
    TooManyStrings { max: usize },
    TooManyFunctions { max: usize },
    BytecodeVerification(VerificationError),
}

/// The mathematical content of a failure category.
pub enum CompileErrorKindView {
    UnexpectedCharacter { character: char },
    InvalidInteger { literal: Seq<char> },
    UnterminatedString,
    InvalidStringEscape { escape: char },
    UnexpectedToken { expected: Seq<char>, found: Seq<char> },
    ExpectedExpression,
    UndefinedVariable { name: Seq<char> },
    UndefinedFunction { name: Seq<char> },
    UndefinedModuleExport { module: Seq<char>, name: Seq<char> },
    UndefinedMethod { name: Seq<char> },
    DuplicateVariable { name: Seq<char> },
    DuplicateFunction { name: Seq<char> },
    DuplicateParameter { name: Seq<char> },
    WrongCallArity { name: Seq<char>, expected: nat, actual: nat },
    TypeMismatch { expected: Seq<char>, found: Seq<char> },
    UnknownType { name: Seq<char> },
    TooManyParameters { max: nat },
    TooManyArguments { max: nat },
    TooManyArrayElements { max: nat },
    TooManyMapEntries { max: nat },
    TooManyRecordFields { max: nat },
    TooManyRegisters,
    TooManyInstructions,
    TooManyConstants { max: nat },
    TooManyStrings { max: nat },
    TooManyFunctions { max: nat },
    BytecodeVerification(VerificationError),
}

/// The mathematical content of a compile error.
pub struct CompileErrorView {
    pub kind: CompileErrorKindView,
    pub span: Option<SourceSpan>,
}

impl View for CompileErrorKind {
    type V = CompileErrorKindView;

    open spec fn view(&self) -> CompileErrorKindView {
        match self {
            CompileErrorKind::UnexpectedCharacter { character } => CompileErrorKindView::UnexpectedCharacter {
                character: *character,
            },
            CompileErrorKind::InvalidInteger { literal } => CompileErrorKindView::InvalidInteger {
                literal: literal@,
            },
            CompileErrorKind::UnterminatedString => CompileErrorKindView::UnterminatedString,
            CompileErrorKind::InvalidStringEscape { escape } => CompileErrorKindView::InvalidStringEscape {
                escape: *escape,
            },
            CompileErrorKind::UnexpectedToken { expected, found } => CompileErrorKindView::UnexpectedToken {
                expected: expected@,
                found: found@,
            },
            CompileErrorKind::ExpectedExpression => CompileErrorKindView::ExpectedExpression,
            CompileErrorKind::UndefinedVariable { name } => CompileErrorKindView::UndefinedVariable {
                name: name@,
            },
            CompileErrorKind::UndefinedFunction { name } => CompileErrorKindView::UndefinedFunction {
                name: name@,
            },
            CompileErrorKind::UndefinedModuleExport { module, name } => CompileErrorKindView::UndefinedModuleExport {
                module: module@,
                name: name@,
            },
            CompileErrorKind::UndefinedMethod { name } => CompileErrorKindView::UndefinedMethod {
                name: name@,
            },
            CompileErrorKind::DuplicateVariable { name } => CompileErrorKindView::DuplicateVariable {
                name: name@,
            },
            CompileErrorKind::DuplicateFunction { name } => CompileErrorKindView::DuplicateFunction {
                name: name@,
            },
            CompileErrorKind::DuplicateParameter { name } => CompileErrorKindView::DuplicateParameter {
                name: name@,
            },
            CompileErrorKind::WrongCallArity { name, expected, actual } => CompileErrorKindView::WrongCallArity {
                name: name@,
                expected: *expected as nat,
                actual: *actual as nat,
            },
            CompileErrorKind::TypeMismatch { expected, found } => CompileErrorKindView::TypeMismatch {
                expected: expected@,
                found: found@,
            },
            CompileErrorKind::UnknownType { name } => CompileErrorKindView::UnknownType {
                name: name@,
            },
            CompileErrorKind::TooManyParameters { max } => CompileErrorKindView::TooManyParameters {
                max: *max as nat,
            },
            CompileErrorKind::TooManyArguments { max } => CompileErrorKindView::TooManyArguments {
                max: *max as nat,
            },
            CompileErrorKind::TooManyArrayElements { max } => CompileErrorKindView::TooManyArrayElements {
                max: *max as nat,
            },
            CompileErrorKind::TooManyMapEntries { max } => CompileErrorKindView::TooManyMapEntries {
                max: *max as nat,
            },
            CompileErrorKind::TooManyRecordFields { max } => CompileErrorKindView::TooManyRecordFields {
                max: *max as nat,
            },
            CompileErrorKind::TooManyRegisters => CompileErrorKindView::TooManyRegisters,
            CompileErrorKind::TooManyInstructions => CompileErrorKindView::TooManyInstructions,
            CompileErrorKind::TooManyConstants { max } => CompileErrorKindView::TooManyConstants {
                max: *max as nat,
            },
            CompileErrorKind::TooManyStrings { max } => CompileErrorKindView::TooManyStrings {
                max: *max as nat,
            },
            CompileErrorKind::TooManyFunctions { max } => CompileErrorKindView::TooManyFunctions {
                max: *max as nat,
            },
            CompileErrorKind::BytecodeVerification(error) => CompileErrorKindView::BytecodeVerification(
                *error,
            ),
        }
    }
}

impl View for CompileError {
    type V = CompileErrorView;

    open spec fn view(&self) -> CompileErrorView {
        CompileErrorView { kind: self.kind@, span: self.span }
    }
}

/// The message of a failure.
pub open spec fn compile_error_text(kind: CompileErrorKindView) -> Seq<char> {
    match kind {
        CompileErrorKindView::UnexpectedCharacter { character } => "unexpected character `"@ + seq![character] + "`"@,
        CompileErrorKindView::InvalidInteger { literal } => "invalid integer literal `"@ + literal + "`"@,
        CompileErrorKindView::UnterminatedString => "unterminated string literal"@,
        CompileErrorKindView::InvalidStringEscape { escape } => "invalid string escape `\\"@ + seq![escape] + "`"@,
        CompileErrorKindView::UnexpectedToken { expected, found } => "expected "@ + expected + ", found "@ + found,
        CompileErrorKindView::ExpectedExpression => "expected expression"@,
        CompileErrorKindView::UndefinedVariable { name } => "undefined variable `"@ + name + "`"@,
        CompileErrorKindView::UndefinedFunction { name } => "undefined function `"@ + name + "`"@,
        CompileErrorKindView::UndefinedModuleExport { module, name } => "undefined export `"@ + name + "` in module `"@ + module + "`"@,
        CompileErrorKindView::UndefinedMethod { name } => "undefined method `"@ + name + "`"@,
        CompileErrorKindView::DuplicateVariable { name } => "duplicate variable `"@ + name + "`"@,
        CompileErrorKindView::DuplicateFunction { name } => "duplicate function `"@ + name + "`"@,
        CompileErrorKindView::DuplicateParameter { name } => "duplicate parameter `"@ + name + "`"@,
        CompileErrorKindView::WrongCallArity { name, expected, actual } => "wrong argument count for `"@ + name + "`; expected "@ + decimal(expected) + ", got "@ + decimal(actual),
        CompileErrorKindView::TypeMismatch { expected, found } => "type mismatch; expected "@ + expected + ", got "@ + found,
        CompileErrorKindView::UnknownType { name } => "unknown type `"@ + name + "`"@,
        CompileErrorKindView::TooManyParameters { max } => "too many function parameters; maximum is "@ + decimal(max),
        CompileErrorKindView::TooManyArguments { max } => "too many call arguments; maximum is "@ + decimal(max),
        CompileErrorKindView::TooManyArrayElements { max } => "too many array elements; maximum is "@ + decimal(max),
        CompileErrorKindView::TooManyMapEntries { max } => "too many map entries; maximum is "@ + decimal(max),
        CompileErrorKindView::TooManyRecordFields { max } => "too many record fields; maximum is "@ + decimal(max),
        CompileErrorKindView::TooManyRegisters => "too many registers in function"@,
        CompileErrorKindView::TooManyInstructions => "too many instructions in function"@,
        CompileErrorKindView::TooManyConstants { max } => "too many constants; maximum is "@ + decimal(max),
        CompileErrorKindView::TooManyStrings { max } => "too many strings; maximum is "@ + decimal(max),
        CompileErrorKindView::TooManyFunctions { max } => "too many functions; maximum is "@ + decimal(max),
        CompileErrorKindView::BytecodeVerification(error) => error_text(error),
    }
}

impl CompileError {
    /// Creates a compiler error with an optional source span.
    pub fn new(kind: CompileErrorKind, span: Option<SourceSpan>) -> (error: Self)
        ensures
            error == (CompileError { kind, span }),
    {
        CompileError { kind, span }
    }

    /// Converts the compile error into a renderable diagnostic.
    pub fn to_diagnostic(&self) -> (diagnostic: Diagnostic)
        ensures
            diagnostic@ == (DiagnosticView {
                message: compile_error_text(self@.kind),
                span: self.span,
                notes: Seq::empty(),
            }),
    {
        let message = self.to_string();
        Diagnostic::new(message.as_str(), self.span)
    }

    /// Renders the error message.
    pub fn to_string(&self) -> (s: String)
        ensures
            s@ == compile_error_text(self@.kind),
    {
        match &self.kind {
            CompileErrorKind::UnexpectedCharacter { character } => {
                let mut s = String::from_str("unexpected character `");
                s.push(*character);
                s.append("`");
                assert(s@ == compile_error_text(self@.kind));
                s
            },
            CompileErrorKind::InvalidInteger { literal } => {
                let mut s = String::from_str("invalid integer literal `");
                s.append(literal.as_str());
                s.append("`");
                assert(s@ == compile_error_text(self@.kind));
                s
            },
            CompileErrorKind::UnterminatedString => {
                let s = String::from_str("unterminated string literal");
                assert(s@ == compile_error_text(self@.kind));
                s
            },
            CompileErrorKind::InvalidStringEscape { escape } => {
                let mut s = String::from_str("invalid string escape `\\");
                s.push(*escape);
                s.append("`");
                assert(s@ == compile_error_text(self@.kind));
                s
            },
            CompileErrorKind::UnexpectedToken { expected, found } => {
                let mut s = String::from_str("expected ");
                s.append(expected.as_str());
                s.append(", found ");
                s.append(found.as_str());
                assert(s@ == compile_error_text(self@.kind));
                s
            },
            CompileErrorKind::ExpectedExpression => {
                let s = String::from_str("expected expression");
                assert(s@ == compile_error_text(self@.kind));
                s
            },
            CompileErrorKind::UndefinedVariable { name } => {
                let mut s = String::from_str("undefined variable `");
                s.append(name.as_str());
                s.append("`");
                assert(s@ == compile_error_text(self@.kind));
                s
            },
            CompileErrorKind::UndefinedFunction { name } => {
                let mut s = String::from_str("undefined function `");
                s.append(name.as_str());
                s.append("`");
                assert(s@ == compile_error_text(self@.kind));
                s
            },
            CompileErrorKind::UndefinedModuleExport { module, name } => {
                let mut s = String::from_str("undefined export `");
                s.append(name.as_str());
                s.append("` in module `");
                s.append(module.as_str());
                s.append("`");
                assert(s@ == compile_error_text(self@.kind));
                s
            },
            CompileErrorKind::UndefinedMethod { name } => {
                let mut s = String::from_str("undefined method `");
                s.append(name.as_str());
                s.append("`");
                assert(s@ == compile_error_text(self@.kind));
                s
            },
            CompileErrorKind::DuplicateVariable { name } => {
                let mut s = String::from_str("duplicate variable `");
                s.append(name.as_str());
                s.append("`");
                assert(s@ == compile_error_text(self@.kind));
                s
            },
            CompileErrorKind::DuplicateFunction { name } => {
                let mut s = String::from_str("duplicate function `");
                s.append(name.as_str());
                s.append("`");
                assert(s@ == compile_error_text(self@.kind));
                s
            },
            CompileErrorKind::DuplicateParameter { name } => {
                let mut s = String::from_str("duplicate parameter `");
                s.append(name.as_str());
                s.append("`");
                assert(s@ == compile_error_text(self@.kind));
                s
            },
            CompileErrorKind::WrongCallArity { name, expected, actual } => {
                let mut s = String::from_str("wrong argument count for `");
                s.append(name.as_str());
                s.append("`; expected ");
                push_decimal(&mut s, *expected as u64);
                s.append(", got ");
                push_decimal(&mut s, *actual as u64);
                assert(s@ == compile_error_text(self@.kind));
                s
            },
            CompileErrorKind::TypeMismatch { expected, found } => {
                let mut s = String::from_str("type mismatch; expected ");
                s.append(expected.as_str());
                s.append(", got ");
                s.append(found.as_str());
                assert(s@ == compile_error_text(self@.kind));
                s
            },
            CompileErrorKind::UnknownType { name } => {
                let mut s = String::from_str("unknown type `");
                s.append(name.as_str());
                s.append("`");
                assert(s@ == compile_error_text(self@.kind));
                s
            },
            CompileErrorKind::TooManyParameters { max } => {
                let mut s = String::from_str("too many function parameters; maximum is ");
                push_decimal(&mut s, *max as u64);
                assert(s@ == compile_error_text(self@.kind));
                s
            },
            CompileErrorKind::TooManyArguments { max } => {
                let mut s = String::from_str("too many call arguments; maximum is ");
                push_decimal(&mut s, *max as u64);
                assert(s@ == compile_error_text(self@.kind));
                s
            },
            CompileErrorKind::TooManyArrayElements { max } => {
                let mut s = String::from_str("too many array elements; maximum is ");
                push_decimal(&mut s, *max as u64);
                assert(s@ == compile_error_text(self@.kind));
                s
            },
            CompileErrorKind::TooManyMapEntries { max } => {
                let mut s = String::from_str("too many map entries; maximum is ");
                push_decimal(&mut s, *max as u64);
                assert(s@ == compile_error_text(self@.kind));
                s
            },
            CompileErrorKind::TooManyRecordFields { max } => {
                let mut s = String::from_str("too many record fields; maximum is ");
                push_decimal(&mut s, *max as u64);
                assert(s@ == compile_error_text(self@.kind));
                s
            },
            CompileErrorKind::TooManyRegisters => {
                let s = String::from_str("too many registers in function");
                assert(s@ == compile_error_text(self@.kind));
                s
            },
            CompileErrorKind::TooManyInstructions => {
                let s = String::from_str("too many instructions in function");
                assert(s@ == compile_error_text(self@.kind));
                s
            },
            CompileErrorKind::TooManyConstants { max } => {
                let mut s = String::from_str("too many constants; maximum is ");
                push_decimal(&mut s, *max as u64);
                assert(s@ == compile_error_text(self@.kind));
                s
            },
            CompileErrorKind::TooManyStrings { max } => {
                let mut s = String::from_str("too many strings; maximum is ");
                push_decimal(&mut s, *max as u64);
                assert(s@ == compile_error_text(self@.kind));
                s
            },
            CompileErrorKind::TooManyFunctions { max } => {
                let mut s = String::from_str("too many functions; maximum is ");
                push_decimal(&mut s, *max as u64);
                assert(s@ == compile_error_text(self@.kind));
                s
            },
            CompileErrorKind::BytecodeVerification(error) => error.to_string(),
        }
    }
}

} // verus!
