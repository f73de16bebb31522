//! Whole-program bytecode representation: a function table and an entry function.

use vstd::prelude::*;

use crate::bytecode::chunk::{Chunk, ChunkView};
use crate::bytecode::format::BytecodeFormat;
use crate::bytecode::instruction::FunctionId;

verus! {

/// Bytecode program before/after verification.
#[derive(Debug, PartialEq, Eq)]
pub struct Program {
    /// Bytecode format metadata.
    pub format: BytecodeFormat,
    /// Function table addressed by `FunctionId`.
    pub functions: Vec<Function>,
    /// Entry function.
    pub entry: FunctionId,
}

/// Function metadata and implementation.
#[derive(Debug, PartialEq, Eq)]
pub struct Function {
    /// Human-readable function name.
    pub name: String,
    /// Number of arguments expected by this function.
    pub arity: u8,
    /// Register count required by this function.
    pub register_count: u8,
    /// Number of values captured by closures over this function.
    pub capture_count: u8,
    /// Bytecode or native implementation kind.
    pub kind: FunctionKind,
}

/// Function implementation kind.
#[derive(Debug, PartialEq, Eq)]
pub enum FunctionKind {
    /// Ferrix bytecode function body.
    Bytecode(Chunk),
    /// Native function resolved by name.
    Native { name: String },
}

/// The mathematical content of a program.
#[verifier::ext_equal]
pub struct ProgramView {
    pub magic: Seq<char>,
    pub version: u16,
    pub feature_flags: u32,
    pub functions: Seq<FunctionView>,
    pub entry: FunctionId,
}

/// The mathematical content of a function.
#[verifier::ext_equal]
pub struct FunctionView {
    pub name: Seq<char>,
    pub arity: u8,
    pub register_count: u8,
    pub capture_count: u8,
    pub kind: FunctionKindView,
}

/// The mathematical content of a function implementation.
#[verifier::ext_equal]
pub enum FunctionKindView {
    Bytecode(ChunkView),
    Native(Seq<char>),
}

/// The contents of a function table.
pub open spec fn function_views(functions: Seq<Function>) -> Seq<FunctionView> {
    Seq::new(functions.len(), |i: int| functions[i]@)
}

impl View for FunctionKind {
    type V = FunctionKindView;

    open spec fn view(&self) -> FunctionKindView {
        match self {
            FunctionKind::Bytecode(chunk) => FunctionKindView::Bytecode(chunk@),
            FunctionKind::Native { name } => FunctionKindView::Native(name@),
        }
    }
}

impl View for Function {
    type V = FunctionView;

    open spec fn view(&self) -> FunctionView {
        FunctionView {
            name: self.name@,
            arity: self.arity,
            register_count: self.register_count,
            capture_count: self.capture_count,
            kind: self.kind@,
        }
    }
}

impl View for Program {
    type V = ProgramView;

    open spec fn view(&self) -> ProgramView {
        ProgramView {
            magic: self.format.magic@,
            version: self.format.version,
            feature_flags: self.format.feature_flags,
            functions: function_views(self.functions@),
            entry: self.entry,
        }
    }
}

impl Clone for FunctionKind {
    fn clone(&self) -> (copy: Self)
        ensures
            copy@ == self@,
    {
        match self {
            FunctionKind::Bytecode(chunk) => FunctionKind::Bytecode(chunk.clone()),
            FunctionKind::Native { name } => FunctionKind::Native { name: name.clone() },
        }
    }
}

impl Clone for Function {
    fn clone(&self) -> (copy: Self)
        ensures
            copy@ == self@,
    {
        Function {
            name: self.name.clone(),
            arity: self.arity,
            register_count: self.register_count,
            capture_count: self.capture_count,
            kind: self.kind.clone(),
        }
    }
}

impl Clone for Program {
    fn clone(&self) -> (copy: Self)
        ensures
            copy@ == self@,
    {
        let mut functions: Vec<Function> = Vec::new();
        let mut i: usize = 0;
        while i < self.functions.len()
            invariant
                i <= self.functions@.len(),
                functions@.len() == i,
                forall|k: int| 0 <= k < i ==> #[trigger] functions@[k]@ == self.functions@[k]@,
            decreases self.functions.len() - i,
        {
            functions.push(self.functions[i].clone());
            i = i + 1;
        }
        assert(function_views(functions@) == function_views(self.functions@));
        Program { format: self.format, functions, entry: self.entry }
    }
}

impl ProgramView {
    /// The function with the given id, if there is one.
    pub open spec fn function(self, id: FunctionId) -> Option<FunctionView> {
        if id.0 < self.functions.len() {
            Some(self.functions[id.0 as int])
        } else {
            None
        }
    }
}

/// Errors returned while adding functions to a program.
#[derive(Clone, Copy, Debug, PartialEq, Eq, Structural)]
pub enum ProgramBuildError {
    /// The function table exceeded the `FunctionId` address space.
    TooManyFunctions { max: usize },
}

impl Program {
    /// Creates an empty program with the given entry function id.
    pub fn new(entry: FunctionId) -> (program: Self)
        ensures
            program.format.is_current(),
            program.functions@ == Seq::<Function>::empty(),
            program.entry == entry,
    {
        Program { format: BytecodeFormat::current(), functions: Vec::new(), entry }
    }

    /// Overrides bytecode format metadata.
    pub fn with_format(self, format: BytecodeFormat) -> (program: Self)
        ensures
            program == (Program { format, ..self }),
    {
        let mut program = self;
        program.format = format;
        program
    }

    /// Adds a function and returns its assigned `FunctionId`.
    pub fn add_function(&mut self, function: Function) -> (result: Result<
        FunctionId,
        ProgramBuildError,
    >)
        ensures
            match result {
                Ok(id) => {
                    &&& old(self).functions@.len() <= u16::MAX
                    &&& id.0 == old(self).functions@.len()
                    &&& final(self).functions@ == old(self).functions@.push(function)
                    &&& final(self).format == old(self).format
                    &&& final(self).entry == old(self).entry
                    &&& final(self)@ == (ProgramView {
                        functions: old(self)@.functions.push(function@),
                        ..old(self)@
                    })
                },
                Err(error) => {
                    &&& old(self).functions@.len() > u16::MAX
                    &&& error == (ProgramBuildError::TooManyFunctions { max: 65536 })
                    &&& *final(self) == *old(self)
                },
            },
    {
        if self.functions.len() > u16::MAX as usize {
            return Err(ProgramBuildError::TooManyFunctions { max: u16::MAX as usize + 1 });
        }
        let id = FunctionId(self.functions.len() as u16);
        self.functions.push(function);
        assert(self@.functions == old(self)@.functions.push(function@));
        Ok(id)
    }

    /// Looks up a function by id.
    pub fn function(&self, id: FunctionId) -> (function: Option<&Function>)
        ensures
            match function {
                Some(function) => {
                    &&& id.0 < self.functions@.len()
                    &&& *function == self.functions@[id.0 as int]
                    &&& self@.function(id) == Some(function@)
                },
                None => id.0 >= self.functions@.len() && self@.function(id) is None,
            },
    {
        let index: usize = id.0 as usize;
        if index < self.functions.len() {
            Some(&self.functions[index])
        } else {
            None
        }
    }
}

impl Function {
    /// Wraps a bytecode chunk as a function and copies its metadata.
    pub fn bytecode(chunk: Chunk) -> (function: Self)
        ensures
            function@ == (FunctionView {
                name: chunk@.name,
                arity: chunk.arity,
                register_count: chunk.register_count,
                capture_count: chunk.capture_count,
                kind: FunctionKindView::Bytecode(chunk@),
            }),
            function.kind == FunctionKind::Bytecode(chunk),
    {
        Function {
            name: chunk.name.clone(),
            arity: chunk.arity,
            register_count: chunk.register_count,
            capture_count: chunk.capture_count,
            kind: FunctionKind::Bytecode(chunk),
        }
    }

    /// Creates a native function placeholder.
    pub fn native(name: &str, arity: u8) -> (function: Self)
        ensures
            function@ == (FunctionView {
                name: name@,
                arity,
                register_count: arity,
                capture_count: 0,
                kind: FunctionKindView::Native(name@),
            }),
    {
        Function {
            name: name.to_owned(),
            arity,
            register_count: arity,
            capture_count: 0,
            kind: FunctionKind::Native { name: name.to_owned() },
        }
    }

    /// Returns the bytecode chunk for bytecode functions.
    pub fn chunk(&self) -> (chunk: Option<&Chunk>)
        ensures
            match self.kind {
                FunctionKind::Bytecode(body) => chunk == Some(&body),
                FunctionKind::Native { .. } => chunk is None,
            },
    {
        match &self.kind {
            FunctionKind::Bytecode(chunk) => Some(chunk),
            FunctionKind::Native { .. } => None,
        }
    }

    /// Returns the native function name for native functions.
    pub fn native_name(&self) -> (native_name: Option<&str>)
        ensures
            match self.kind {
                FunctionKind::Bytecode(_) => native_name is None,
                FunctionKind::Native { name } => native_name matches Some(n) && n@ == name@,
            },
    {
        match &self.kind {
            FunctionKind::Bytecode(_) => None,
            FunctionKind::Native { name } => Some(name.as_str()),
        }
    }
}

} // verus!
