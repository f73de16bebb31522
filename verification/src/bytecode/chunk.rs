//! Bytecode chunk storage: one function body with its pools and debug data.

use vstd::prelude::*;

use crate::bytecode::instruction::{ConstId, Instruction, InstructionView, Register, StringId};
use crate::diagnostics::span::SourceSpan;
use crate::value::Value;

verus! {

/// A bytecode function body with pools and debug metadata.
#[derive(Debug, PartialEq, Eq)]
pub struct Chunk {
    /// Human-readable function/chunk name.
    pub name: String,
    /// Number of arguments expected by the function.
    pub arity: u8,
    /// Number of registers allocated for this chunk.
    pub register_count: u8,
    /// Number of values captured by closures over this function.
    pub capture_count: u8,
    /// Constant pool used by `LoadConst`.
    pub constants: Vec<Value>,
    /// String pool used by `LoadString`.
    pub strings: Vec<String>,
    /// Instruction stream.
    pub instructions: Vec<Instruction>,
    /// Optional source span for each instruction.
    pub source_map: Vec<Option<SourceSpan>>,
    /// Optional source/local names for registers.
    pub debug_local_names: Vec<Option<String>>,
}

/// The mathematical content of a chunk.
#[verifier::ext_equal]
pub struct ChunkView {
    pub name: Seq<char>,
    pub arity: u8,
    pub register_count: u8,
    pub capture_count: u8,
    pub constants: Seq<Value>,
    pub strings: Seq<Seq<char>>,
    pub instructions: Seq<InstructionView>,
    pub source_map: Seq<Option<SourceSpan>>,
    pub debug_local_names: Seq<Option<Seq<char>>>,
}

/// The texts of a list of strings.
pub open spec fn string_views(strings: Seq<String>) -> Seq<Seq<char>> {
    Seq::new(strings.len(), |i: int| strings[i]@)
}

/// The text of an optional string.
pub open spec fn option_view(s: Option<String>) -> Option<Seq<char>> {
    match s {
        Some(s) => Some(s@),
        None => None,
    }
}

/// The texts of a list of optional strings.
pub open spec fn option_views(strings: Seq<Option<String>>) -> Seq<Option<Seq<char>>> {
    Seq::new(strings.len(), |i: int| option_view(strings[i]))
}

/// The opcodes and operands of a list of instructions.
pub open spec fn instruction_views(instructions: Seq<Instruction>) -> Seq<InstructionView> {
    Seq::new(instructions.len(), |i: int| instructions[i]@)
}

impl View for Chunk {
    type V = ChunkView;

    open spec fn view(&self) -> ChunkView {
        ChunkView {
            name: self.name@,
            arity: self.arity,
            register_count: self.register_count,
            capture_count: self.capture_count,
            constants: self.constants@,
            strings: string_views(self.strings@),
            instructions: instruction_views(self.instructions@),
            source_map: self.source_map@,
            debug_local_names: option_views(self.debug_local_names@),
        }
    }
}

/// Copies a list of strings.
pub fn clone_strings(strings: &Vec<String>) -> (copy: Vec<String>)
    ensures
        string_views(copy@) == string_views(strings@),
{
    let mut copy: Vec<String> = Vec::new();
    let mut i: usize = 0;
    while i < strings.len()
        invariant
            i <= strings@.len(),
            copy@.len() == i,
            forall|k: int| 0 <= k < i ==> #[trigger] copy@[k]@ == strings@[k]@,
        decreases strings.len() - i,
    {
        copy.push(strings[i].clone());
        i = i + 1;
    }
    assert(string_views(copy@) == string_views(strings@));
    copy
}

/// Copies a list of optional strings.
fn clone_names(names: &Vec<Option<String>>) -> (copy: Vec<Option<String>>)
    ensures
        option_views(copy@) == option_views(names@),
{
    let mut copy: Vec<Option<String>> = Vec::new();
    let mut i: usize = 0;
    while i < names.len()
        invariant
            i <= names@.len(),
            copy@.len() == i,
            forall|k: int| 0 <= k < i ==> option_view(#[trigger] copy@[k]) == option_view(names@[k]),
        decreases names.len() - i,
    {
        let name = match &names[i] {
            Some(name) => Some(name.clone()),
            None => None,
        };
        copy.push(name);
        i = i + 1;
    }
    assert(option_views(copy@) == option_views(names@));
    copy
}

/// Copies a list of instructions.
pub fn clone_instructions(instructions: &Vec<Instruction>) -> (copy: Vec<Instruction>)
    ensures
        instruction_views(copy@) == instruction_views(instructions@),
{
    let mut copy: Vec<Instruction> = Vec::new();
    let mut i: usize = 0;
    while i < instructions.len()
        invariant
            i <= instructions@.len(),
            copy@.len() == i,
            forall|k: int| 0 <= k < i ==> #[trigger] copy@[k]@ == instructions@[k]@,
        decreases instructions.len() - i,
    {
        copy.push(instructions[i].clone());
        i = i + 1;
    }
    assert(instruction_views(copy@) == instruction_views(instructions@));
    copy
}

/// Copies a list of values.
fn clone_values(values: &Vec<Value>) -> (copy: Vec<Value>)
    ensures
        copy@ == values@,
{
    let mut copy: Vec<Value> = Vec::new();
    let mut i: usize = 0;
    while i < values.len()
        invariant
            i <= values@.len(),
            copy@ == values@.take(i as int),
        decreases values.len() - i,
    {
        copy.push(values[i]);
        i = i + 1;
    }
    assert(copy@ == values@);
    copy
}

/// Copies a source map.
fn clone_spans(spans: &Vec<Option<SourceSpan>>) -> (copy: Vec<Option<SourceSpan>>)
    ensures
        copy@ == spans@,
{
    let mut copy: Vec<Option<SourceSpan>> = Vec::new();
    let mut i: usize = 0;
    while i < spans.len()
        invariant
            i <= spans@.len(),
            copy@ == spans@.take(i as int),
        decreases spans.len() - i,
    {
        copy.push(spans[i]);
        i = i + 1;
    }
    assert(copy@ == spans@);
    copy
}

impl Clone for Chunk {
    fn clone(&self) -> (copy: Self)
        ensures
            copy@ == self@,
    {
        Chunk {
            name: self.name.clone(),
            arity: self.arity,
            register_count: self.register_count,
            capture_count: self.capture_count,
            constants: clone_values(&self.constants),
            strings: clone_strings(&self.strings),
            instructions: clone_instructions(&self.instructions),
            source_map: clone_spans(&self.source_map),
            debug_local_names: clone_names(&self.debug_local_names),
        }
    }
}

/// Errors returned while building a chunk pool.
#[derive(Clone, Copy, Debug, PartialEq, Eq, Structural)]
pub enum ChunkBuildError {
    /// Too many constants were inserted into one chunk.
    TooManyConstants { max: usize },
    /// Too many strings were inserted into one chunk.
    TooManyStrings { max: usize },
}

/// The debug names after register `index` has been given the name `name`: the list grows
/// with unnamed registers where it is too short.
pub open spec fn named_register(
    names: Seq<Option<Seq<char>>>,
    index: nat,
    name: Seq<char>,
) -> Seq<Option<Seq<char>>> {
    let len = if names.len() <= index {
        index + 1
    } else {
        names.len()
    };
    Seq::new(
        len,
        |i: int|
            if i == index {
                Some(name)
            } else if i < names.len() {
                names[i]
            } else {
                None
            },
    )
}

impl Chunk {
    /// Creates an empty chunk with a name and register count.
    pub fn new(name: &str, register_count: u8) -> (chunk: Self)
        ensures
            chunk@ == (ChunkView {
                name: name@,
                arity: 0,
                register_count,
                capture_count: 0,
                constants: Seq::empty(),
                strings: Seq::empty(),
                instructions: Seq::empty(),
                source_map: Seq::empty(),
                debug_local_names: Seq::empty(),
            }),
            chunk.instructions@ == Seq::<Instruction>::empty(),
    {
        Chunk {
            name: name.to_owned(),
            arity: 0,
            register_count,
            capture_count: 0,
            constants: Vec::new(),
            strings: Vec::new(),
            instructions: Vec::new(),
            source_map: Vec::new(),
            debug_local_names: Vec::new(),
        }
    }

    /// Sets the function arity and returns the updated chunk.
    pub fn with_arity(self, arity: u8) -> (chunk: Self)
        ensures
            chunk == (Chunk { arity, ..self }),
    {
        let mut chunk = self;
        chunk.arity = arity;
        chunk
    }

    /// Sets the number of captured values and returns the updated chunk.
    pub fn with_capture_count(self, capture_count: u8) -> (chunk: Self)
        ensures
            chunk == (Chunk { capture_count, ..self }),
    {
        let mut chunk = self;
        chunk.capture_count = capture_count;
        chunk
    }

    /// Adds a constant to the constant pool and returns its typed id.
    pub fn add_constant(&mut self, value: Value) -> (result: Result<ConstId, ChunkBuildError>)
        ensures
            match result {
                Ok(id) => {
                    &&& old(self)@.constants.len() <= u16::MAX
                    &&& id.0 == old(self)@.constants.len()
                    &&& final(self)@ == (ChunkView {
                        constants: old(self)@.constants.push(value),
                        ..old(self)@
                    })
                    &&& final(self).instructions == old(self).instructions
                },
                Err(error) => {
                    &&& old(self)@.constants.len() > u16::MAX
                    &&& error == (ChunkBuildError::TooManyConstants { max: 65536 })
                    &&& *final(self) == *old(self)
                },
            },
    {
        if self.constants.len() > u16::MAX as usize {
            return Err(ChunkBuildError::TooManyConstants { max: u16::MAX as usize + 1 });
        }
        let id = ConstId(self.constants.len() as u16);
        self.constants.push(value);
        Ok(id)
    }

    /// Adds a string to the string pool and returns its typed id.
    pub fn add_string(&mut self, value: &str) -> (result: Result<StringId, ChunkBuildError>)
        ensures
            match result {
                Ok(id) => {
                    &&& old(self)@.strings.len() <= u16::MAX
                    &&& id.0 == old(self)@.strings.len()
                    &&& final(self)@ == (ChunkView {
                        strings: old(self)@.strings.push(value@),
                        ..old(self)@
                    })
                    &&& final(self).instructions == old(self).instructions
                },
                Err(error) => {
                    &&& old(self)@.strings.len() > u16::MAX
                    &&& error == (ChunkBuildError::TooManyStrings { max: 65536 })
                    &&& *final(self) == *old(self)
                },
            },
    {
        if self.strings.len() > u16::MAX as usize {
            return Err(ChunkBuildError::TooManyStrings { max: u16::MAX as usize + 1 });
        }
        let id = StringId(self.strings.len() as u16);
        self.strings.push(value.to_owned());
        assert(self@.strings == old(self)@.strings.push(value@));
        Ok(id)
    }

    /// Appends an instruction without source metadata.
    pub fn push_instruction(&mut self, instruction: Instruction)
        ensures
            final(self)@ == (ChunkView {
                instructions: old(self)@.instructions.push(instruction@),
                source_map: old(self)@.source_map.push(None),
                ..old(self)@
            }),
            final(self).instructions@ == old(self).instructions@.push(instruction),
    {
        self.push_instruction_with_span(instruction, None);
    }

    /// Appends an instruction and records its optional source span.
    pub fn push_instruction_with_span(
        &mut self,
        instruction: Instruction,
        span: Option<SourceSpan>,
    )
        ensures
            final(self)@ == (ChunkView {
                instructions: old(self)@.instructions.push(instruction@),
                source_map: old(self)@.source_map.push(span),
                ..old(self)@
            }),
            final(self).instructions@ == old(self).instructions@.push(instruction),
    {
        self.instructions.push(instruction);
        self.source_map.push(span);
        assert(self@.instructions == old(self)@.instructions.push(instruction@));
    }

    /// Stores a human-readable name for a register.
    pub fn set_debug_local_name(&mut self, register: Register, name: &str)
        ensures
            final(self)@ == (ChunkView {
                debug_local_names: named_register(
                    old(self)@.debug_local_names,
                    register.0 as nat,
                    name@,
                ),
                ..old(self)@
            }),
            final(self).instructions == old(self).instructions,
    {
        let index: usize = register.0 as usize;
        while self.debug_local_names.len() <= index
            invariant
                *self == (Chunk { debug_local_names: self.debug_local_names, ..*old(self) }),
                index == register.0,
                self.debug_local_names@.len() >= old(self).debug_local_names@.len(),
                old(self).debug_local_names@.len() > index ==> self.debug_local_names@.len()
                    == old(self).debug_local_names@.len(),
                old(self).debug_local_names@.len() <= index ==> self.debug_local_names@.len()
                    <= index + 1,
                forall|i: int|
                    0 <= i < self.debug_local_names@.len() ==> #[trigger] self.debug_local_names@[i]
                        == if i < old(self).debug_local_names@.len() {
                        old(self).debug_local_names@[i]
                    } else {
                        None
                    },
            decreases index + 1 - self.debug_local_names.len(),
        {
            self.debug_local_names.push(None);
        }
        self.debug_local_names[index] = Some(name.to_owned());
        assert(self@.debug_local_names == named_register(
            old(self)@.debug_local_names,
            register.0 as nat,
            name@,
        ));
    }
}

} // verus!
