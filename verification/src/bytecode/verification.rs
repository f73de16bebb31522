//! Bytecode verification boundaries.
//!
//! Structural verification checks a single chunk. Program verification checks
//! cross-function references, entrypoint validity, and native metadata.

use vstd::prelude::*;
use vstd::string::StringExecFns;

use crate::bytecode::chunk::{Chunk, ChunkView};
use crate::bytecode::format::{
    max_instruction_count, BytecodeLimits, BYTECODE_MAGIC, CURRENT_BYTECODE_VERSION,
};
use crate::bytecode::instruction::{
    CaptureId, ConstId, FunctionId, Instruction, InstructionView, JumpTarget, Register, StringId,
    OP_ARRAY_NEW, OP_CALL_EXTENSION, OP_CALL_FUNCTION, OP_CALL_VALUE, OP_MAKE_CLOSURE, OP_MAP_NEW,
    OP_RECORD_NEW, OP_RETURN, OP_THROW,
};
use crate::bytecode::program::{
    Function, FunctionKind, FunctionKindView, FunctionView, Program, ProgramView,
};
use crate::text::{decimal, push_decimal, str_equal};

verus! {

/// A chunk that passed structural verification.
#[derive(Debug, PartialEq, Eq)]
pub struct VerifiedChunk(Chunk);

/// A program that passed whole-program verification.
#[derive(Debug, PartialEq, Eq)]
pub struct VerifiedProgram(Program);

/// Verifies local chunk invariants such as register and pool bounds.
#[derive(Clone, Debug, PartialEq, Eq)]
pub struct StructuralVerifier;

/// Verifies whole-program invariants such as calls and entrypoints.
#[derive(Clone, Debug, PartialEq, Eq)]
pub struct ProgramVerifier;

/// Typed bytecode verification error with optional function/ip context.
#[derive(Clone, Debug, PartialEq, Eq)]
pub struct VerificationError {
    /// Function being verified, when known.
    pub function_id: Option<FunctionId>,
    /// Instruction pointer that triggered the error, when known.
    pub instruction_ip: Option<usize>,
    /// Specific verification failure kind.
    pub kind: VerificationErrorKind,
}

/// Detailed verifier failure modes.
#[derive(Clone, Debug, PartialEq, Eq)]
pub enum VerificationErrorKind {
    ArityExceedsRegisterCount { arity: u8, register_count: u8 },
    SourceMapLengthMismatch { instructions: usize, source_map: usize },
    DebugLocalNamesOutOfRange { debug_local_names: usize, register_count: u8 },
    TooManyConstants { constant_count: usize, max: usize },
    TooManyStrings { string_count: usize, max: usize },
    TooManyFunctions { function_count: usize, max: usize },
    TooManyInstructions { instruction_count: usize, max: usize },
    InvalidRegister { register: Register, register_count: u8 },
    InvalidConstant { constant: ConstId, constant_count: usize },
    InvalidString { string: StringId, string_count: usize },
    InvalidJumpTarget { target: JumpTarget, instruction_count: usize },
    InvalidFunction { function: FunctionId, function_count: usize },
    InvalidEntrypoint { entry: FunctionId, function_count: usize },
    CallArgumentsOutOfRange { args_start: Register, arg_count: u8, register_count: u8 },
    ClosureCapturesOutOfRange { captures_start: Register, capture_count: u8, register_count: u8 },
    InvalidCapture { capture: CaptureId, capture_count: u8 },
    ArrayElementsOutOfRange { elements_start: Register, element_count: u8, register_count: u8 },
    MapEntriesOutOfRange { entries_start: Register, entry_count: u8, register_count: u8 },
    RecordFieldsOutOfRange { fields_start: Register, field_count: usize, register_count: u8 },
    WrongCallArity { function: FunctionId, expected: u8, actual: u8 },
    UnsupportedBytecodeFormat { magic: String, version: u16 },
    FunctionMetadataMismatch { field: &'static str },
    MissingReturn,
}

// ---------------------------------------------------------------------------
// What a valid chunk is
// ---------------------------------------------------------------------------

/// The first register from position `from` that lies outside the register file.
pub open spec fn first_invalid_register(
    registers: Seq<Register>,
    from: nat,
    register_count: u8,
) -> Option<Register>
    decreases registers.len() - from,
{
    if from >= registers.len() {
        None
    } else if registers[from as int].0 >= register_count {
        Some(registers[from as int])
    } else {
        first_invalid_register(registers, from + 1, register_count)
    }
}

/// The first string id from position `from` that lies outside the string pool.
pub open spec fn first_invalid_text(
    texts: Seq<StringId>,
    from: nat,
    string_count: nat,
) -> Option<StringId>
    decreases texts.len() - from,
{
    if from >= texts.len() {
        None
    } else if texts[from as int].0 >= string_count {
        Some(texts[from as int])
    } else {
        first_invalid_text(texts, from + 1, string_count)
    }
}

impl InstructionView {
    /// The register operand at position `i`.
    pub open spec fn register_at(self, i: int) -> Register {
        self.operands[i]->Register_0
    }

    /// The count operand at position `i`.
    pub open spec fn count_at(self, i: int) -> u8 {
        self.operands[i]->Count_0
    }

    /// Whether the instruction leaves the function.
    pub open spec fn leaves(self) -> bool {
        self.opcode == OP_RETURN || self.opcode == OP_THROW
    }
}

/// Whether `width` registers starting at `start` exceed the register file.
pub open spec fn window_exceeds(start: Register, width: nat, register_count: u8) -> bool {
    width > 0 && start.0 + width > register_count
}

/// The error of an instruction whose register window exceeds the register file.
pub open spec fn window_error(v: InstructionView, register_count: u8) -> Option<
    VerificationErrorKind,
> {
    if v.opcode == OP_CALL_FUNCTION || v.opcode == OP_CALL_VALUE || v.opcode == OP_CALL_EXTENSION {
        if window_exceeds(v.register_at(2), v.count_at(3) as nat, register_count) {
            Some(
                VerificationErrorKind::CallArgumentsOutOfRange {
                    args_start: v.register_at(2),
                    arg_count: v.count_at(3),
                    register_count,
                },
            )
        } else {
            None
        }
    } else if v.opcode == OP_MAKE_CLOSURE {
        if window_exceeds(v.register_at(2), v.count_at(3) as nat, register_count) {
            Some(
                VerificationErrorKind::ClosureCapturesOutOfRange {
                    captures_start: v.register_at(2),
                    capture_count: v.count_at(3),
                    register_count,
                },
            )
        } else {
            None
        }
    } else if v.opcode == OP_ARRAY_NEW {
        if window_exceeds(v.register_at(1), v.count_at(2) as nat, register_count) {
            Some(
                VerificationErrorKind::ArrayElementsOutOfRange {
                    elements_start: v.register_at(1),
                    element_count: v.count_at(2),
                    register_count,
                },
            )
        } else {
            None
        }
    } else if v.opcode == OP_MAP_NEW {
        if window_exceeds(v.register_at(1), 2 * v.count_at(2) as nat, register_count) {
            Some(
                VerificationErrorKind::MapEntriesOutOfRange {
                    entries_start: v.register_at(1),
                    entry_count: v.count_at(2),
                    register_count,
                },
            )
        } else {
            None
        }
    } else if v.opcode == OP_RECORD_NEW {
        let field_count = (v.operands.len() - 3) as nat;
        if window_exceeds(v.register_at(1), field_count, register_count) {
            Some(
                VerificationErrorKind::RecordFieldsOutOfRange {
                    fields_start: v.register_at(1),
                    field_count: field_count as usize,
                    register_count,
                },
            )
        } else {
            None
        }
    } else {
        None
    }
}

/// The first thing wrong with one instruction of a chunk.
pub open spec fn instruction_error(c: ChunkView, v: InstructionView) -> Option<
    VerificationErrorKind,
> {
    if let Some(register) = first_invalid_register(v.registers(), 0, c.register_count) {
        Some(
            VerificationErrorKind::InvalidRegister { register, register_count: c.register_count },
        )
    } else if v.constant() is Some && (v.constant()->0).0 >= c.constants.len() {
        Some(
            VerificationErrorKind::InvalidConstant {
                constant: v.constant()->0,
                constant_count: c.constants.len() as usize,
            },
        )
    } else if let Some(string) = first_invalid_text(v.texts(), 0, c.strings.len()) {
        Some(
            VerificationErrorKind::InvalidString {
                string,
                string_count: c.strings.len() as usize,
            },
        )
    } else if v.target() is Some && (v.target()->0).0 >= c.instructions.len() {
        Some(
            VerificationErrorKind::InvalidJumpTarget {
                target: v.target()->0,
                instruction_count: c.instructions.len() as usize,
            },
        )
    } else if v.capture() is Some && (v.capture()->0).0 >= c.capture_count {
        Some(
            VerificationErrorKind::InvalidCapture {
                capture: v.capture()->0,
                capture_count: c.capture_count,
            },
        )
    } else {
        window_error(v, c.register_count)
    }
}

/// An error without function context.
pub open spec fn local_error(ip: Option<usize>, kind: VerificationErrorKind) -> VerificationError {
    VerificationError { function_id: None, instruction_ip: ip, kind }
}

/// The first instruction error from position `from` on.
pub open spec fn first_instruction_error(c: ChunkView, from: nat) -> Option<VerificationError>
    decreases c.instructions.len() - from,
{
    if from >= c.instructions.len() {
        None
    } else if let Some(kind) = instruction_error(c, c.instructions[from as int]) {
        Some(local_error(Some(from as usize), kind))
    } else {
        first_instruction_error(c, from + 1)
    }
}

/// Whether one of the first `upto` instructions leaves the function.
pub open spec fn leaves_within(c: ChunkView, upto: nat) -> bool {
    exists|ip: int| 0 <= ip < upto && #[trigger] c.instructions[ip].leaves()
}

/// What is wrong with the sizes of a chunk.
pub open spec fn size_error(c: ChunkView) -> Option<VerificationErrorKind> {
    if c.arity > c.register_count {
        Some(
            VerificationErrorKind::ArityExceedsRegisterCount {
                arity: c.arity,
                register_count: c.register_count,
            },
        )
    } else if c.source_map.len() != c.instructions.len() {
        Some(
            VerificationErrorKind::SourceMapLengthMismatch {
                instructions: c.instructions.len() as usize,
                source_map: c.source_map.len() as usize,
            },
        )
    } else if c.debug_local_names.len() > c.register_count {
        Some(
            VerificationErrorKind::DebugLocalNamesOutOfRange {
                debug_local_names: c.debug_local_names.len() as usize,
                register_count: c.register_count,
            },
        )
    } else if c.constants.len() > 0x1_0000 {
        Some(
            VerificationErrorKind::TooManyConstants {
                constant_count: c.constants.len() as usize,
                max: 0x1_0000,
            },
        )
    } else if c.strings.len() > 0x1_0000 {
        Some(
            VerificationErrorKind::TooManyStrings {
                string_count: c.strings.len() as usize,
                max: 0x1_0000,
            },
        )
    } else if c.instructions.len() > max_instruction_count() {
        Some(
            VerificationErrorKind::TooManyInstructions {
                instruction_count: c.instructions.len() as usize,
                max: max_instruction_count() as usize,
            },
        )
    } else {
        None
    }
}

/// The first structural error of a chunk: its sizes, then its instructions in order, then
/// a missing return.
pub open spec fn structural_error(c: ChunkView) -> Option<VerificationError> {
    if let Some(kind) = size_error(c) {
        Some(local_error(None, kind))
    } else if let Some(error) = first_instruction_error(c, 0) {
        Some(error)
    } else if !leaves_within(c, c.instructions.len()) {
        Some(local_error(None, VerificationErrorKind::MissingReturn))
    } else {
        None
    }
}

/// A chunk without structural errors.
pub open spec fn valid_chunk(c: ChunkView) -> bool {
    structural_error(c) is None
}

// ---------------------------------------------------------------------------
// What a valid program is
// ---------------------------------------------------------------------------

/// The error of one instruction against the function table.
pub open spec fn reference_error(p: ProgramView, v: InstructionView) -> Option<
    VerificationErrorKind,
> {
    if v.opcode == OP_CALL_FUNCTION {
        let function = v.function()->0;
        if let Some(callee) = p.function(function) {
            if callee.arity != v.count_at(3) {
                Some(
                    VerificationErrorKind::WrongCallArity {
                        function,
                        expected: callee.arity,
                        actual: v.count_at(3),
                    },
                )
            } else {
                None
            }
        } else {
            Some(
                VerificationErrorKind::InvalidFunction {
                    function,
                    function_count: p.functions.len() as usize,
                },
            )
        }
    } else if v.opcode == OP_MAKE_CLOSURE {
        let function = v.function()->0;
        if let Some(callee) = p.function(function) {
            if callee.capture_count != v.count_at(3) {
                Some(VerificationErrorKind::FunctionMetadataMismatch { field: "capture_count" })
            } else {
                None
            }
        } else {
            Some(
                VerificationErrorKind::InvalidFunction {
                    function,
                    function_count: p.functions.len() as usize,
                },
            )
        }
    } else {
        None
    }
}

/// The first reference error of a chunk from position `from` on.
pub open spec fn first_reference_error(
    p: ProgramView,
    id: FunctionId,
    c: ChunkView,
    from: nat,
) -> Option<VerificationError>
    decreases c.instructions.len() - from,
{
    if from >= c.instructions.len() {
        None
    } else if let Some(kind) = reference_error(p, c.instructions[from as int]) {
        Some(
            VerificationError {
                function_id: Some(id),
                instruction_ip: Some(from as usize),
                kind,
            },
        )
    } else {
        first_reference_error(p, id, c, from + 1)
    }
}

/// The first metadata field of a function that disagrees with its implementation.
pub open spec fn metadata_mismatch(f: FunctionView) -> Option<&'static str> {
    match f.kind {
        FunctionKindView::Bytecode(c) => if f.name != c.name {
            Some("name")
        } else if f.arity != c.arity {
            Some("arity")
        } else if f.register_count != c.register_count {
            Some("register_count")
        } else if f.capture_count != c.capture_count {
            Some("capture_count")
        } else {
            None
        },
        FunctionKindView::Native(native_name) => native_mismatch(f, native_name),
    }
}

/// The first field of a function that does not fit a native function with the given name.
pub open spec fn native_mismatch(f: FunctionView, native_name: Seq<char>) -> Option<&'static str> {
    if f.name != native_name {
        Some("name")
    } else if f.register_count != f.arity {
        Some("register_count")
    } else if f.capture_count != 0 {
        Some("capture_count")
    } else {
        None
    }
}

/// The first error of one function of a program: its metadata, then its structure, then its
/// references.
pub open spec fn function_error(p: ProgramView, id: FunctionId) -> Option<VerificationError> {
    let f = p.functions[id.0 as int];
    if let Some(field) = metadata_mismatch(f) {
        Some(
            VerificationError {
                function_id: Some(id),
                instruction_ip: None,
                kind: VerificationErrorKind::FunctionMetadataMismatch { field },
            },
        )
    } else {
        match f.kind {
            FunctionKindView::Bytecode(c) => if let Some(error) = structural_error(c) {
                Some(VerificationError { function_id: Some(id), ..error })
            } else {
                first_reference_error(p, id, c, 0)
            },
            FunctionKindView::Native(_) => None,
        }
    }
}

/// The first function error from function `from` on.
pub open spec fn first_function_error(p: ProgramView, from: nat) -> Option<VerificationError>
    decreases p.functions.len() - from,
{
    if from >= p.functions.len() {
        None
    } else if let Some(error) = function_error(p, FunctionId(from as u16)) {
        Some(error)
    } else {
        first_function_error(p, from + 1)
    }
}

/// Whether the program is in the format that this library reads.
pub open spec fn supported_format(p: ProgramView) -> bool {
    p.magic == BYTECODE_MAGIC@ && p.version == CURRENT_BYTECODE_VERSION
}

/// The first error of a program in a supported format: its size, its entrypoint, then its
/// functions in order.
pub open spec fn content_error(p: ProgramView) -> Option<VerificationError> {
    if p.functions.len() > 0x1_0000 {
        Some(
            local_error(
                None,
                VerificationErrorKind::TooManyFunctions {
                    function_count: p.functions.len() as usize,
                    max: 0x1_0000,
                },
            ),
        )
    } else if p.entry.0 >= p.functions.len() {
        Some(
            VerificationError {
                function_id: Some(p.entry),
                instruction_ip: None,
                kind: VerificationErrorKind::InvalidEntrypoint {
                    entry: p.entry,
                    function_count: p.functions.len() as usize,
                },
            },
        )
    } else {
        first_function_error(p, 0)
    }
}

/// Whether `error` is the error with which the program is rejected.
pub open spec fn rejected_with(p: ProgramView, error: VerificationError) -> bool {
    if supported_format(p) {
        content_error(p) == Some(error)
    } else {
        &&& error.function_id is None
        &&& error.instruction_ip is None
        &&& error.kind matches VerificationErrorKind::UnsupportedBytecodeFormat { magic, version }
        &&& magic@ == p.magic
        &&& version == p.version
    }
}

/// A program that verification accepts.
pub open spec fn valid_program(p: ProgramView) -> bool {
    supported_format(p) && content_error(p) is None
}

// ---------------------------------------------------------------------------
// What verification guarantees
// ---------------------------------------------------------------------------

pub proof fn lemma_no_instruction_error(c: ChunkView, from: nat, ip: nat)
    requires
        first_instruction_error(c, from) is None,
        from <= ip < c.instructions.len(),
    ensures
        instruction_error(c, c.instructions[ip as int]) is None,
    decreases ip - from,
{
    if from < ip {
        lemma_no_instruction_error(c, from + 1, ip);
    }
}

pub proof fn lemma_no_invalid_register(registers: Seq<Register>, from: nat, count: u8, i: nat)
    requires
        first_invalid_register(registers, from, count) is None,
        from <= i < registers.len(),
    ensures
        registers[i as int].0 < count,
    decreases i - from,
{
    if from < i {
        lemma_no_invalid_register(registers, from + 1, count, i);
    }
}

proof fn lemma_no_invalid_text(texts: Seq<StringId>, from: nat, count: nat, i: nat)
    requires
        first_invalid_text(texts, from, count) is None,
        from <= i < texts.len(),
    ensures
        texts[i as int].0 < count,
    decreases i - from,
{
    if from < i {
        lemma_no_invalid_text(texts, from + 1, count, i);
    }
}

pub proof fn lemma_no_reference_error(p: ProgramView, id: FunctionId, c: ChunkView, from: nat, ip: nat)
    requires
        first_reference_error(p, id, c, from) is None,
        from <= ip < c.instructions.len(),
    ensures
        reference_error(p, c.instructions[ip as int]) is None,
    decreases ip - from,
{
    if from < ip {
        lemma_no_reference_error(p, id, c, from + 1, ip);
    }
}

pub proof fn lemma_no_function_error(p: ProgramView, from: nat, index: nat)
    requires
        first_function_error(p, from) is None,
        from <= index < p.functions.len(),
    ensures
        function_error(p, FunctionId(index as u16)) is None,
    decreases index - from,
{
    if from < index {
        lemma_no_function_error(p, from + 1, index);
    }
}

/// In a valid chunk every operand of every instruction is in bounds: registers lie in the
/// register file, constants and strings in their pools, jumps inside the instructions,
/// captures among the captured values, and register windows in the register file.
pub proof fn valid_chunk_operands_in_bounds(c: ChunkView, ip: int)
    requires
        valid_chunk(c),
        0 <= ip < c.instructions.len(),
    ensures
        forall|i: int|
            0 <= i < c.instructions[ip].registers().len()
                ==> (#[trigger] c.instructions[ip].registers()[i]).0 < c.register_count,
        forall|i: int|
            0 <= i < c.instructions[ip].texts().len() ==> (#[trigger] c.instructions[ip].texts()[i]).0
                < c.strings.len(),
        c.instructions[ip].constant() matches Some(k) ==> k.0 < c.constants.len(),
        c.instructions[ip].target() matches Some(t) ==> t.0 < c.instructions.len(),
        c.instructions[ip].capture() matches Some(k) ==> k.0 < c.capture_count,
        window_error(c.instructions[ip], c.register_count) is None,
{
    let v = c.instructions[ip];
    lemma_no_instruction_error(c, 0, ip as nat);
    assert forall|i: int| 0 <= i < v.registers().len() implies (#[trigger] v.registers()[i]).0
        < c.register_count by {
        lemma_no_invalid_register(v.registers(), 0, c.register_count, i as nat);
    }
    assert forall|i: int| 0 <= i < v.texts().len() implies (#[trigger] v.texts()[i]).0
        < c.strings.len() by {
        lemma_no_invalid_text(v.texts(), 0, c.strings.len(), i as nat);
    }
}

/// A valid chunk can leave: one of its instructions returns or throws.
pub proof fn valid_chunk_leaves(c: ChunkView)
    requires
        valid_chunk(c),
    ensures
        exists|ip: int| 0 <= ip < c.instructions.len() && #[trigger] c.instructions[ip].leaves(),
{
}

/// In a valid program the entry exists, every function agrees with its implementation, and
/// every bytecode function is a valid chunk.
pub proof fn valid_program_functions_are_valid(p: ProgramView, index: int)
    requires
        valid_program(p),
        0 <= index < p.functions.len(),
    ensures
        p.function(p.entry) is Some,
        metadata_mismatch(p.functions[index]) is None,
        p.functions[index].kind matches FunctionKindView::Bytecode(c) ==> valid_chunk(c),
{
    lemma_no_function_error(p, 0, index as nat);
}

/// In a valid program every call passes as many arguments as an existing function takes, and
/// every closure captures as many values as its existing function expects.
pub proof fn valid_program_references_resolve(p: ProgramView, index: int, c: ChunkView, ip: int)
    requires
        valid_program(p),
        0 <= index < p.functions.len(),
        p.functions[index].kind == FunctionKindView::Bytecode(c),
        0 <= ip < c.instructions.len(),
    ensures
        c.instructions[ip].opcode == OP_CALL_FUNCTION ==> {
            &&& p.function(c.instructions[ip].function()->0) matches Some(callee)
            &&& callee.arity == c.instructions[ip].count_at(3)
        },
        c.instructions[ip].opcode == OP_MAKE_CLOSURE ==> {
            &&& p.function(c.instructions[ip].function()->0) matches Some(callee)
            &&& callee.capture_count == c.instructions[ip].count_at(3)
        },
{
    lemma_no_function_error(p, 0, index as nat);
    lemma_no_reference_error(p, FunctionId(index as u16), c, 0, ip as nat);
}

// ---------------------------------------------------------------------------
// Verified wrappers
// ---------------------------------------------------------------------------

impl View for VerifiedChunk {
    type V = ChunkView;

    closed spec fn view(&self) -> ChunkView {
        self.0@
    }
}

impl VerifiedChunk {
    #[verifier::type_invariant]
    spec fn well_formed(self) -> bool {
        valid_chunk(self.0@)
    }

    /// The chunk inside.
    pub closed spec fn inner(self) -> Chunk {
        self.0
    }

    /// Verifies and wraps a chunk.
    pub fn new(chunk: Chunk) -> (result: Result<Self, VerificationError>)
        ensures
            match result {
                Ok(verified) => valid_chunk(chunk@) && verified@ == chunk@ && verified.inner()
                    == chunk,
                Err(error) => structural_error(chunk@) == Some(error),
            },
    {
        StructuralVerifier::verify(chunk)
    }

    /// Returns the verified chunk without consuming the wrapper.
    pub fn as_chunk(&self) -> (chunk: &Chunk)
        ensures
            *chunk == self.inner(),
            chunk@ == self@,
            valid_chunk(chunk@),
    {
        proof {
            use_type_invariant(self);
        }
        &self.0
    }

    /// Consumes the wrapper and returns the raw chunk.
    pub fn into_inner(self) -> (chunk: Chunk)
        ensures
            chunk == self.inner(),
            chunk@ == self@,
            valid_chunk(chunk@),
    {
        proof {
            use_type_invariant(&self);
        }
        self.0
    }
}

impl Clone for VerifiedChunk {
    fn clone(&self) -> (copy: Self)
        ensures
            copy@ == self@,
    {
        proof {
            use_type_invariant(self);
        }
        VerifiedChunk(self.0.clone())
    }
}

impl Clone for VerifiedProgram {
    fn clone(&self) -> (copy: Self)
        ensures
            copy@ == self@,
    {
        proof {
            use_type_invariant(self);
        }
        VerifiedProgram(self.0.clone())
    }
}

impl View for VerifiedProgram {
    type V = ProgramView;

    closed spec fn view(&self) -> ProgramView {
        self.0@
    }
}

impl VerifiedProgram {
    #[verifier::type_invariant]
    spec fn well_formed(self) -> bool {
        valid_program(self.0@)
    }

    /// The program inside.
    pub closed spec fn inner(self) -> Program {
        self.0
    }

    /// Verifies and wraps a program.
    pub fn new(program: Program) -> (result: Result<Self, VerificationError>)
        ensures
            match result {
                Ok(verified) => valid_program(program@) && verified@ == program@
                    && verified.inner() == program,
                Err(error) => !valid_program(program@) && rejected_with(program@, error),
            },
    {
        ProgramVerifier::verify(program)
    }

    /// Returns the verified program without consuming the wrapper.
    pub fn as_program(&self) -> (program: &Program)
        ensures
            *program == self.inner(),
            program@ == self@,
            valid_program(program@),
    {
        proof {
            use_type_invariant(self);
        }
        &self.0
    }

    /// Consumes the wrapper and returns the raw program.
    pub fn into_inner(self) -> (program: Program)
        ensures
            program == self.inner(),
            program@ == self@,
            valid_program(program@),
    {
        proof {
            use_type_invariant(&self);
        }
        self.0
    }
}

// ---------------------------------------------------------------------------
// The verifiers
// ---------------------------------------------------------------------------

/// The first of `registers` outside the register file.
fn find_invalid_register(registers: &Vec<Register>, register_count: u8) -> (found: Option<Register>)
    ensures
        found == first_invalid_register(registers@, 0, register_count),
{
    let mut i: usize = 0;
    while i < registers.len()
        invariant
            i <= registers@.len(),
            first_invalid_register(registers@, 0, register_count) == first_invalid_register(
                registers@,
                i as nat,
                register_count,
            ),
        decreases registers.len() - i,
    {
        if registers[i].0 >= register_count {
            return Some(registers[i]);
        }
        i = i + 1;
    }
    None
}

/// The first of `strings` outside the string pool.
fn find_invalid_string(strings: &Vec<StringId>, string_count: usize) -> (found: Option<StringId>)
    ensures
        found == first_invalid_text(strings@, 0, string_count as nat),
{
    let mut i: usize = 0;
    while i < strings.len()
        invariant
            i <= strings@.len(),
            first_invalid_text(strings@, 0, string_count as nat) == first_invalid_text(
                strings@,
                i as nat,
                string_count as nat,
            ),
        decreases strings.len() - i,
    {
        if strings[i].0 as usize >= string_count {
            return Some(strings[i]);
        }
        i = i + 1;
    }
    None
}

/// Whether `width` registers starting at `start` exceed the register file.
fn exceeds_window(start: Register, width: usize, register_count: u8) -> (exceeds: bool)
    ensures
        exceeds == window_exceeds(start, width as nat, register_count),
{
    width > 0 && (width > register_count as usize || start.0 as usize + width
        > register_count as usize)
}

/// Checks the register window of an instruction.
fn check_window(instruction: &Instruction, register_count: u8) -> (result: Result<
    (),
    VerificationErrorKind,
>)
    ensures
        match result {
            Ok(_) => window_error(instruction@, register_count) is None,
            Err(kind) => window_error(instruction@, register_count) == Some(kind),
        },
{
    match instruction {
        Instruction::CallFunction { args_start, arg_count, .. }
        | Instruction::CallValue { args_start, arg_count, .. }
        | Instruction::CallExtension { args_start, arg_count, .. } => {
            if exceeds_window(*args_start, *arg_count as usize, register_count) {
                return Err(
                    VerificationErrorKind::CallArgumentsOutOfRange {
                        args_start: *args_start,
                        arg_count: *arg_count,
                        register_count,
                    },
                );
            }
        },
        Instruction::MakeClosure { captures_start, capture_count, .. } => {
            if exceeds_window(*captures_start, *capture_count as usize, register_count) {
                return Err(
                    VerificationErrorKind::ClosureCapturesOutOfRange {
                        captures_start: *captures_start,
                        capture_count: *capture_count,
                        register_count,
                    },
                );
            }
        },
        Instruction::ArrayNew { elements_start, element_count, .. } => {
            if exceeds_window(*elements_start, *element_count as usize, register_count) {
                return Err(
                    VerificationErrorKind::ArrayElementsOutOfRange {
                        elements_start: *elements_start,
                        element_count: *element_count,
                        register_count,
                    },
                );
            }
        },
        Instruction::MapNew { entries_start, entry_count, .. } => {
            if exceeds_window(*entries_start, *entry_count as usize * 2, register_count) {
                return Err(
                    VerificationErrorKind::MapEntriesOutOfRange {
                        entries_start: *entries_start,
                        entry_count: *entry_count,
                        register_count,
                    },
                );
            }
        },
        Instruction::RecordNew { fields_start, fields, .. } => {
            if exceeds_window(*fields_start, fields.len(), register_count) {
                return Err(
                    VerificationErrorKind::RecordFieldsOutOfRange {
                        fields_start: *fields_start,
                        field_count: fields.len(),
                        register_count,
                    },
                );
            }
        },
        _ => {},
    }
    Ok(())
}

/// Checks one instruction of a chunk.
fn check_instruction(chunk: &Chunk, instruction: &Instruction) -> (result: Result<
    (),
    VerificationErrorKind,
>)
    ensures
        match result {
            Ok(_) => instruction_error(chunk@, instruction@) is None,
            Err(kind) => instruction_error(chunk@, instruction@) == Some(kind),
        },
{
    let registers = instruction.register_operands();
    if let Some(register) = find_invalid_register(&registers, chunk.register_count) {
        return Err(
            VerificationErrorKind::InvalidRegister {
                register,
                register_count: chunk.register_count,
            },
        );
    }
    if let Some(constant) = instruction.const_operand() {
        if constant.0 as usize >= chunk.constants.len() {
            return Err(
                VerificationErrorKind::InvalidConstant {
                    constant,
                    constant_count: chunk.constants.len(),
                },
            );
        }
    }
    let strings = instruction.string_operands();
    if let Some(string) = find_invalid_string(&strings, chunk.strings.len()) {
        return Err(
            VerificationErrorKind::InvalidString { string, string_count: chunk.strings.len() },
        );
    }
    if let Some(target) = instruction.jump_operand() {
        if target.0 as usize >= chunk.instructions.len() {
            return Err(
                VerificationErrorKind::InvalidJumpTarget {
                    target,
                    instruction_count: chunk.instructions.len(),
                },
            );
        }
    }
    if let Some(capture) = instruction.capture_operand() {
        if capture.0 >= chunk.capture_count {
            return Err(
                VerificationErrorKind::InvalidCapture {
                    capture,
                    capture_count: chunk.capture_count,
                },
            );
        }
    }
    check_window(instruction, chunk.register_count)
}

/// Checks the sizes of a chunk.
fn check_sizes(chunk: &Chunk) -> (result: Result<(), VerificationErrorKind>)
    ensures
        match result {
            Ok(_) => size_error(chunk@) is None,
            Err(kind) => size_error(chunk@) == Some(kind),
        },
{
    if chunk.arity > chunk.register_count {
        return Err(
            VerificationErrorKind::ArityExceedsRegisterCount {
                arity: chunk.arity,
                register_count: chunk.register_count,
            },
        );
    }
    if chunk.source_map.len() != chunk.instructions.len() {
        return Err(
            VerificationErrorKind::SourceMapLengthMismatch {
                instructions: chunk.instructions.len(),
                source_map: chunk.source_map.len(),
            },
        );
    }
    if chunk.debug_local_names.len() > chunk.register_count as usize {
        return Err(
            VerificationErrorKind::DebugLocalNamesOutOfRange {
                debug_local_names: chunk.debug_local_names.len(),
                register_count: chunk.register_count,
            },
        );
    }
    let limits = BytecodeLimits::current();
    if chunk.constants.len() > limits.max_constants {
        return Err(
            VerificationErrorKind::TooManyConstants {
                constant_count: chunk.constants.len(),
                max: limits.max_constants,
            },
        );
    }
    if chunk.strings.len() > limits.max_strings {
        return Err(
            VerificationErrorKind::TooManyStrings {
                string_count: chunk.strings.len(),
                max: limits.max_strings,
            },
        );
    }
    if chunk.instructions.len() > limits.max_instructions_per_function {
        return Err(
            VerificationErrorKind::TooManyInstructions {
                instruction_count: chunk.instructions.len(),
                max: limits.max_instructions_per_function,
            },
        );
    }
    Ok(())
}

impl StructuralVerifier {
    /// Checks a chunk in place.
    pub fn check(chunk: &Chunk) -> (result: Result<(), VerificationError>)
        ensures
            match result {
                Ok(_) => valid_chunk(chunk@),
                Err(error) => structural_error(chunk@) == Some(error),
            },
    {
        match check_sizes(chunk) {
            Ok(_) => {},
            Err(kind) => return Err(VerificationError::new(None, None, kind)),
        }
        let mut has_return = false;
        let mut ip: usize = 0;
        while ip < chunk.instructions.len()
            invariant
                ip <= chunk@.instructions.len(),
                chunk.instructions@.len() == chunk@.instructions.len(),
                size_error(chunk@) is None,
                has_return == leaves_within(chunk@, ip as nat),
                first_instruction_error(chunk@, 0) == first_instruction_error(chunk@, ip as nat),
            decreases chunk.instructions.len() - ip,
        {
            let instruction = &chunk.instructions[ip];
            assert(chunk@.instructions[ip as int] == instruction@);
            match instruction {
                Instruction::Return { .. } | Instruction::Throw { .. } => {
                    has_return = true;
                    assert(chunk@.instructions[ip as int].leaves());
                },
                _ => {
                    assert(!chunk@.instructions[ip as int].leaves());
                },
            }
            match check_instruction(chunk, instruction) {
                Ok(_) => {},
                Err(kind) => return Err(VerificationError::new(None, Some(ip), kind)),
            }
            ip = ip + 1;
        }
        if !has_return {
            return Err(VerificationError::new(None, None, VerificationErrorKind::MissingReturn));
        }
        Ok(())
    }

    /// Verifies a chunk and wraps it.
    pub fn verify(chunk: Chunk) -> (result: Result<VerifiedChunk, VerificationError>)
        ensures
            match result {
                Ok(verified) => valid_chunk(chunk@) && verified@ == chunk@ && verified.inner()
                    == chunk,
                Err(error) => structural_error(chunk@) == Some(error),
            },
    {
        match Self::check(&chunk) {
            Ok(_) => Ok(VerifiedChunk(chunk)),
            Err(error) => Err(error),
        }
    }
}

/// Checks that the metadata of a function agrees with its chunk.
fn validate_function_chunk_metadata(
    function: &Function,
    chunk: &Chunk,
    function_id: FunctionId,
) -> (result: Result<(), VerificationError>)
    requires
        function.kind == FunctionKind::Bytecode(*chunk),
    ensures
        match result {
            Ok(_) => metadata_mismatch(function@) is None,
            Err(error) => metadata_mismatch(function@) matches Some(field) && error == (
            VerificationError {
                function_id: Some(function_id),
                instruction_ip: None,
                kind: VerificationErrorKind::FunctionMetadataMismatch { field },
            }),
        },
{
    if !str_equal(function.name.as_str(), chunk.name.as_str()) {
        return Err(metadata_error(function_id, "name"));
    }
    if function.arity != chunk.arity {
        return Err(metadata_error(function_id, "arity"));
    }
    if function.register_count != chunk.register_count {
        return Err(metadata_error(function_id, "register_count"));
    }
    if function.capture_count != chunk.capture_count {
        return Err(metadata_error(function_id, "capture_count"));
    }
    Ok(())
}

/// Checks that the metadata of a function is that of a native function with the given name.
fn validate_native_function_metadata(
    function: &Function,
    native_name: &str,
    function_id: FunctionId,
) -> (result: Result<(), VerificationError>)
    ensures
        match result {
            Ok(_) => native_mismatch(function@, native_name@) is None,
            Err(error) => native_mismatch(function@, native_name@) matches Some(field) && error == (
            VerificationError {
                function_id: Some(function_id),
                instruction_ip: None,
                kind: VerificationErrorKind::FunctionMetadataMismatch { field },
            }),
        },
{
    if !str_equal(function.name.as_str(), native_name) {
        return Err(metadata_error(function_id, "name"));
    }
    if function.register_count != function.arity {
        return Err(metadata_error(function_id, "register_count"));
    }
    if function.capture_count != 0 {
        return Err(metadata_error(function_id, "capture_count"));
    }
    Ok(())
}

/// The error for a metadata field that disagrees.
fn metadata_error(function_id: FunctionId, field: &'static str) -> (error: VerificationError)
    ensures
        error == (VerificationError {
            function_id: Some(function_id),
            instruction_ip: None,
            kind: VerificationErrorKind::FunctionMetadataMismatch { field },
        }),
{
    VerificationError::new(
        Some(function_id),
        None,
        VerificationErrorKind::FunctionMetadataMismatch { field },
    )
}

/// Checks the references of one instruction against the function table.
fn check_reference(program: &Program, instruction: &Instruction) -> (result: Result<
    (),
    VerificationErrorKind,
>)
    ensures
        match result {
            Ok(_) => reference_error(program@, instruction@) is None,
            Err(kind) => reference_error(program@, instruction@) == Some(kind),
        },
{
    match instruction {
        Instruction::CallFunction { function, arg_count, .. } => {
            match program.function(*function) {
                Some(callee) => {
                    if callee.arity != *arg_count {
                        return Err(
                            VerificationErrorKind::WrongCallArity {
                                function: *function,
                                expected: callee.arity,
                                actual: *arg_count,
                            },
                        );
                    }
                },
                None => {
                    return Err(
                        VerificationErrorKind::InvalidFunction {
                            function: *function,
                            function_count: program.functions.len(),
                        },
                    );
                },
            }
        },
        Instruction::MakeClosure { function, capture_count, .. } => {
            match program.function(*function) {
                Some(callee) => {
                    if callee.capture_count != *capture_count {
                        return Err(
                            VerificationErrorKind::FunctionMetadataMismatch {
                                field: "capture_count",
                            },
                        );
                    }
                },
                None => {
                    return Err(
                        VerificationErrorKind::InvalidFunction {
                            function: *function,
                            function_count: program.functions.len(),
                        },
                    );
                },
            }
        },
        _ => {},
    }
    Ok(())
}

/// Checks the references of a chunk against the function table.
fn check_references(program: &Program, function_id: FunctionId, chunk: &Chunk) -> (result: Result<
    (),
    VerificationError,
>)
    ensures
        match result {
            Ok(_) => first_reference_error(program@, function_id, chunk@, 0) is None,
            Err(error) => first_reference_error(program@, function_id, chunk@, 0) == Some(error),
        },
{
    let mut ip: usize = 0;
    while ip < chunk.instructions.len()
        invariant
            ip <= chunk@.instructions.len(),
            chunk.instructions@.len() == chunk@.instructions.len(),
            first_reference_error(program@, function_id, chunk@, 0) == first_reference_error(
                program@,
                function_id,
                chunk@,
                ip as nat,
            ),
        decreases chunk.instructions.len() - ip,
    {
        let instruction = &chunk.instructions[ip];
        assert(chunk@.instructions[ip as int] == instruction@);
        match check_reference(program, instruction) {
            Ok(_) => {},
            Err(kind) => return Err(VerificationError::new(Some(function_id), Some(ip), kind)),
        }
        ip = ip + 1;
    }
    Ok(())
}

/// Checks one function of a program.
fn check_function(program: &Program, function_id: FunctionId) -> (result: Result<
    (),
    VerificationError,
>)
    requires
        function_id.0 < program.functions@.len(),
    ensures
        match result {
            Ok(_) => function_error(program@, function_id) is None,
            Err(error) => function_error(program@, function_id) == Some(error),
        },
{
    let function = &program.functions[function_id.0 as usize];
    assert(program@.functions[function_id.0 as int] == function@);
    match &function.kind {
        FunctionKind::Bytecode(chunk) => {
            validate_function_chunk_metadata(function, chunk, function_id)?;
            match StructuralVerifier::check(chunk) {
                Ok(_) => {},
                Err(error) => return Err(error.with_function_id(function_id)),
            }
            check_references(program, function_id, chunk)
        },
        FunctionKind::Native { name } => {
            validate_native_function_metadata(function, name.as_str(), function_id)
        },
    }
}

impl ProgramVerifier {
    /// Checks a program in place.
    pub fn check(program: &Program) -> (result: Result<(), VerificationError>)
        ensures
            match result {
                Ok(_) => valid_program(program@),
                Err(error) => !valid_program(program@) && rejected_with(program@, error),
            },
    {
        if !str_equal(program.format.magic, BYTECODE_MAGIC) || program.format.version
            != CURRENT_BYTECODE_VERSION {
            return Err(
                VerificationError::new(
                    None,
                    None,
                    VerificationErrorKind::UnsupportedBytecodeFormat {
                        magic: program.format.magic.to_owned(),
                        version: program.format.version,
                    },
                ),
            );
        }
        let limits = BytecodeLimits::current();
        if program.functions.len() > limits.max_functions {
            return Err(
                VerificationError::new(
                    None,
                    None,
                    VerificationErrorKind::TooManyFunctions {
                        function_count: program.functions.len(),
                        max: limits.max_functions,
                    },
                ),
            );
        }
        if program.entry.0 as usize >= program.functions.len() {
            return Err(
                VerificationError::new(
                    Some(program.entry),
                    None,
                    VerificationErrorKind::InvalidEntrypoint {
                        entry: program.entry,
                        function_count: program.functions.len(),
                    },
                ),
            );
        }
        let mut index: usize = 0;
        while index < program.functions.len()
            invariant
                index <= program@.functions.len() <= 0x1_0000,
                program.functions@.len() == program@.functions.len(),
                program@.entry.0 < program@.functions.len(),
                supported_format(program@),
                first_function_error(program@, 0) == first_function_error(program@, index as nat),
            decreases program.functions.len() - index,
        {
            match check_function(program, FunctionId(index as u16)) {
                Ok(_) => {},
                Err(error) => return Err(error),
            }
            index = index + 1;
        }
        Ok(())
    }

    /// Verifies a program and wraps it.
    pub fn verify(program: Program) -> (result: Result<VerifiedProgram, VerificationError>)
        ensures
            match result {
                Ok(verified) => valid_program(program@) && verified@ == program@
                    && verified.inner() == program,
                Err(error) => !valid_program(program@) && rejected_with(program@, error),
            },
    {
        match Self::check(&program) {
            Ok(_) => Ok(VerifiedProgram(program)),
            Err(error) => Err(error),
        }
    }
}

impl VerificationError {
    /// Creates an error.
    pub fn new(
        function_id: Option<FunctionId>,
        instruction_ip: Option<usize>,
        kind: VerificationErrorKind,
    ) -> (error: Self)
        ensures
            error == (VerificationError { function_id, instruction_ip, kind }),
    {
        VerificationError { function_id, instruction_ip, kind }
    }

    /// The same error in the context of a function.
    pub fn with_function_id(self, function_id: FunctionId) -> (error: Self)
        ensures
            error == (VerificationError { function_id: Some(function_id), ..self }),
    {
        let mut error = self;
        error.function_id = Some(function_id);
        error
    }
}

/// The message of a verification failure, without its place.
pub open spec fn kind_text(kind: VerificationErrorKind) -> Seq<char> {
    match kind {
        VerificationErrorKind::ArityExceedsRegisterCount { arity, register_count } => "function arity "@ + decimal(arity as nat) + " exceeds register count "@ + decimal(register_count as nat),
        VerificationErrorKind::SourceMapLengthMismatch { instructions, source_map } => "source map length "@ + decimal(source_map as nat) + " does not match instruction count "@ + decimal(instructions as nat),
        VerificationErrorKind::DebugLocalNamesOutOfRange { debug_local_names, register_count } => "debug local names length "@ + decimal(debug_local_names as nat) + " exceeds register count "@ + decimal(register_count as nat),
        VerificationErrorKind::TooManyConstants { constant_count, max } => "constant count "@ + decimal(constant_count as nat) + " exceeds bytecode format maximum "@ + decimal(max as nat),
        VerificationErrorKind::TooManyStrings { string_count, max } => "string count "@ + decimal(string_count as nat) + " exceeds bytecode format maximum "@ + decimal(max as nat),
        VerificationErrorKind::TooManyFunctions { function_count, max } => "function count "@ + decimal(function_count as nat) + " exceeds bytecode format maximum "@ + decimal(max as nat),
        VerificationErrorKind::TooManyInstructions { instruction_count, max } => "instruction count "@ + decimal(instruction_count as nat) + " exceeds bytecode format maximum "@ + decimal(max as nat),
        VerificationErrorKind::InvalidRegister { register, register_count } => "invalid register "@ + register.text() + "; chunk has "@ + decimal(register_count as nat) + " registers"@,
        VerificationErrorKind::InvalidConstant { constant, constant_count } => "invalid constant "@ + constant.text() + "; chunk has "@ + decimal(constant_count as nat) + " constants"@,
        VerificationErrorKind::InvalidString { string, string_count } => "invalid string "@ + string.text() + "; chunk has "@ + decimal(string_count as nat) + " strings"@,
        VerificationErrorKind::InvalidJumpTarget { target, instruction_count } => "invalid jump target "@ + target.text() + "; chunk has "@ + decimal(instruction_count as nat) + " instructions"@,
        VerificationErrorKind::InvalidFunction { function, function_count } => "invalid function "@ + function.text() + "; program has "@ + decimal(function_count as nat) + " functions"@,
        VerificationErrorKind::InvalidEntrypoint { entry, function_count } => "invalid entrypoint "@ + entry.text() + "; program has "@ + decimal(function_count as nat) + " functions"@,
        VerificationErrorKind::CallArgumentsOutOfRange { args_start, arg_count, register_count } => "call arguments starting at "@ + args_start.text() + " with count "@ + decimal(arg_count as nat) + " exceed "@ + decimal(register_count as nat) + " registers"@,
        VerificationErrorKind::ClosureCapturesOutOfRange { captures_start, capture_count, register_count } => "closure captures starting at "@ + captures_start.text() + " with count "@ + decimal(capture_count as nat) + " exceed "@ + decimal(register_count as nat) + " registers"@,
        VerificationErrorKind::InvalidCapture { capture, capture_count } => "invalid capture "@ + capture.text() + "; function has "@ + decimal(capture_count as nat) + " captures"@,
        VerificationErrorKind::ArrayElementsOutOfRange { elements_start, element_count, register_count } => "array elements starting at "@ + elements_start.text() + " with count "@ + decimal(element_count as nat) + " exceed "@ + decimal(register_count as nat) + " registers"@,
        VerificationErrorKind::MapEntriesOutOfRange { entries_start, entry_count, register_count } => "map entries starting at "@ + entries_start.text() + " with count "@ + decimal(entry_count as nat) + " exceed "@ + decimal(register_count as nat) + " registers"@,
        VerificationErrorKind::RecordFieldsOutOfRange { fields_start, field_count, register_count } => "record fields starting at "@ + fields_start.text() + " with count "@ + decimal(field_count as nat) + " exceed "@ + decimal(register_count as nat) + " registers"@,
        VerificationErrorKind::WrongCallArity { function, expected, actual } => "wrong call arity for "@ + function.text() + "; expected "@ + decimal(expected as nat) + ", got "@ + decimal(actual as nat),
        VerificationErrorKind::UnsupportedBytecodeFormat { magic, version } => "unsupported bytecode format "@ + magic@ + " version "@ + decimal(version as nat),
        VerificationErrorKind::FunctionMetadataMismatch { field } => "function metadata field `"@ + field@ + "` does not match chunk metadata"@,
        VerificationErrorKind::MissingReturn => "chunk has no return instruction"@,
    }
}

/// The message of a verification error.
pub open spec fn error_text(error: VerificationError) -> Seq<char> {
    let message = kind_text(error.kind);
    let placed = match error.function_id {
        Some(id) => message + " in "@ + id.text(),
        None => message,
    };
    match error.instruction_ip {
        Some(ip) => placed + " at instruction "@ + decimal(ip as nat),
        None => placed,
    }
}

impl VerificationErrorKind {
    /// Renders the failure without its place.
    pub fn to_string(&self) -> (s: String)
        ensures
            s@ == kind_text(*self),
    {
        match self {
            VerificationErrorKind::ArityExceedsRegisterCount { arity, register_count } => {
                let mut s = String::from_str("function arity ");
                push_decimal(&mut s, *arity as u64);
                s.append(" exceeds register count ");
                push_decimal(&mut s, *register_count as u64);
                s
            },
            VerificationErrorKind::SourceMapLengthMismatch { instructions, source_map } => {
                let mut s = String::from_str("source map length ");
                push_decimal(&mut s, *source_map as u64);
                s.append(" does not match instruction count ");
                push_decimal(&mut s, *instructions as u64);
                s
            },
            VerificationErrorKind::DebugLocalNamesOutOfRange { debug_local_names, register_count } => {
                let mut s = String::from_str("debug local names length ");
                push_decimal(&mut s, *debug_local_names as u64);
                s.append(" exceeds register count ");
                push_decimal(&mut s, *register_count as u64);
                s
            },
            VerificationErrorKind::TooManyConstants { constant_count, max } => {
                let mut s = String::from_str("constant count ");
                push_decimal(&mut s, *constant_count as u64);
                s.append(" exceeds bytecode format maximum ");
                push_decimal(&mut s, *max as u64);
                s
            },
            VerificationErrorKind::TooManyStrings { string_count, max } => {
                let mut s = String::from_str("string count ");
                push_decimal(&mut s, *string_count as u64);
                s.append(" exceeds bytecode format maximum ");
                push_decimal(&mut s, *max as u64);
                s
            },
            VerificationErrorKind::TooManyFunctions { function_count, max } => {
                let mut s = String::from_str("function count ");
                push_decimal(&mut s, *function_count as u64);
                s.append(" exceeds bytecode format maximum ");
                push_decimal(&mut s, *max as u64);
                s
            },
            VerificationErrorKind::TooManyInstructions { instruction_count, max } => {
                let mut s = String::from_str("instruction count ");
                push_decimal(&mut s, *instruction_count as u64);
                s.append(" exceeds bytecode format maximum ");
                push_decimal(&mut s, *max as u64);
                s
            },
            VerificationErrorKind::InvalidRegister { register, register_count } => {
                let mut s = String::from_str("invalid register ");
                s.append(register.to_string().as_str());
                s.append("; chunk has ");
                push_decimal(&mut s, *register_count as u64);
                s.append(" registers");
                s
            },
            VerificationErrorKind::InvalidConstant { constant, constant_count } => {
                let mut s = String::from_str("invalid constant ");
                s.append(constant.to_string().as_str());
                s.append("; chunk has ");
                push_decimal(&mut s, *constant_count as u64);
                s.append(" constants");
                s
            },
            VerificationErrorKind::InvalidString { string, string_count } => {
                let mut s = String::from_str("invalid string ");
                s.append(string.to_string().as_str());
                s.append("; chunk has ");
                push_decimal(&mut s, *string_count as u64);
                s.append(" strings");
                s
            },
            VerificationErrorKind::InvalidJumpTarget { target, instruction_count } => {
                let mut s = String::from_str("invalid jump target ");
                s.append(target.to_string().as_str());
                s.append("; chunk has ");
                push_decimal(&mut s, *instruction_count as u64);
                s.append(" instructions");
                s
            },
            VerificationErrorKind::InvalidFunction { function, function_count } => {
                let mut s = String::from_str("invalid function ");
                s.append(function.to_string().as_str());
                s.append("; program has ");
                push_decimal(&mut s, *function_count as u64);
                s.append(" functions");
                s
            },
            VerificationErrorKind::InvalidEntrypoint { entry, function_count } => {
                let mut s = String::from_str("invalid entrypoint ");
                s.append(entry.to_string().as_str());
                s.append("; program has ");
                push_decimal(&mut s, *function_count as u64);
                s.append(" functions");
                s
            },
            VerificationErrorKind::CallArgumentsOutOfRange { args_start, arg_count, register_count } => {
                let mut s = String::from_str("call arguments starting at ");
                s.append(args_start.to_string().as_str());
                s.append(" with count ");
                push_decimal(&mut s, *arg_count as u64);
                s.append(" exceed ");
                push_decimal(&mut s, *register_count as u64);
                s.append(" registers");
                s
            },
            VerificationErrorKind::ClosureCapturesOutOfRange { captures_start, capture_count, register_count } => {
                let mut s = String::from_str("closure captures starting at ");
                s.append(captures_start.to_string().as_str());
                s.append(" with count ");
                push_decimal(&mut s, *capture_count as u64);
                s.append(" exceed ");
                push_decimal(&mut s, *register_count as u64);
                s.append(" registers");
                s
            },
            VerificationErrorKind::InvalidCapture { capture, capture_count } => {
                let mut s = String::from_str("invalid capture ");
                s.append(capture.to_string().as_str());
                s.append("; function has ");
                push_decimal(&mut s, *capture_count as u64);
                s.append(" captures");
                s
            },
            VerificationErrorKind::ArrayElementsOutOfRange { elements_start, element_count, register_count } => {
                let mut s = String::from_str("array elements starting at ");
                s.append(elements_start.to_string().as_str());
                s.append(" with count ");
                push_decimal(&mut s, *element_count as u64);
                s.append(" exceed ");
                push_decimal(&mut s, *register_count as u64);
                s.append(" registers");
                s
            },
            VerificationErrorKind::MapEntriesOutOfRange { entries_start, entry_count, register_count } => {
                let mut s = String::from_str("map entries starting at ");
                s.append(entries_start.to_string().as_str());
                s.append(" with count ");
                push_decimal(&mut s, *entry_count as u64);
                s.append(" exceed ");
                push_decimal(&mut s, *register_count as u64);
                s.append(" registers");
                s
            },
            VerificationErrorKind::RecordFieldsOutOfRange { fields_start, field_count, register_count } => {
                let mut s = String::from_str("record fields starting at ");
                s.append(fields_start.to_string().as_str());
                s.append(" with count ");
                push_decimal(&mut s, *field_count as u64);
                s.append(" exceed ");
                push_decimal(&mut s, *register_count as u64);
                s.append(" registers");
                s
            },
            VerificationErrorKind::WrongCallArity { function, expected, actual } => {
                let mut s = String::from_str("wrong call arity for ");
                s.append(function.to_string().as_str());
                s.append("; expected ");
                push_decimal(&mut s, *expected as u64);
                s.append(", got ");
                push_decimal(&mut s, *actual as u64);
                s
            },
            VerificationErrorKind::UnsupportedBytecodeFormat { magic, version } => {
                let mut s = String::from_str("unsupported bytecode format ");
                s.append(magic.as_str());
                s.append(" version ");
                push_decimal(&mut s, *version as u64);
                s
            },
            VerificationErrorKind::FunctionMetadataMismatch { field } => {
                let mut s = String::from_str("function metadata field `");
                s.append(field);
                s.append("` does not match chunk metadata");
                s
            },
            VerificationErrorKind::MissingReturn => {
                String::from_str("chunk has no return instruction")
            },
        }
    }
}

impl VerificationError {
    /// Renders the error with its function and instruction, where known.
    pub fn to_string(&self) -> (s: String)
        ensures
            s@ == error_text(*self),
    {
        let mut s = self.kind.to_string();
        if let Some(id) = self.function_id {
            s.append(" in ");
            s.append(id.to_string().as_str());
        }
        if let Some(ip) = self.instruction_ip {
            s.append(" at instruction ");
            push_decimal(&mut s, ip as u64);
        }
        s
    }
}

} // verus!
