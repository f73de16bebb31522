//! What verification accepts and refuses, in numbers.

use vstd::prelude::*;

use crate::bytecode::chunk::Chunk;
use crate::bytecode::instruction::{
    field_count_byte, lemma_text_operands_behind, registers_in, text_operands, texts_in, CaptureId,
    ConstId, FunctionId, Instruction, JumpTarget, Operand, Register, StringId,
};
use crate::bytecode::program::{Function, FunctionKind, Program};
use crate::bytecode::verification::{
    content_error, first_function_error, first_instruction_error, first_invalid_register,
    first_invalid_text, first_reference_error, function_error, instruction_error, reference_error,
    size_error, structural_error, supported_format, valid_chunk, valid_program, window_error,
    VerificationError, VerificationErrorKind,
};

verus! {

// ---------------------------------------------------------------------------
// Instructions in a chunk
// ---------------------------------------------------------------------------

/// The registers that an instruction names, in order.
pub open spec fn named_registers(instruction: Instruction) -> Seq<Register> {
    match instruction {
        Instruction::LoadConst { dst, .. } => seq![dst],
        Instruction::LoadString { dst, .. } => seq![dst],
        Instruction::Move { dst, src } => seq![dst, src],
        Instruction::Add { dst, lhs, rhs } => seq![dst, lhs, rhs],
        Instruction::AddInt { dst, lhs, rhs } => seq![dst, lhs, rhs],
        Instruction::Sub { dst, lhs, rhs } => seq![dst, lhs, rhs],
        Instruction::SubInt { dst, lhs, rhs } => seq![dst, lhs, rhs],
        Instruction::Mul { dst, lhs, rhs } => seq![dst, lhs, rhs],
        Instruction::MulInt { dst, lhs, rhs } => seq![dst, lhs, rhs],
        Instruction::Div { dst, lhs, rhs } => seq![dst, lhs, rhs],
        Instruction::DivInt { dst, lhs, rhs } => seq![dst, lhs, rhs],
        Instruction::Jump { .. } => Seq::empty(),
        Instruction::JumpIfFalse { condition, .. } => seq![condition],
        Instruction::JumpIfTrue { condition, .. } => seq![condition],
        Instruction::Equal { dst, lhs, rhs } => seq![dst, lhs, rhs],
        Instruction::NotEqual { dst, lhs, rhs } => seq![dst, lhs, rhs],
        Instruction::Less { dst, lhs, rhs } => seq![dst, lhs, rhs],
        Instruction::LessInt { dst, lhs, rhs } => seq![dst, lhs, rhs],
        Instruction::LessEqual { dst, lhs, rhs } => seq![dst, lhs, rhs],
        Instruction::LessEqualInt { dst, lhs, rhs } => seq![dst, lhs, rhs],
        Instruction::Greater { dst, lhs, rhs } => seq![dst, lhs, rhs],
        Instruction::GreaterInt { dst, lhs, rhs } => seq![dst, lhs, rhs],
        Instruction::GreaterEqual { dst, lhs, rhs } => seq![dst, lhs, rhs],
        Instruction::GreaterEqualInt { dst, lhs, rhs } => seq![dst, lhs, rhs],
        Instruction::Not { dst, src } => seq![dst, src],
        Instruction::CallFunction { dst, args_start, .. } => seq![dst, args_start],
        Instruction::MakeUpvalue { dst, src } => seq![dst, src],
        Instruction::LoadUpvalue { dst, upvalue } => seq![dst, upvalue],
        Instruction::StoreUpvalue { upvalue, src } => seq![upvalue, src],
        Instruction::MakeClosure { dst, captures_start, .. } => seq![dst, captures_start],
        Instruction::LoadCapture { dst, .. } => seq![dst],
        Instruction::LoadCaptureCell { dst, .. } => seq![dst],
        Instruction::StoreCapture { src, .. } => seq![src],
        Instruction::CallValue { dst, callee, args_start, .. } => seq![dst, callee, args_start],
        Instruction::CallExtension { dst, args_start, .. } => seq![dst, args_start],
        Instruction::ArrayNew { dst, elements_start, .. } => seq![dst, elements_start],
        Instruction::MapNew { dst, entries_start, .. } => seq![dst, entries_start],
        Instruction::RecordNew { dst, fields_start, .. } => seq![dst, fields_start],
        Instruction::IndexGet { dst, target, index } => seq![dst, target, index],
        Instruction::IndexSet { target, index, value } => seq![target, index, value],
        Instruction::ArrayGet { dst, array, index } => seq![dst, array, index],
        Instruction::ArraySet { array, index, value } => seq![array, index, value],
        Instruction::FieldGet { dst, target, .. } => seq![dst, target],
        Instruction::FieldSet { target, value, .. } => seq![target, value],
        Instruction::PushHandler { error, .. } => seq![error],
        Instruction::PopHandler => Seq::empty(),
        Instruction::Throw { src } => seq![src],
        Instruction::Return { src } => seq![src],
    }
}

/// The registers in a row that an instruction reads: the first one and how many there are.
pub open spec fn register_row(instruction: Instruction) -> Option<(Register, int)> {
    match instruction {
        Instruction::CallFunction { args_start, arg_count, .. } => Some(
            (args_start, arg_count as int),
        ),
        Instruction::CallValue { args_start, arg_count, .. } => Some((args_start, arg_count as int)),
        Instruction::CallExtension { args_start, arg_count, .. } => Some(
            (args_start, arg_count as int),
        ),
        Instruction::MakeClosure { captures_start, capture_count, .. } => Some(
            (captures_start, capture_count as int),
        ),
        Instruction::ArrayNew { elements_start, element_count, .. } => Some(
            (elements_start, element_count as int),
        ),
        Instruction::MapNew { entries_start, entry_count, .. } => Some(
            (entries_start, 2 * entry_count),
        ),
        Instruction::RecordNew { fields_start, fields, .. } => Some(
            (fields_start, fields@.len() as int),
        ),
        _ => None,
    }
}

/// The strings that an instruction names, in order.
pub open spec fn named_strings(instruction: Instruction) -> Seq<StringId> {
    match instruction {
        Instruction::LoadString { string, .. } => seq![string],
        Instruction::CallExtension { extension, .. } => seq![extension],
        Instruction::RecordNew { fields, .. } => fields@,
        Instruction::FieldGet { field, .. } => seq![field],
        Instruction::FieldSet { field, .. } => seq![field],
        _ => Seq::empty(),
    }
}

/// The constant that an instruction loads.
pub open spec fn named_constant(instruction: Instruction) -> Option<ConstId> {
    match instruction {
        Instruction::LoadConst { constant, .. } => Some(constant),
        _ => None,
    }
}

/// The place that an instruction can go to.
pub open spec fn named_target(instruction: Instruction) -> Option<JumpTarget> {
    match instruction {
        Instruction::Jump { target } => Some(target),
        Instruction::JumpIfFalse { target, .. } => Some(target),
        Instruction::JumpIfTrue { target, .. } => Some(target),
        Instruction::PushHandler { target, .. } => Some(target),
        _ => None,
    }
}

/// The captured value that an instruction uses.
pub open spec fn named_capture(instruction: Instruction) -> Option<CaptureId> {
    match instruction {
        Instruction::LoadCapture { capture, .. } => Some(capture),
        Instruction::LoadCaptureCell { capture, .. } => Some(capture),
        Instruction::StoreCapture { capture, .. } => Some(capture),
        _ => None,
    }
}

/// Whether all registers that an instruction names are there.
pub open spec fn registers_exist(instruction: Instruction, chunk: Chunk) -> bool {
    forall|i: int|
        0 <= i < named_registers(instruction).len() ==> (#[trigger] named_registers(
            instruction,
        )[i]).0 < chunk.register_count
}

/// Whether all constants, strings, places and captured values that an instruction names are there.
pub open spec fn pools_suffice(instruction: Instruction, chunk: Chunk) -> bool {
    &&& named_constant(instruction) matches Some(constant) ==> constant.0 < chunk.constants@.len()
    &&& forall|i: int|
        0 <= i < named_strings(instruction).len() ==> (#[trigger] named_strings(instruction)[i]).0
            < chunk.strings@.len()
    &&& named_target(instruction) matches Some(target) ==> target.0 < chunk.instructions@.len()
    &&& named_capture(instruction) matches Some(capture) ==> capture.0 < chunk.capture_count
}

/// Whether the registers in a row that an instruction reads are all there.
pub open spec fn row_exists(instruction: Instruction, chunk: Chunk) -> bool {
    register_row(instruction) matches Some((start, count)) ==> count > 0 ==> start.0 + count
        <= chunk.register_count
}

/// Whether everything that an instruction names is there.
pub open spec fn sound(instruction: Instruction, chunk: Chunk) -> bool {
    &&& registers_exist(instruction, chunk)
    &&& pools_suffice(instruction, chunk)
    &&& row_exists(instruction, chunk)
}

/// Whether an instruction leaves its function.
pub open spec fn departs(instruction: Instruction) -> bool {
    instruction is Return || instruction is Throw
}

/// Whether the sizes of a chunk go together.
pub open spec fn well_sized(chunk: Chunk) -> bool {
    &&& chunk.arity <= chunk.register_count
    &&& chunk.source_map@.len() == chunk.instructions@.len()
    &&& chunk.debug_local_names@.len() <= chunk.register_count
    &&& chunk.constants@.len() <= 65536
    &&& chunk.strings@.len() <= 65536
    &&& chunk.instructions@.len() <= 4294967296
}

/// Whether everything in a chunk is there, and the chunk can be left.
pub open spec fn sound_chunk(chunk: Chunk) -> bool {
    &&& well_sized(chunk)
    &&& forall|ip: int|
        0 <= ip < chunk.instructions@.len() ==> sound(#[trigger] chunk.instructions@[ip], chunk)
    &&& exists|ip: int|
        0 <= ip < chunk.instructions@.len() && departs(#[trigger] chunk.instructions@[ip])
}

#[verifier::rlimit(100)]
proof fn lemma_named_registers(instruction: Instruction)
    ensures
        instruction@.registers() == named_registers(instruction),
{
    reveal_with_fuel(registers_in, 5);
    if let Instruction::RecordNew { dst, fields_start, fields } = instruction {
        let front = seq![
            Operand::Register(dst),
            Operand::Register(fields_start),
            Operand::Count(field_count_byte(fields@.len())),
        ];
        lemma_text_operands_behind(front, fields@);
        assert(instruction@.operands == front + text_operands(fields@));
        assert(registers_in(front) =~= seq![dst, fields_start]);
    } else {
        assert(instruction@.registers() =~= named_registers(instruction));
    }
}

#[verifier::rlimit(100)]
proof fn lemma_named_strings(instruction: Instruction)
    ensures
        instruction@.texts() == named_strings(instruction),
{
    reveal_with_fuel(texts_in, 5);
    if let Instruction::RecordNew { dst, fields_start, fields } = instruction {
        let front = seq![
            Operand::Register(dst),
            Operand::Register(fields_start),
            Operand::Count(field_count_byte(fields@.len())),
        ];
        lemma_text_operands_behind(front, fields@);
        assert(instruction@.operands == front + text_operands(fields@));
        assert(texts_in(front) =~= Seq::empty());
        assert(texts_in(front) + fields@ =~= fields@);
    } else {
        assert(instruction@.texts() =~= named_strings(instruction));
    }
}

proof fn lemma_named(instruction: Instruction)
    ensures
        instruction@.registers() == named_registers(instruction),
        instruction@.texts() == named_strings(instruction),
        instruction@.constant() == named_constant(instruction),
        instruction@.target() == named_target(instruction),
        instruction@.capture() == named_capture(instruction),
{
    lemma_named_registers(instruction);
    lemma_named_strings(instruction);
    if let Instruction::RecordNew { dst, fields_start, fields } = instruction {
        assert(fields@.len() > 0 ==> instruction@.operands.last() == Operand::Text(
            fields@.last(),
        ));
    }
}

/// The first register behind others that does not exist.
pub open spec fn first_missing_register(
    registers: Seq<Register>,
    count: u8,
    register: Register,
) -> bool {
    exists|k: int|
        {
            &&& 0 <= k < registers.len()
            &&& register == #[trigger] registers[k]
            &&& register.0 >= count
            &&& forall|j: int| 0 <= j < k ==> (#[trigger] registers[j]).0 < count
        }
}

proof fn lemma_registers(registers: Seq<Register>, from: nat, count: u8)
    requires
        from <= registers.len(),
        forall|j: int| 0 <= j < from ==> (#[trigger] registers[j]).0 < count,
    ensures
        match first_invalid_register(registers, from, count) {
            Some(register) => first_missing_register(registers, count, register),
            None => forall|j: int| 0 <= j < registers.len() ==> (#[trigger] registers[j]).0 < count,
        },
    decreases registers.len() - from,
{
    if from < registers.len() && registers[from as int].0 < count {
        lemma_registers(registers, from + 1, count);
    }
}

/// The first string behind others that does not exist.
pub open spec fn first_missing_string(strings: Seq<StringId>, count: nat, string: StringId) -> bool {
    exists|k: int|
        {
            &&& 0 <= k < strings.len()
            &&& string == #[trigger] strings[k]
            &&& string.0 >= count
            &&& forall|j: int| 0 <= j < k ==> (#[trigger] strings[j]).0 < count
        }
}

proof fn lemma_strings(strings: Seq<StringId>, from: nat, count: nat)
    requires
        from <= strings.len(),
        forall|j: int| 0 <= j < from ==> (#[trigger] strings[j]).0 < count,
    ensures
        match first_invalid_text(strings, from, count) {
            Some(string) => first_missing_string(strings, count, string),
            None => forall|j: int| 0 <= j < strings.len() ==> (#[trigger] strings[j]).0 < count,
        },
    decreases strings.len() - from,
{
    if from < strings.len() && strings[from as int].0 < count {
        lemma_strings(strings, from + 1, count);
    }
}

/// Whether an error says truly what an instruction of a chunk lacks: the first register that is
/// not there; else the constant, the first string, the place or the captured value; else the
/// registers in a row.
pub open spec fn lacks(
    instruction: Instruction,
    chunk: Chunk,
    kind: VerificationErrorKind,
) -> bool {
    let register_count = chunk.register_count;
    match kind {
        VerificationErrorKind::InvalidRegister { register, register_count: count } => {
            &&& count == register_count
            &&& first_missing_register(named_registers(instruction), register_count, register)
        },
        VerificationErrorKind::InvalidConstant { constant, constant_count } => {
            &&& registers_exist(instruction, chunk)
            &&& named_constant(instruction) == Some(constant)
            &&& constant_count == chunk.constants@.len()
            &&& constant.0 >= constant_count
        },
        VerificationErrorKind::InvalidString { string, string_count } => {
            &&& registers_exist(instruction, chunk)
            &&& string_count == chunk.strings@.len()
            &&& first_missing_string(
                named_strings(instruction),
                chunk.strings@.len(),
                string,
            )
        },
        VerificationErrorKind::InvalidJumpTarget { target, instruction_count } => {
            &&& registers_exist(instruction, chunk)
            &&& named_target(instruction) == Some(target)
            &&& instruction_count == chunk.instructions@.len()
            &&& target.0 >= instruction_count
        },
        VerificationErrorKind::InvalidCapture { capture, capture_count } => {
            &&& registers_exist(instruction, chunk)
            &&& named_capture(instruction) == Some(capture)
            &&& capture_count == chunk.capture_count
            &&& capture.0 >= capture_count
        },
        VerificationErrorKind::CallArgumentsOutOfRange {
            args_start,
            arg_count,
            register_count: count,
        } => {
            &&& registers_exist(instruction, chunk) && pools_suffice(instruction, chunk)
            &&& instruction is CallFunction || instruction is CallValue
                || instruction is CallExtension
            &&& register_row(instruction) == Some((args_start, arg_count as int))
            &&& count == register_count
            &&& arg_count > 0
            &&& args_start.0 + arg_count > register_count
        },
        VerificationErrorKind::ClosureCapturesOutOfRange {
            captures_start,
            capture_count,
            register_count: count,
        } => {
            &&& registers_exist(instruction, chunk) && pools_suffice(instruction, chunk)
            &&& instruction is MakeClosure
            &&& register_row(instruction) == Some((captures_start, capture_count as int))
            &&& count == register_count
            &&& capture_count > 0
            &&& captures_start.0 + capture_count > register_count
        },
        VerificationErrorKind::ArrayElementsOutOfRange {
            elements_start,
            element_count,
            register_count: count,
        } => {
            &&& registers_exist(instruction, chunk) && pools_suffice(instruction, chunk)
            &&& instruction is ArrayNew
            &&& register_row(instruction) == Some((elements_start, element_count as int))
            &&& count == register_count
            &&& element_count > 0
            &&& elements_start.0 + element_count > register_count
        },
        VerificationErrorKind::MapEntriesOutOfRange {
            entries_start,
            entry_count,
            register_count: count,
        } => {
            &&& registers_exist(instruction, chunk) && pools_suffice(instruction, chunk)
            &&& instruction is MapNew
            &&& register_row(instruction) == Some((entries_start, 2 * entry_count))
            &&& count == register_count
            &&& entry_count > 0
            &&& entries_start.0 + 2 * entry_count > register_count
        },
        VerificationErrorKind::RecordFieldsOutOfRange {
            fields_start,
            field_count,
            register_count: count,
        } => {
            &&& registers_exist(instruction, chunk) && pools_suffice(instruction, chunk)
            &&& instruction is RecordNew
            &&& register_row(instruction) == Some((fields_start, field_count as int))
            &&& count == register_count
            &&& field_count > 0
            &&& fields_start.0 + field_count > register_count
        },
        _ => false,
    }
}

proof fn lemma_row(instruction: Instruction, chunk: Chunk)
    requires
        registers_exist(instruction, chunk),
        pools_suffice(instruction, chunk),
    ensures
        match window_error(instruction@, chunk.register_count) {
            Some(kind) => lacks(instruction, chunk, kind) && !row_exists(instruction, chunk),
            None => row_exists(instruction, chunk),
        },
{
    if let Instruction::RecordNew { fields, .. } = instruction {
        assert(instruction@.operands.len() == 3 + fields@.len());
        assert(fields@.len() == fields.len());
    }
}

proof fn lemma_instruction(instruction: Instruction, chunk: Chunk)
    ensures
        match instruction_error(chunk@, instruction@) {
            Some(kind) => lacks(instruction, chunk, kind) && !sound(instruction, chunk),
            None => sound(instruction, chunk),
        },
{
    lemma_named(instruction);
    lemma_registers(named_registers(instruction), 0, chunk.register_count);
    lemma_strings(named_strings(instruction), 0, chunk.strings@.len());
    assert(chunk@.strings.len() == chunk.strings@.len());
    assert(chunk@.instructions.len() == chunk.instructions@.len());
    if registers_exist(instruction, chunk) && pools_suffice(instruction, chunk) {
        lemma_row(instruction, chunk);
    }
}

/// Whether an error is the one of the first instruction from a place on that lacks something.
pub open spec fn first_lack(chunk: Chunk, from: int, error: VerificationError) -> bool {
    &&& error.function_id is None
    &&& error.instruction_ip matches Some(ip) && {
        &&& from <= ip < chunk.instructions@.len()
        &&& lacks(chunk.instructions@[ip as int], chunk, error.kind)
        &&& !sound(chunk.instructions@[ip as int], chunk)
        &&& forall|j: int| from <= j < ip ==> sound(#[trigger] chunk.instructions@[j], chunk)
    }
}

proof fn lemma_instructions(chunk: Chunk, from: nat)
    requires
        from <= chunk.instructions@.len(),
    ensures
        match first_instruction_error(chunk@, from) {
            Some(error) => first_lack(chunk, from as int, error),
            None => forall|j: int|
                from <= j < chunk.instructions@.len() ==> sound(
                    #[trigger] chunk.instructions@[j],
                    chunk,
                ),
        },
    decreases chunk.instructions@.len() - from,
{
    if from < chunk.instructions@.len() {
        assert(chunk@.instructions[from as int] == chunk.instructions@[from as int]@);
        assert(chunk.instructions@.len() == chunk.instructions.len());
        lemma_instruction(chunk.instructions@[from as int], chunk);
        lemma_instructions(chunk, from + 1);
    }
}

/// Whether an error says truly which sizes of a chunk do not go together.
pub open spec fn missized(chunk: Chunk, kind: VerificationErrorKind) -> bool {
    match kind {
        VerificationErrorKind::ArityExceedsRegisterCount { arity, register_count } => {
            &&& arity == chunk.arity
            &&& register_count == chunk.register_count
            &&& arity > register_count
        },
        VerificationErrorKind::SourceMapLengthMismatch { instructions, source_map } => {
            &&& instructions == chunk.instructions@.len()
            &&& source_map == chunk.source_map@.len()
            &&& instructions != source_map
        },
        VerificationErrorKind::DebugLocalNamesOutOfRange { debug_local_names, register_count } => {
            &&& debug_local_names == chunk.debug_local_names@.len()
            &&& register_count == chunk.register_count
            &&& debug_local_names > register_count
        },
        VerificationErrorKind::TooManyConstants { constant_count, max } => {
            &&& constant_count == chunk.constants@.len()
            &&& max == 65536
            &&& constant_count > max
        },
        VerificationErrorKind::TooManyStrings { string_count, max } => {
            &&& string_count == chunk.strings@.len()
            &&& max == 65536
            &&& string_count > max
        },
        VerificationErrorKind::TooManyInstructions { instruction_count, max } => {
            &&& instruction_count == chunk.instructions@.len()
            &&& max == 4294967296
            &&& instruction_count > max
        },
        _ => false,
    }
}

proof fn lemma_sizes(chunk: Chunk)
    ensures
        match size_error(chunk@) {
            Some(kind) => missized(chunk, kind) && !well_sized(chunk),
            None => well_sized(chunk),
        },
{
    assert(chunk@.strings.len() == chunk.strings@.len());
    assert(chunk@.instructions.len() == chunk.instructions@.len());
    assert(chunk@.debug_local_names.len() == chunk.debug_local_names@.len());
    assert(chunk.instructions@.len() == chunk.instructions.len());
    assert(chunk.source_map@.len() == chunk.source_map.len());
    assert(chunk.debug_local_names@.len() == chunk.debug_local_names.len());
    assert(chunk.constants@.len() == chunk.constants.len());
    assert(chunk.strings@.len() == chunk.strings.len());
}

/// Verification accepts the chunks in which everything is there, and no others: every register,
/// constant, string, jump target and captured value that an instruction names exists, every row of
/// registers that an instruction reads lies in the register file, and an instruction leaves the
/// chunk. A chunk that it refuses is refused for something that is not so: a size, what the first
/// unsound instruction lacks, or that nothing leaves the chunk.
pub proof fn verification_accepts_sound_chunks(chunk: Chunk)
    ensures
        valid_chunk(chunk@) <==> sound_chunk(chunk),
        structural_error(chunk@) matches Some(error) ==> if !well_sized(chunk) {
            &&& error.function_id is None
            &&& error.instruction_ip is None
            &&& missized(chunk, error.kind)
        } else if exists|ip: int|
            0 <= ip < chunk.instructions@.len() && !sound(
                #[trigger] chunk.instructions@[ip],
                chunk,
            ) {
            first_lack(chunk, 0, error)
        } else {
            error == (VerificationError {
                function_id: None,
                instruction_ip: None,
                kind: VerificationErrorKind::MissingReturn,
            })
        },
{
    lemma_sizes(chunk);
    lemma_instructions(chunk, 0);
    assert(chunk@.instructions.len() == chunk.instructions@.len());
    if exists|ip: int|
        0 <= ip < chunk@.instructions.len() && #[trigger] chunk@.instructions[ip].leaves() {
        let ip = choose|ip: int|
            0 <= ip < chunk@.instructions.len() && #[trigger] chunk@.instructions[ip].leaves();
        assert(chunk@.instructions[ip] == chunk.instructions@[ip]@);
        assert(departs(chunk.instructions@[ip]));
    }
    if exists|ip: int|
        0 <= ip < chunk.instructions@.len() && departs(#[trigger] chunk.instructions@[ip]) {
        let ip = choose|ip: int|
            0 <= ip < chunk.instructions@.len() && departs(#[trigger] chunk.instructions@[ip]);
        assert(chunk@.instructions[ip] == chunk.instructions@[ip]@);
        assert(chunk@.instructions[ip].leaves());
    }
}

// ---------------------------------------------------------------------------
// Functions in a program
// ---------------------------------------------------------------------------

/// Whether what a function says of itself is so.
pub open spec fn honest(function: Function) -> bool {
    match function.kind {
        FunctionKind::Bytecode(chunk) => {
            &&& function.name@ == chunk.name@
            &&& function.arity == chunk.arity
            &&& function.register_count == chunk.register_count
            &&& function.capture_count == chunk.capture_count
        },
        FunctionKind::Native { name } => {
            &&& function.name@ == name@
            &&& function.register_count == function.arity
            &&& function.capture_count == 0
        },
    }
}

/// The function that an instruction names.
pub open spec fn named_function(instruction: Instruction) -> Option<FunctionId> {
    match instruction {
        Instruction::CallFunction { function, .. } => Some(function),
        Instruction::MakeClosure { function, .. } => Some(function),
        _ => None,
    }
}

/// Whether a function that an instruction names is there and takes what it is given.
pub open spec fn resolves(instruction: Instruction, program: Program) -> bool {
    match instruction {
        Instruction::CallFunction { function, arg_count, .. } => {
            &&& function.0 < program.functions@.len()
            &&& program.functions@[function.0 as int].arity == arg_count
        },
        Instruction::MakeClosure { function, capture_count, .. } => {
            &&& function.0 < program.functions@.len()
            &&& program.functions@[function.0 as int].capture_count == capture_count
        },
        _ => true,
    }
}

/// Whether a function of a program is honest, its chunk sound, and every function that it names
/// fits.
pub open spec fn sound_function(function: Function, program: Program) -> bool {
    &&& honest(function)
    &&& function.kind matches FunctionKind::Bytecode(chunk) ==> {
        &&& sound_chunk(chunk)
        &&& forall|ip: int|
            0 <= ip < chunk.instructions@.len() ==> resolves(
                #[trigger] chunk.instructions@[ip],
                program,
            )
    }
}

/// Whether a program is in the format of this version, its entry exists, and its functions are
/// sound.
pub open spec fn sound_program(program: Program) -> bool {
    &&& program.format.magic@ == "FERRIXBC"@
    &&& program.format.version == 1
    &&& program.functions@.len() <= 65536
    &&& program.entry.0 < program.functions@.len()
    &&& forall|i: int|
        0 <= i < program.functions@.len() ==> sound_function(
            #[trigger] program.functions@[i],
            program,
        )
}

/// Whether an error says truly why a function that an instruction names does not fit.
pub open spec fn unresolved(
    instruction: Instruction,
    program: Program,
    kind: VerificationErrorKind,
) -> bool {
    match kind {
        VerificationErrorKind::InvalidFunction { function, function_count } => {
            &&& named_function(instruction) == Some(function)
            &&& function_count == program.functions@.len()
            &&& function.0 >= function_count
        },
        VerificationErrorKind::WrongCallArity { function, expected, actual } => {
            &&& instruction matches Instruction::CallFunction { function: named, arg_count, .. }
                && named == function && arg_count == actual
            &&& function.0 < program.functions@.len()
            &&& expected == program.functions@[function.0 as int].arity
            &&& expected != actual
        },
        VerificationErrorKind::FunctionMetadataMismatch { field } => {
            &&& instruction matches Instruction::MakeClosure { function, capture_count, .. }
                && function.0 < program.functions@.len()
                && program.functions@[function.0 as int].capture_count != capture_count
            &&& field@ == "capture_count"@
        },
        _ => false,
    }
}

proof fn lemma_reference(instruction: Instruction, program: Program)
    ensures
        match reference_error(program@, instruction@) {
            Some(kind) => unresolved(instruction, program, kind) && !resolves(instruction, program),
            None => resolves(instruction, program),
        },
{
    assert(program@.functions.len() == program.functions@.len());
    assert(program.functions@.len() == program.functions.len());
    if let Instruction::RecordNew { fields, .. } = instruction {
        assert(instruction@.operands[1] is Register);
    }
    match instruction {
        Instruction::CallFunction { function, .. } => {
            if function.0 < program.functions@.len() {
                assert(program@.functions[function.0 as int]
                    == program.functions@[function.0 as int]@);
            }
        },
        Instruction::MakeClosure { function, .. } => {
            if function.0 < program.functions@.len() {
                assert(program@.functions[function.0 as int]
                    == program.functions@[function.0 as int]@);
            }
        },
        _ => {},
    }
}

proof fn lemma_references(program: Program, id: FunctionId, chunk: Chunk, from: nat)
    requires
        from <= chunk.instructions@.len(),
    ensures
        match first_reference_error(program@, id, chunk@, from) {
            Some(error) => {
                &&& error.function_id == Some(id)
                &&& error.instruction_ip matches Some(ip) && {
                    &&& from <= ip < chunk.instructions@.len()
                    &&& unresolved(chunk.instructions@[ip as int], program, error.kind)
                    &&& !resolves(chunk.instructions@[ip as int], program)
                    &&& forall|j: int|
                        from <= j < ip ==> resolves(#[trigger] chunk.instructions@[j], program)
                }
            },
            None => forall|j: int|
                from <= j < chunk.instructions@.len() ==> resolves(
                    #[trigger] chunk.instructions@[j],
                    program,
                ),
        },
    decreases chunk.instructions@.len() - from,
{
    if from < chunk.instructions@.len() {
        assert(chunk@.instructions[from as int] == chunk.instructions@[from as int]@);
        assert(chunk.instructions@.len() == chunk.instructions.len());
        lemma_reference(chunk.instructions@[from as int], program);
        lemma_references(program, id, chunk, from + 1);
    }
}

/// Whether an error says truly what is wrong with a function of a program.
pub open spec fn unsound(function: Function, program: Program, error: VerificationError) -> bool {
    if !honest(function) {
        &&& error.instruction_ip is None
        &&& error.kind matches VerificationErrorKind::FunctionMetadataMismatch { field } && {
            ||| field@ == "name"@ && match function.kind {
                FunctionKind::Bytecode(chunk) => function.name@ != chunk.name@,
                FunctionKind::Native { name } => function.name@ != name@,
            }
            ||| field@ == "arity"@ && match function.kind {
                FunctionKind::Bytecode(chunk) => function.arity != chunk.arity,
                FunctionKind::Native { .. } => false,
            }
            ||| field@ == "register_count"@ && match function.kind {
                FunctionKind::Bytecode(chunk) => function.register_count != chunk.register_count,
                FunctionKind::Native { .. } => function.register_count != function.arity,
            }
            ||| field@ == "capture_count"@ && match function.kind {
                FunctionKind::Bytecode(chunk) => function.capture_count != chunk.capture_count,
                FunctionKind::Native { .. } => function.capture_count != 0,
            }
        }
    } else {
        &&& function.kind matches FunctionKind::Bytecode(chunk) && if !sound_chunk(chunk) {
            structural_error(chunk@) matches Some(local) && error.instruction_ip
                == local.instruction_ip && error.kind == local.kind
        } else {
            error.instruction_ip matches Some(ip) && {
                &&& ip < chunk.instructions@.len()
                &&& unresolved(chunk.instructions@[ip as int], program, error.kind)
                &&& forall|j: int|
                    0 <= j < ip ==> resolves(#[trigger] chunk.instructions@[j], program)
            }
        }
    }
}

proof fn lemma_function(program: Program, i: nat)
    requires
        i < program.functions@.len() <= 65536,
    ensures
        ({
            let function = program.functions@[i as int];
            match function_error(program@, FunctionId(i as u16)) {
                Some(error) => {
                    &&& error.function_id == Some(FunctionId(i as u16))
                    &&& !sound_function(function, program)
                    &&& unsound(function, program, error)
                },
                None => sound_function(function, program),
            }
        }),
{
    let function = program.functions@[i as int];
    assert(program@.functions[i as int] == function@);
    if let FunctionKind::Bytecode(chunk) = function.kind {
        verification_accepts_sound_chunks(chunk);
        lemma_references(program, FunctionId(i as u16), chunk, 0);
    }
}

proof fn lemma_functions(program: Program, from: nat)
    requires
        from <= program.functions@.len() <= 65536,
    ensures
        match first_function_error(program@, from) {
            Some(error) => error.function_id matches Some(id) && {
                &&& from <= id.0 < program.functions@.len()
                &&& unsound(program.functions@[id.0 as int], program, error)
                &&& !sound_function(program.functions@[id.0 as int], program)
                &&& forall|j: int|
                    from <= j < id.0 ==> sound_function(#[trigger] program.functions@[j], program)
            },
            None => forall|j: int|
                from <= j < program.functions@.len() ==> sound_function(
                    #[trigger] program.functions@[j],
                    program,
                ),
        },
    decreases program.functions@.len() - from,
{
    assert(program@.functions.len() == program.functions@.len());
    if from < program.functions@.len() {
        lemma_function(program, from);
        lemma_functions(program, from + 1);
    }
}

/// Verification accepts the programs in which everything is there, and no others: the format is
/// the one of this version, the entry exists, every function is what it says it is and has a sound
/// chunk, every call gives an existing function as many arguments as it takes, and every closure
/// captures as many values as its function expects. A program that it refuses is refused for the
/// first thing that is not so.
pub proof fn verification_accepts_sound_programs(program: Program)
    ensures
        valid_program(program@) <==> sound_program(program),
        supported_format(program@) <==> program.format.magic@ == "FERRIXBC"@
            && program.format.version == 1,
        content_error(program@) matches Some(error) ==> if program.functions@.len() > 65536 {
            &&& error.function_id is None
            &&& error.instruction_ip is None
            &&& error.kind == (VerificationErrorKind::TooManyFunctions {
                function_count: program.functions@.len() as usize,
                max: 65536,
            })
        } else if program.entry.0 >= program.functions@.len() {
            &&& error.function_id == Some(program.entry)
            &&& error.instruction_ip is None
            &&& error.kind == (VerificationErrorKind::InvalidEntrypoint {
                entry: program.entry,
                function_count: program.functions@.len() as usize,
            })
        } else {
            error.function_id matches Some(id) && {
                &&& id.0 < program.functions@.len()
                &&& unsound(program.functions@[id.0 as int], program, error)
                &&& forall|j: int|
                    0 <= j < id.0 ==> sound_function(#[trigger] program.functions@[j], program)
            }
        },
{
    assert(program@.functions.len() == program.functions@.len());
    assert(program.functions@.len() == program.functions.len());
    if program.functions@.len() <= 65536 {
        lemma_functions(program, 0);
    }
}

} // verus!
