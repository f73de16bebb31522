//! Tests of the binary format, byte by byte, of its errors, and of feature flags.

use ferrix::{
    bytecode::{
        bytecode_features, decode_bytecode, decode_container, decode_program, encode_container,
        encode_program, infer_program_feature_flags, inspect_container, unsupported_feature_flags,
        BytecodeContainerMetadata, BytecodeDecodeError, BytecodeEncodeError, BytecodeFormat,
        BytecodeLimits, BytecodeSectionKind, CaptureId, Chunk, ChunkBuildError, ConstId, Function,
        FunctionId, Instruction, JumpTarget, Program, ProgramBuildError, Register, StringId,
        VerificationError, VerificationErrorKind, VerifiedProgram, FEATURE_ARRAYS,
        FEATURE_CLOSURES, FEATURE_CUSTOM_EXTENSIONS, FEATURE_DEBUG_SYMBOLS, FEATURE_EXCEPTIONS,
        FEATURE_MAPS, FEATURE_NATIVE_CALLS, FEATURE_OPTIMIZED_INT_OPS, FEATURE_RECORDS,
        SUPPORTED_BYTECODE_FEATURE_FLAGS,
    },
    diagnostics::{FileId, SourceSpan},
    ObjRef, Value,
};

fn text(bytes: &mut Vec<u8>, value: &str) {
    bytes.extend_from_slice(&(value.len() as u32).to_le_bytes());
    bytes.extend_from_slice(value.as_bytes());
}

/// The bytes of `fn main` with one constant and the instructions given.
fn program_bytes(constant: &[u8], instructions: u32, code: &[u8]) -> Vec<u8> {
    let mut bytes = b"FERRIXBC".to_vec();
    bytes.extend_from_slice(&[1, 0]);
    bytes.extend_from_slice(&[1, 0]);
    bytes.extend_from_slice(&[0, 0, 0, 0]);
    bytes.extend_from_slice(&[0, 0]);
    bytes.extend_from_slice(&[1, 0, 0, 0]);
    text(&mut bytes, "main");
    bytes.extend_from_slice(&[0, 1, 0, 0]);
    text(&mut bytes, "main");
    bytes.extend_from_slice(&[0, 1, 0]);
    bytes.extend_from_slice(&[1, 0, 0, 0]);
    bytes.extend_from_slice(constant);
    bytes.extend_from_slice(&[0, 0, 0, 0]);
    bytes.extend_from_slice(&instructions.to_le_bytes());
    bytes.extend_from_slice(code);
    bytes.extend_from_slice(&instructions.to_le_bytes());
    bytes.extend_from_slice(&vec![0; instructions as usize]);
    bytes.extend_from_slice(&[0, 0, 0, 0]);
    bytes
}

fn answer_bytes() -> Vec<u8> {
    program_bytes(
        &[2, 42, 0, 0, 0, 0, 0, 0, 0],
        2,
        &[0, 0, 0, 0, 24, 0],
    )
}

fn answer_program() -> Program {
    let mut main = Chunk::new("main", 1);
    main.add_constant(Value::Int(42)).unwrap();
    main.push_instruction(Instruction::LoadConst {
        dst: Register(0),
        constant: ConstId(0),
    });
    main.push_instruction(Instruction::Return { src: Register(0) });
    let mut program = Program::new(FunctionId(0));
    program.add_function(Function::bytecode(main)).unwrap();
    program
}

fn program_of(chunk: Chunk) -> Program {
    let mut program = Program::new(FunctionId(0));
    program.add_function(Function::bytecode(chunk)).unwrap();
    program
}

fn checksum(bytes: &[u8]) -> u64 {
    bytes.iter().fold(0xcbf29ce484222325u64, |hash, byte| {
        (hash ^ u64::from(*byte)).wrapping_mul(0x100000001b3)
    })
}

#[test]
fn programs_have_these_bytes() {
    assert_eq!(encode_program(&answer_program()).unwrap(), answer_bytes());
    assert_eq!(
        decode_program(&answer_bytes()).unwrap().as_program(),
        &answer_program()
    );
}

#[test]
fn every_value_survives_the_binary_format() {
    let mut chunk = Chunk::new("värde", 1);
    for value in [
        Value::Nil,
        Value::Bool(true),
        Value::Bool(false),
        Value::Int(i64::MIN),
        Value::Int(-1),
        Value::Float((-0.0f64).to_bits()),
        Value::Float(1.5f64.to_bits()),
        Value::Obj(ObjRef::new(7, 9)),
    ] {
        chunk.add_constant(value).unwrap();
    }
    chunk.add_string("naïve").unwrap();
    chunk.push_instruction_with_span(
        Instruction::Return { src: Register(0) },
        Some(SourceSpan::new(FileId(3), 5, 8)),
    );
    chunk.set_debug_local_name(Register(0), "x");
    let program = program_of(chunk);
    let bytes = encode_program(&program).unwrap();
    assert_eq!(decode_program(&bytes).unwrap().as_program(), &program);
}

#[test]
fn every_instruction_survives_the_binary_format() {
    let r = Register(0);
    let target = JumpTarget(0);
    let string = StringId(0);
    let mut chunk = Chunk::new("main", 4).with_capture_count(1);
    chunk.add_constant(Value::Nil).unwrap();
    chunk.add_string("field").unwrap();
    let binary: Vec<fn(Register, Register, Register) -> Instruction> = vec![
        |dst, lhs, rhs| Instruction::Add { dst, lhs, rhs },
        |dst, lhs, rhs| Instruction::AddInt { dst, lhs, rhs },
        |dst, lhs, rhs| Instruction::Sub { dst, lhs, rhs },
        |dst, lhs, rhs| Instruction::SubInt { dst, lhs, rhs },
        |dst, lhs, rhs| Instruction::Mul { dst, lhs, rhs },
        |dst, lhs, rhs| Instruction::MulInt { dst, lhs, rhs },
        |dst, lhs, rhs| Instruction::Div { dst, lhs, rhs },
        |dst, lhs, rhs| Instruction::DivInt { dst, lhs, rhs },
        |dst, lhs, rhs| Instruction::Equal { dst, lhs, rhs },
        |dst, lhs, rhs| Instruction::NotEqual { dst, lhs, rhs },
        |dst, lhs, rhs| Instruction::Less { dst, lhs, rhs },
        |dst, lhs, rhs| Instruction::LessInt { dst, lhs, rhs },
        |dst, lhs, rhs| Instruction::LessEqual { dst, lhs, rhs },
        |dst, lhs, rhs| Instruction::LessEqualInt { dst, lhs, rhs },
        |dst, lhs, rhs| Instruction::Greater { dst, lhs, rhs },
        |dst, lhs, rhs| Instruction::GreaterInt { dst, lhs, rhs },
        |dst, lhs, rhs| Instruction::GreaterEqual { dst, lhs, rhs },
        |dst, lhs, rhs| Instruction::GreaterEqualInt { dst, lhs, rhs },
        |dst, target, index| Instruction::IndexGet { dst, target, index },
        |target, index, value| Instruction::IndexSet {
            target,
            index,
            value,
        },
        |dst, array, index| Instruction::ArrayGet { dst, array, index },
        |array, index, value| Instruction::ArraySet {
            array,
            index,
            value,
        },
    ];
    for build in binary {
        chunk.push_instruction(build(Register(1), Register(2), Register(3)));
    }
    for instruction in [
        Instruction::LoadConst {
            dst: r,
            constant: ConstId(0),
        },
        Instruction::LoadString { dst: r, string },
        Instruction::Move { dst: r, src: r },
        Instruction::Jump { target },
        Instruction::JumpIfFalse {
            condition: r,
            target,
        },
        Instruction::JumpIfTrue {
            condition: r,
            target,
        },
        Instruction::Not { dst: r, src: r },
        Instruction::CallFunction {
            dst: r,
            function: FunctionId(0),
            args_start: r,
            arg_count: 0,
        },
        Instruction::MakeUpvalue { dst: r, src: r },
        Instruction::LoadUpvalue { dst: r, upvalue: r },
        Instruction::StoreUpvalue { upvalue: r, src: r },
        Instruction::MakeClosure {
            dst: r,
            function: FunctionId(0),
            captures_start: r,
            capture_count: 1,
        },
        Instruction::LoadCapture {
            dst: r,
            capture: CaptureId(0),
        },
        Instruction::LoadCaptureCell {
            dst: r,
            capture: CaptureId(0),
        },
        Instruction::StoreCapture {
            capture: CaptureId(0),
            src: r,
        },
        Instruction::CallValue {
            dst: r,
            callee: r,
            args_start: r,
            arg_count: 2,
        },
        Instruction::CallExtension {
            dst: r,
            extension: string,
            args_start: r,
            arg_count: 2,
        },
        Instruction::ArrayNew {
            dst: r,
            elements_start: r,
            element_count: 4,
        },
        Instruction::MapNew {
            dst: r,
            entries_start: r,
            entry_count: 2,
        },
        Instruction::RecordNew {
            dst: r,
            fields_start: r,
            fields: vec![string, string],
        },
        Instruction::FieldGet {
            dst: r,
            target: r,
            field: string,
        },
        Instruction::FieldSet {
            target: r,
            field: string,
            value: r,
        },
        Instruction::PushHandler { error: r, target },
        Instruction::PopHandler,
        Instruction::Throw { src: r },
        Instruction::Return { src: r },
    ] {
        chunk.push_instruction(instruction);
    }
    let program = program_of(chunk);
    let bytes = encode_program(&program).unwrap();
    assert_eq!(decode_program(&bytes).unwrap().as_program(), &program);
}

#[test]
fn faulty_bytes_are_told_apart() {
    let fails = |bytes: &[u8], error: BytecodeDecodeError, shown: &str| {
        let found = decode_program(bytes).unwrap_err();
        assert_eq!(found, error);
        assert_eq!(found.to_string(), shown);
    };
    let good = answer_bytes();
    fails(
        &good[..good.len() - 1],
        BytecodeDecodeError::UnexpectedEof,
        "unexpected end of bytecode",
    );
    fails(
        b"FERRIXCN",
        BytecodeDecodeError::InvalidMagic,
        "invalid bytecode magic",
    );
    let mut bytes = good.clone();
    bytes[8] = 9;
    fails(
        &bytes,
        BytecodeDecodeError::UnsupportedVersion { version: 9 },
        "unsupported bytecode serialization version 9",
    );
    let mut bytes = good.clone();
    bytes.push(0);
    bytes.push(0);
    fails(
        &bytes,
        BytecodeDecodeError::TrailingBytes { count: 2 },
        "bytecode has 2 trailing bytes",
    );
    let mut bytes = good.clone();
    bytes[26] = 0xff;
    fails(
        &bytes,
        BytecodeDecodeError::InvalidUtf8,
        "invalid utf-8 in bytecode",
    );
    let mut bytes = good.clone();
    bytes[33] = 2;
    fails(
        &bytes,
        BytecodeDecodeError::InvalidFunctionKind { tag: 2 },
        "invalid function kind 2",
    );
    fails(
        &program_bytes(&[5], 1, &[24, 0]),
        BytecodeDecodeError::InvalidValueTag { tag: 5 },
        "invalid value tag 5",
    );
    fails(
        &program_bytes(&[0], 1, &[48, 0]),
        BytecodeDecodeError::InvalidInstructionOpcode { opcode: 48 },
        "invalid instruction opcode 48",
    );
    fails(
        &program_bytes(&[0], 1, &[24, 1]),
        BytecodeDecodeError::InvalidBytecode(VerificationError::new(
            Some(FunctionId(0)),
            Some(0),
            VerificationErrorKind::InvalidRegister {
                register: Register(1),
                register_count: 1,
            },
        )),
        "invalid register r1; chunk has 1 registers in fn#0 at instruction 0",
    );
    assert_eq!(
        BytecodeDecodeError::LengthTooLarge { field: "string" }.to_string(),
        "`string` is too large to decode"
    );
    assert_eq!(
        BytecodeEncodeError::LengthTooLarge { field: "string" }.to_string(),
        "`string` is too large to encode"
    );
}

#[test]
fn nonzero_flags_stand_for_true() {
    let mut bytes = program_bytes(&[1, 7], 1, &[24, 0]);
    let chunk = decode_program(&bytes).unwrap();
    let constants = &chunk.as_program().functions[0].chunk().unwrap().constants;
    assert_eq!(constants, &vec![Value::Bool(true)]);
    bytes[10] = 2;
    assert_eq!(
        decode_program(&bytes).unwrap_err().to_string(),
        "unsupported bytecode format FERRIXBC version 2"
    );
}

#[test]
fn containers_hold_a_program_and_its_metadata() {
    let program = answer_program();
    let payload = encode_program(&program).unwrap();
    let metadata = BytecodeContainerMetadata::for_program(&program)
        .with_required_capability("io.output")
        .with_required_capability("native.call")
        .with_module_name("demo");
    let bytes = encode_container(&program, Some(metadata)).unwrap();
    assert!(bytes.starts_with(b"FERRIXCN"));
    assert!(bytes.ends_with(&payload));
    let container = decode_container(&bytes).unwrap();
    assert_eq!(container.program.as_program(), &program);
    assert_eq!(container.sections.len(), 1);
    assert_eq!(
        container.sections[0].kind,
        BytecodeSectionKind::ProgramPayload
    );
    assert_eq!(container.sections[0].offset, bytes.len() - payload.len());
    assert_eq!(container.sections[0].len, payload.len());
    let metadata = inspect_container(&bytes).unwrap();
    assert_eq!(metadata, container.metadata);
    assert_eq!(metadata.bytecode_format_version, 1);
    assert_eq!(metadata.required_capabilities, ["io.output", "native.call"]);
    assert_eq!(metadata.module_name, Some("demo".to_string()));
    assert_eq!(metadata.entry, FunctionId(0));
    assert_eq!(metadata.checksum, checksum(&payload));
    assert!(!metadata.debug_section_present);
}

#[test]
fn programs_and_containers_are_told_apart() {
    let program = answer_program();
    let plain = encode_program(&program).unwrap();
    let container = encode_container(&program, None).unwrap();
    for bytes in [&plain, &container] {
        assert_eq!(decode_bytecode(bytes).unwrap().as_program(), &program);
    }
    assert_eq!(
        decode_program(&container).unwrap_err(),
        BytecodeDecodeError::InvalidMagic
    );
    assert_eq!(
        decode_container(&plain).unwrap_err(),
        BytecodeDecodeError::InvalidMagic
    );
}

#[test]
fn faulty_containers_are_told_apart() {
    let program = answer_program();
    let payload = encode_program(&program).unwrap();
    let good = encode_container(&program, None).unwrap();
    let start = good.len() - payload.len();
    let fails = |bytes: &[u8], error: BytecodeDecodeError, shown: &str| {
        let found = decode_container(bytes).unwrap_err();
        assert_eq!(found, error);
        assert_eq!(found.to_string(), shown);
    };
    let mut bytes = good.clone();
    bytes[8] = 7;
    fails(
        &bytes,
        BytecodeDecodeError::UnsupportedContainerVersion { version: 7 },
        "unsupported bytecode container version 7",
    );
    let mut bytes = good.clone();
    bytes[start - 5] = 99;
    fails(
        &bytes,
        BytecodeDecodeError::InvalidSectionKind { tag: 99 },
        "invalid bytecode section kind 99",
    );
    let mut bytes = good[..start - 9].to_vec();
    bytes.extend_from_slice(&[0, 0, 0, 0]);
    fails(
        &bytes,
        BytecodeDecodeError::MissingProgramSection,
        "bytecode container has no program section",
    );
    let mut bytes = good.clone();
    let last = bytes.len() - 1;
    bytes[last] = 1;
    let mut changed = payload.clone();
    let end = changed.len() - 1;
    changed[end] = 1;
    let (expected, actual) = (checksum(&payload), checksum(&changed));
    fails(
        &bytes,
        BytecodeDecodeError::ChecksumMismatch { expected, actual },
        &format!("bytecode container checksum mismatch: expected {expected}, got {actual}"),
    );
    let mut bytes = good.clone();
    bytes.push(0);
    fails(
        &bytes,
        BytecodeDecodeError::TrailingBytes { count: 1 },
        "bytecode has 1 trailing bytes",
    );
    assert_eq!(
        decode_container(&good[..12]).unwrap_err(),
        BytecodeDecodeError::UnexpectedEof
    );
}

#[test]
fn feature_flags_tell_what_a_program_uses() {
    assert_eq!(infer_program_feature_flags(&answer_program()), 0);
    let r = Register(0);
    let mut chunk = Chunk::new("main", 2).with_capture_count(1);
    chunk.add_string("s").unwrap();
    for instruction in [
        Instruction::ArrayNew {
            dst: r,
            elements_start: r,
            element_count: 0,
        },
        Instruction::MapNew {
            dst: r,
            entries_start: r,
            entry_count: 0,
        },
        Instruction::FieldGet {
            dst: r,
            target: r,
            field: StringId(0),
        },
        Instruction::LoadCapture {
            dst: r,
            capture: CaptureId(0),
        },
        Instruction::Throw { src: r },
        Instruction::AddInt {
            dst: r,
            lhs: r,
            rhs: r,
        },
        Instruction::CallExtension {
            dst: r,
            extension: StringId(0),
            args_start: r,
            arg_count: 0,
        },
        Instruction::Return { src: r },
    ] {
        chunk.push_instruction(instruction);
    }
    chunk.set_debug_local_name(r, "x");
    let mut program = program_of(chunk);
    program.add_function(Function::native("print", 1)).unwrap();
    let flags = infer_program_feature_flags(&program);
    assert_eq!(
        flags,
        FEATURE_ARRAYS
            | FEATURE_MAPS
            | FEATURE_RECORDS
            | FEATURE_CLOSURES
            | FEATURE_EXCEPTIONS
            | FEATURE_OPTIMIZED_INT_OPS
            | FEATURE_CUSTOM_EXTENSIONS
            | FEATURE_DEBUG_SYMBOLS
            | FEATURE_NATIVE_CALLS
    );
    assert_eq!(unsupported_feature_flags(flags), 0);
    assert_eq!(
        unsupported_feature_flags(0x8000_0001),
        0x8000_0001 & !SUPPORTED_BYTECODE_FEATURE_FLAGS
    );
    let names = bytecode_features(FEATURE_ARRAYS | FEATURE_NATIVE_CALLS)
        .into_iter()
        .map(|feature| feature.as_str())
        .collect::<Vec<_>>();
    assert_eq!(names, ["arrays", "native-calls"]);
}

#[test]
fn pools_have_limits() {
    let limits = BytecodeLimits::current();
    assert_eq!(limits.max_constants, 65536);
    assert_eq!(limits.max_registers_per_function, 256);
    assert_eq!(limits.max_instructions_per_function, 4294967296);
    let mut chunk = Chunk::new("main", 1);
    for i in 0..65536 {
        assert_eq!(
            chunk.add_constant(Value::Int(i)),
            Ok(ConstId(i as u16))
        );
    }
    assert_eq!(
        chunk.add_constant(Value::Int(-1)),
        Err(ChunkBuildError::TooManyConstants { max: 65536 })
    );
    let mut chunk = Chunk::new("main", 1);
    for i in 0..65536u32 {
        assert_eq!(chunk.add_string("s"), Ok(StringId(i as u16)));
    }
    assert_eq!(
        chunk.add_string("s"),
        Err(ChunkBuildError::TooManyStrings { max: 65536 })
    );
    chunk.strings.push("s".to_string());
    chunk.push_instruction(Instruction::Return { src: Register(0) });
    let error = VerifiedProgram::new(program_of(chunk)).unwrap_err();
    assert_eq!(
        error.kind,
        VerificationErrorKind::TooManyStrings {
            string_count: 65537,
            max: 65536
        }
    );
    let mut chunk = Chunk::new("main", 1);
    chunk.constants = vec![Value::Nil; 65537];
    chunk.push_instruction(Instruction::Return { src: Register(0) });
    let error = VerifiedProgram::new(program_of(chunk)).unwrap_err();
    assert_eq!(
        error.kind,
        VerificationErrorKind::TooManyConstants {
            constant_count: 65537,
            max: 65536
        }
    );
    let mut program = Program::new(FunctionId(0));
    for i in 0..65536u32 {
        assert_eq!(
            program.add_function(Function::native("n", 0)),
            Ok(FunctionId(i as u16))
        );
    }
    assert_eq!(
        program.add_function(Function::native("n", 0)),
        Err(ProgramBuildError::TooManyFunctions { max: 65536 })
    );
    program.functions.push(Function::native("n", 0));
    let error = VerifiedProgram::new(program).unwrap_err();
    assert_eq!(
        error.kind,
        VerificationErrorKind::TooManyFunctions {
            function_count: 65537,
            max: 65536
        }
    );
}

#[test]
fn record_fields_need_registers() {
    let mut chunk = Chunk::new("main", 2);
    chunk.add_string("a").unwrap();
    chunk.push_instruction(Instruction::RecordNew {
        dst: Register(0),
        fields_start: Register(1),
        fields: vec![StringId(0), StringId(0)],
    });
    chunk.push_instruction(Instruction::Return { src: Register(0) });
    let error = VerifiedProgram::new(program_of(chunk)).unwrap_err();
    assert_eq!(
        error.kind,
        VerificationErrorKind::RecordFieldsOutOfRange {
            fields_start: Register(1),
            field_count: 2,
            register_count: 2
        }
    );
    assert_eq!(
        error.to_string(),
        "record fields starting at r1 with count 2 exceed 2 registers in fn#0 at instruction 0"
    );
}

#[test]
fn formats_are_told() {
    let format = BytecodeFormat::default();
    assert_eq!(format, BytecodeFormat::current());
    assert_eq!(format.magic, "FERRIXBC");
    assert_eq!(format.version, 1);
    assert_eq!(format.feature_flags, 0);
}

#[test]
fn instructions_name_their_operands() {
    let call = Instruction::CallFunction {
        dst: Register(1),
        function: FunctionId(4),
        args_start: Register(2),
        arg_count: 2,
    };
    assert_eq!(call.function_operand(), Some(FunctionId(4)));
    assert_eq!(call.const_operand(), None);
    assert_eq!(call.jump_operand(), None);
    let record = Instruction::RecordNew {
        dst: Register(0),
        fields_start: Register(1),
        fields: vec![StringId(5), StringId(6)],
    };
    assert_eq!(record.string_operands(), [StringId(5), StringId(6)]);
    let handler = Instruction::PushHandler {
        error: Register(3),
        target: JumpTarget(9),
    };
    assert_eq!(handler.jump_operand(), Some(JumpTarget(9)));
    assert_eq!(handler.register_operands(), [Register(3)]);
    let capture = Instruction::StoreCapture {
        capture: CaptureId(1),
        src: Register(0),
    };
    assert_eq!(capture.capture_operand(), Some(CaptureId(1)));
}
