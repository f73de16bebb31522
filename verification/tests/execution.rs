//! Tests that execute assembled and compiled programs on a small interpreter.

use ferrix::{
    assembler::{Assembler, AssemblerError},
    bytecode::{
        optimize_chunk, Chunk, ChunkBuildError, ConstId, FunctionId, FunctionKind, Instruction,
        JumpTarget, Program, Register, VerificationErrorKind, VerifiedChunk, VerifiedProgram,
    },
    compiler::{
        compile_program_ast_with_modules, compile_program_ast_with_named_modules, compile_source,
        compile_source_with_file_id, parse_source_with_file_id, CompileError, CompileErrorKind,
        ImportedModuleAst,
    },
    diagnostics::{Diagnostic, FileId, SourceManager},
    Obj, ObjRef, Value,
};

/// What went wrong while a program ran.
#[derive(Clone, Debug, PartialEq, Eq)]
enum VmErrorKind {
    DivisionByZero,
    TypeMismatch,
    OutOfBounds,
    UnknownNative,
}

/// An error with the instruction that it happened at.
#[derive(Clone, Debug, PartialEq, Eq)]
struct VmError {
    kind: VmErrorKind,
    instruction_ip: Option<usize>,
}

impl VmError {
    fn to_diagnostic_with_chunk(&self, chunk: &Chunk) -> Diagnostic {
        let ip = self.instruction_ip.unwrap();
        let message = match self.kind {
            VmErrorKind::DivisionByZero => "division by zero",
            VmErrorKind::TypeMismatch => "type mismatch",
            VmErrorKind::OutOfBounds => "index out of bounds",
            VmErrorKind::UnknownNative => "unknown native function",
        };
        Diagnostic::new(
            &format!("{message} at instruction {ip}"),
            chunk.source_map[ip],
        )
    }
}

/// A cell, or a heap object of the library.
#[derive(Clone, Debug)]
enum Slot {
    Cell(Value),
    Object(Obj),
}

/// An interpreter for verified programs.
struct Vm {
    heap: Vec<Slot>,
    output: String,
}

impl Vm {
    fn new() -> Self {
        Vm {
            heap: Vec::new(),
            output: String::new(),
        }
    }

    fn allocate(&mut self, slot: Slot) -> Value {
        self.heap.push(slot);
        Value::Obj(ObjRef::new(self.heap.len() as u32 - 1, 0))
    }

    fn heap_object(&self, reference: ObjRef) -> Option<&Obj> {
        match self.heap.get(reference.index as usize) {
            Some(Slot::Object(object)) => Some(object),
            _ => None,
        }
    }

    fn run(&mut self, chunk: &VerifiedChunk) -> Result<Value, VmError> {
        let program = Program::new(FunctionId(0));
        self.execute(&program, chunk.as_chunk(), &[], &[])
    }

    fn run_program(&mut self, program: &VerifiedProgram) -> Result<Value, VmError> {
        let program = program.as_program();
        self.call(program, program.entry, &[], &[])
            .map_err(|error| error)
    }

    fn call(
        &mut self,
        program: &Program,
        function: FunctionId,
        args: &[Value],
        captures: &[Value],
    ) -> Result<Value, VmError> {
        match &program.functions[function.0 as usize].kind {
            FunctionKind::Bytecode(chunk) => self.execute(program, chunk, args, captures),
            FunctionKind::Native { name } => self.native(name, args),
        }
    }

    fn native(&mut self, name: &str, args: &[Value]) -> Result<Value, VmError> {
        let failed = |kind| VmError {
            kind,
            instruction_ip: None,
        };
        match name {
            "len" => match args[0].as_obj_ref().and_then(|r| self.heap_object(r)) {
                Some(Obj::Array(values)) => Ok(Value::Int(values.len() as i64)),
                Some(Obj::MapEntries(entries)) => Ok(Value::Int(entries.len() as i64)),
                Some(Obj::String(text)) => Ok(Value::Int(text.len() as i64)),
                _ => Err(failed(VmErrorKind::TypeMismatch)),
            },
            "print" => {
                let line = match args[0] {
                    Value::Int(n) => format!("{n}"),
                    Value::Bool(b) => format!("{b}"),
                    Value::Nil => "nil".to_string(),
                    other => match other.as_obj_ref().and_then(|r| self.heap_object(r)) {
                        Some(Obj::String(text)) => text.clone(),
                        _ => "<object>".to_string(),
                    },
                };
                self.output.push_str(&line);
                self.output.push('\n');
                Ok(Value::Nil)
            }
            "type_of" => {
                let name = match args[0] {
                    Value::Nil => "nil",
                    Value::Bool(_) => "bool",
                    Value::Int(_) => "int",
                    Value::Float(_) => "float",
                    Value::Obj(_) => "object",
                };
                Ok(self.allocate(Slot::Object(Obj::String(name.to_string()))))
            }
            _ => Err(failed(VmErrorKind::UnknownNative)),
        }
    }

    fn same(&self, a: Value, b: Value) -> bool {
        match (a, b) {
            (Value::Obj(x), Value::Obj(y)) => match (self.heap_object(x), self.heap_object(y)) {
                (Some(Obj::String(s)), Some(Obj::String(t))) => s == t,
                _ => x == y,
            },
            _ => a == b,
        }
    }

    fn index_get(&self, target: Value, index: Value) -> Result<Value, VmErrorKind> {
        match target.as_obj_ref().and_then(|r| self.heap_object(r)) {
            Some(Obj::Array(values)) => match index {
                Value::Int(i) if i >= 0 && (i as usize) < values.len() => Ok(values[i as usize]),
                Value::Int(_) => Err(VmErrorKind::OutOfBounds),
                _ => Err(VmErrorKind::TypeMismatch),
            },
            Some(Obj::MapEntries(entries)) => entries
                .iter()
                .find(|(key, _)| self.same(*key, index))
                .map(|(_, value)| *value)
                .ok_or(VmErrorKind::OutOfBounds),
            _ => Err(VmErrorKind::TypeMismatch),
        }
    }

    fn index_set(&mut self, target: Value, index: Value, value: Value) -> Result<(), VmErrorKind> {
        let Some(reference) = target.as_obj_ref() else {
            return Err(VmErrorKind::TypeMismatch);
        };
        let found = match self.heap_object(reference) {
            Some(Obj::MapEntries(entries)) => entries
                .iter()
                .position(|(key, _)| self.same(*key, index)),
            _ => None,
        };
        match &mut self.heap[reference.index as usize] {
            Slot::Object(Obj::Array(values)) => match index {
                Value::Int(i) if i >= 0 && (i as usize) < values.len() => {
                    values[i as usize] = value;
                    Ok(())
                }
                _ => Err(VmErrorKind::OutOfBounds),
            },
            Slot::Object(Obj::MapEntries(entries)) => {
                match found {
                    Some(i) => entries[i].1 = value,
                    None => entries.push((index, value)),
                }
                Ok(())
            }
            _ => Err(VmErrorKind::TypeMismatch),
        }
    }

    fn execute(
        &mut self,
        program: &Program,
        chunk: &Chunk,
        args: &[Value],
        captures: &[Value],
    ) -> Result<Value, VmError> {
        let mut registers = vec![Value::Nil; chunk.register_count as usize];
        registers[..args.len()].copy_from_slice(args);
        let mut ip = 0;
        loop {
            let at = ip;
            let failed = |kind| VmError {
                kind,
                instruction_ip: Some(at),
            };
            let place = |error: VmError| VmError {
                instruction_ip: error.instruction_ip.or(Some(at)),
                ..error
            };
            let number = |value: Value| match value {
                Value::Int(n) => Ok(n),
                _ => Err(failed(VmErrorKind::TypeMismatch)),
            };
            let slice = |start: Register, count: u8| -> std::ops::Range<usize> {
                start.0 as usize..start.0 as usize + count as usize
            };
            ip += 1;
            let arithmetic: Option<(Register, Value)> = match &chunk.instructions[at] {
                Instruction::Add { dst, lhs, rhs } | Instruction::AddInt { dst, lhs, rhs } => {
                    let (a, b) = (registers[lhs.0 as usize], registers[rhs.0 as usize]);
                    Some((*dst, Value::Int(number(a)?.wrapping_add(number(b)?))))
                }
                Instruction::Sub { dst, lhs, rhs } | Instruction::SubInt { dst, lhs, rhs } => {
                    let (a, b) = (registers[lhs.0 as usize], registers[rhs.0 as usize]);
                    Some((*dst, Value::Int(number(a)?.wrapping_sub(number(b)?))))
                }
                Instruction::Mul { dst, lhs, rhs } | Instruction::MulInt { dst, lhs, rhs } => {
                    let (a, b) = (registers[lhs.0 as usize], registers[rhs.0 as usize]);
                    Some((*dst, Value::Int(number(a)?.wrapping_mul(number(b)?))))
                }
                Instruction::Div { dst, lhs, rhs } | Instruction::DivInt { dst, lhs, rhs } => {
                    let (a, b) = (registers[lhs.0 as usize], registers[rhs.0 as usize]);
                    let (a, b) = (number(a)?, number(b)?);
                    if b == 0 {
                        return Err(failed(VmErrorKind::DivisionByZero));
                    }
                    Some((*dst, Value::Int(a.wrapping_div(b))))
                }
                Instruction::Less { dst, lhs, rhs } | Instruction::LessInt { dst, lhs, rhs } => {
                    let (a, b) = (registers[lhs.0 as usize], registers[rhs.0 as usize]);
                    Some((*dst, Value::Bool(number(a)? < number(b)?)))
                }
                Instruction::LessEqual { dst, lhs, rhs }
                | Instruction::LessEqualInt { dst, lhs, rhs } => {
                    let (a, b) = (registers[lhs.0 as usize], registers[rhs.0 as usize]);
                    Some((*dst, Value::Bool(number(a)? <= number(b)?)))
                }
                Instruction::Greater { dst, lhs, rhs }
                | Instruction::GreaterInt { dst, lhs, rhs } => {
                    let (a, b) = (registers[lhs.0 as usize], registers[rhs.0 as usize]);
                    Some((*dst, Value::Bool(number(a)? > number(b)?)))
                }
                Instruction::GreaterEqual { dst, lhs, rhs }
                | Instruction::GreaterEqualInt { dst, lhs, rhs } => {
                    let (a, b) = (registers[lhs.0 as usize], registers[rhs.0 as usize]);
                    Some((*dst, Value::Bool(number(a)? >= number(b)?)))
                }
                Instruction::Equal { dst, lhs, rhs } => {
                    let same = self.same(registers[lhs.0 as usize], registers[rhs.0 as usize]);
                    Some((*dst, Value::Bool(same)))
                }
                Instruction::NotEqual { dst, lhs, rhs } => {
                    let same = self.same(registers[lhs.0 as usize], registers[rhs.0 as usize]);
                    Some((*dst, Value::Bool(!same)))
                }
                Instruction::Not { dst, src } => match registers[src.0 as usize] {
                    Value::Bool(b) => Some((*dst, Value::Bool(!b))),
                    _ => return Err(failed(VmErrorKind::TypeMismatch)),
                },
                _ => None,
            };
            if let Some((dst, value)) = arithmetic {
                registers[dst.0 as usize] = value;
                continue;
            }
            match &chunk.instructions[at] {
                Instruction::LoadConst { dst, constant } => {
                    registers[dst.0 as usize] = chunk.constants[constant.0 as usize];
                }
                Instruction::LoadString { dst, string } => {
                    let text = chunk.strings[string.0 as usize].clone();
                    registers[dst.0 as usize] = self.allocate(Slot::Object(Obj::String(text)));
                }
                Instruction::Move { dst, src } => {
                    registers[dst.0 as usize] = registers[src.0 as usize];
                }
                Instruction::Jump { target } => ip = target.0 as usize,
                Instruction::JumpIfFalse { condition, target } => {
                    match registers[condition.0 as usize] {
                        Value::Bool(false) => ip = target.0 as usize,
                        Value::Bool(true) => {}
                        _ => return Err(failed(VmErrorKind::TypeMismatch)),
                    }
                }
                Instruction::JumpIfTrue { condition, target } => {
                    match registers[condition.0 as usize] {
                        Value::Bool(true) => ip = target.0 as usize,
                        Value::Bool(false) => {}
                        _ => return Err(failed(VmErrorKind::TypeMismatch)),
                    }
                }
                Instruction::CallFunction {
                    dst,
                    function,
                    args_start,
                    arg_count,
                } => {
                    let args = registers[slice(*args_start, *arg_count)].to_vec();
                    let value = self.call(program, *function, &args, &[]).map_err(place)?;
                    registers[dst.0 as usize] = value;
                }
                Instruction::MakeUpvalue { dst, src } => {
                    let value = registers[src.0 as usize];
                    registers[dst.0 as usize] = self.allocate(Slot::Cell(value));
                }
                Instruction::LoadUpvalue { dst, upvalue } => {
                    registers[dst.0 as usize] = self
                        .cell(registers[upvalue.0 as usize])
                        .ok_or_else(|| failed(VmErrorKind::TypeMismatch))?;
                }
                Instruction::StoreUpvalue { upvalue, src } => {
                    let value = registers[src.0 as usize];
                    if !self.set_cell(registers[upvalue.0 as usize], value) {
                        return Err(failed(VmErrorKind::TypeMismatch));
                    }
                }
                Instruction::MakeClosure {
                    dst,
                    function,
                    captures_start,
                    capture_count,
                } => {
                    let captures = registers[slice(*captures_start, *capture_count)].to_vec();
                    registers[dst.0 as usize] = self.allocate(Slot::Object(Obj::Closure {
                        function: *function,
                        captures,
                    }));
                }
                Instruction::LoadCapture { dst, capture } => {
                    let captured = captures[capture.0 as usize];
                    registers[dst.0 as usize] = self.cell(captured).unwrap_or(captured);
                }
                Instruction::LoadCaptureCell { dst, capture } => {
                    registers[dst.0 as usize] = captures[capture.0 as usize];
                }
                Instruction::StoreCapture { capture, src } => {
                    let value = registers[src.0 as usize];
                    if !self.set_cell(captures[capture.0 as usize], value) {
                        return Err(failed(VmErrorKind::TypeMismatch));
                    }
                }
                Instruction::CallValue {
                    dst,
                    callee,
                    args_start,
                    arg_count,
                } => {
                    let object = registers[callee.0 as usize]
                        .as_obj_ref()
                        .and_then(|reference| self.heap_object(reference))
                        .cloned();
                    let Some(Obj::Closure { function, captures }) = object else {
                        return Err(failed(VmErrorKind::TypeMismatch));
                    };
                    let args = registers[slice(*args_start, *arg_count)].to_vec();
                    let value = self
                        .call(program, function, &args, &captures)
                        .map_err(place)?;
                    registers[dst.0 as usize] = value;
                }
                Instruction::ArrayNew {
                    dst,
                    elements_start,
                    element_count,
                } => {
                    let values = registers[slice(*elements_start, *element_count)].to_vec();
                    registers[dst.0 as usize] = self.allocate(Slot::Object(Obj::Array(values)));
                }
                Instruction::MapNew {
                    dst,
                    entries_start,
                    entry_count,
                } => {
                    let entries = (0..*entry_count as usize)
                        .map(|i| {
                            let at = entries_start.0 as usize + 2 * i;
                            (registers[at], registers[at + 1])
                        })
                        .collect();
                    registers[dst.0 as usize] =
                        self.allocate(Slot::Object(Obj::MapEntries(entries)));
                }
                Instruction::RecordNew {
                    dst,
                    fields_start,
                    fields,
                } => {
                    let entries = fields
                        .iter()
                        .enumerate()
                        .map(|(i, field)| {
                            (
                                Value::Int(field.0 as i64),
                                registers[fields_start.0 as usize + i],
                            )
                        })
                        .collect();
                    registers[dst.0 as usize] =
                        self.allocate(Slot::Object(Obj::MapEntries(entries)));
                }
                Instruction::FieldGet { dst, target, field } => {
                    registers[dst.0 as usize] = self
                        .index_get(registers[target.0 as usize], Value::Int(field.0 as i64))
                        .map_err(failed)?;
                }
                Instruction::FieldSet {
                    target,
                    field,
                    value,
                } => {
                    let (target, value) =
                        (registers[target.0 as usize], registers[value.0 as usize]);
                    self.index_set(target, Value::Int(field.0 as i64), value)
                        .map_err(failed)?;
                }
                Instruction::IndexGet { dst, target, index }
                | Instruction::ArrayGet {
                    dst,
                    array: target,
                    index,
                } => {
                    registers[dst.0 as usize] = self
                        .index_get(registers[target.0 as usize], registers[index.0 as usize])
                        .map_err(failed)?;
                }
                Instruction::IndexSet {
                    target,
                    index,
                    value,
                }
                | Instruction::ArraySet {
                    array: target,
                    index,
                    value,
                } => {
                    let (target, index, value) = (
                        registers[target.0 as usize],
                        registers[index.0 as usize],
                        registers[value.0 as usize],
                    );
                    self.index_set(target, index, value).map_err(failed)?;
                }
                Instruction::Return { src } => return Ok(registers[src.0 as usize]),
                other => panic!("instruction {other:?} is not executed here"),
            }
        }
    }

    fn cell(&self, value: Value) -> Option<Value> {
        match self.heap.get(value.as_obj_ref()?.index as usize) {
            Some(Slot::Cell(content)) => Some(*content),
            _ => None,
        }
    }

    fn set_cell(&mut self, cell: Value, value: Value) -> bool {
        let Some(reference) = cell.as_obj_ref() else {
            return false;
        };
        match self.heap.get_mut(reference.index as usize) {
            Some(Slot::Cell(content)) => {
                *content = value;
                true
            }
            _ => false,
        }
    }
}

#[test]
fn builder_generates_verified_chunk() {
    let chunk = Assembler::new("main")
        .registers(3)
        .integer(10)
        .integer(32)
        .load_const(0, 0)
        .load_const(1, 1)
        .add(2, 0, 1)
        .ret(2)
        .finish()
        .unwrap();

    let chunk = chunk.as_chunk();

    assert_eq!(chunk.name, "main");
    assert_eq!(chunk.register_count, 3);
    assert_eq!(chunk.constants, vec![Value::Int(10), Value::Int(32)]);
    assert_eq!(
        chunk.instructions,
        vec![
            Instruction::LoadConst {
                dst: Register(0),
                constant: ConstId(0),
            },
            Instruction::LoadConst {
                dst: Register(1),
                constant: ConstId(1),
            },
            Instruction::Add {
                dst: Register(2),
                lhs: Register(0),
                rhs: Register(1),
            },
            Instruction::Return { src: Register(2) },
        ]
    );
}

#[test]
fn assembled_chunk_runs_on_vm() {
    let chunk = Assembler::new("main")
        .registers(3)
        .integer(10)
        .integer(32)
        .load_const(0, 0)
        .load_const(1, 1)
        .add(2, 0, 1)
        .ret(2)
        .finish()
        .unwrap();

    let result = Vm::new().run(&chunk).unwrap();

    assert_eq!(result, Value::Int(42));
}

#[test]
fn builder_supports_move_and_arithmetic_opcodes() {
    let chunk = Assembler::new("math")
        .registers(5)
        .integer(8)
        .integer(2)
        .load_const(0, 0)
        .load_const(1, 1)
        .mov(2, 0)
        .sub(3, 2, 1)
        .mul(3, 3, 1)
        .div(4, 3, 1)
        .ret(4)
        .finish()
        .unwrap();

    assert_eq!(chunk.as_chunk().instructions.len(), 7);
}

#[test]
fn builder_supports_bool_and_nil_constants() {
    let chunk = Assembler::new("constants")
        .registers(2)
        .bool(true)
        .nil()
        .load_const(0, 0)
        .load_const(1, 1)
        .ret(1)
        .finish()
        .unwrap();

    assert_eq!(
        chunk.as_chunk().constants,
        vec![Value::Bool(true), Value::Nil]
    );
}

#[test]
fn builder_supports_string_pool_and_load_string() {
    let chunk = Assembler::new("strings")
        .registers(1)
        .string("hello")
        .load_string(0, 0)
        .ret(0)
        .finish()
        .unwrap();

    assert_eq!(chunk.as_chunk().strings, vec!["hello".to_string()]);
    assert!(matches!(
        chunk.as_chunk().instructions[0],
        Instruction::LoadString { .. }
    ));
}

#[test]
fn builder_supports_record_and_field_opcodes() {
    let chunk = Assembler::new("records")
        .registers(4)
        .string("answer")
        .integer(42)
        .load_const(0, 0)
        .record_new(1, 0, vec![0])
        .field_get(2, 1, 0)
        .field_set(1, 0, 2)
        .ret(2)
        .finish()
        .unwrap();

    assert!(matches!(
        chunk.as_chunk().instructions[1],
        Instruction::RecordNew { .. }
    ));

    let result = Vm::new().run(&chunk).unwrap();

    assert_eq!(result, Value::Int(42));
}

#[test]
fn label_patching_builds_if_else_program() {
    let chunk = Assembler::new("if_else")
        .registers(2)
        .bool(false)
        .integer(10)
        .integer(20)
        .load_const(0, 0)
        .jump_if_false(0, "else")
        .load_const(1, 1)
        .jump("end")
        .label("else")
        .load_const(1, 2)
        .label("end")
        .ret(1)
        .finish()
        .unwrap();

    assert_eq!(
        chunk.as_chunk().instructions[1],
        Instruction::JumpIfFalse {
            condition: Register(0),
            target: JumpTarget(4),
        }
    );
    assert_eq!(
        chunk.as_chunk().instructions[3],
        Instruction::Jump {
            target: JumpTarget(5),
        }
    );

    let result = Vm::new().run(&chunk).unwrap();

    assert_eq!(result, Value::Int(20));
}

#[test]
fn label_patching_builds_counter_loop() {
    let chunk = Assembler::new("loop")
        .registers(6)
        .integer(0)
        .integer(1)
        .integer(5)
        .load_const(0, 0)
        .load_const(1, 0)
        .load_const(2, 1)
        .load_const(3, 2)
        .label("loop")
        .less(4, 0, 3)
        .jump_if_false(4, "end")
        .add(1, 1, 0)
        .add(0, 0, 2)
        .jump("loop")
        .label("end")
        .ret(1)
        .finish()
        .unwrap();

    let result = Vm::new().run(&chunk).unwrap();

    assert_eq!(result, Value::Int(10));
}

#[test]
fn builder_supports_absolute_jump_targets() {
    let chunk = Assembler::new("absolute")
        .registers(1)
        .bool(true)
        .load_const(0, 0)
        .jump_if_true_to(0, 3)
        .jump_to(0)
        .ret(0)
        .finish()
        .unwrap();

    let result = Vm::new().run(&chunk).unwrap();

    assert_eq!(result, Value::Bool(true));
}

#[test]
fn builder_supports_direct_function_call_instruction() {
    let chunk = Assembler::new("caller")
        .registers(2)
        .call_function(1, 7, 0, 1)
        .ret(1)
        .finish_unverified()
        .unwrap();

    assert_eq!(
        chunk.instructions[0],
        Instruction::CallFunction {
            dst: Register(1),
            function: FunctionId(7),
            args_start: Register(0),
            arg_count: 1,
        }
    );
}

#[test]
fn builder_supports_array_instructions() {
    let chunk = Assembler::new("arrays")
        .registers(5)
        .integer(0)
        .integer(1)
        .integer(42)
        .load_const(0, 0)
        .load_const(1, 1)
        .array_new(2, 1, 1)
        .load_const(3, 2)
        .array_set(2, 0, 3)
        .array_get(4, 2, 0)
        .ret(4)
        .finish()
        .unwrap();

    let result = Vm::new().run(&chunk).unwrap();

    assert_eq!(result, Value::Int(42));
}

#[test]
fn builder_supports_map_and_index_instructions() {
    let chunk = Assembler::new("maps")
        .registers(5)
        .integer(7)
        .integer(1)
        .integer(42)
        .load_const(0, 0)
        .load_const(1, 1)
        .map_new(2, 0, 1)
        .load_const(3, 2)
        .index_set(2, 0, 3)
        .index_get(4, 2, 0)
        .ret(4)
        .finish()
        .unwrap();

    let result = Vm::new().run(&chunk).unwrap();

    assert_eq!(result, Value::Int(42));
}

#[test]
fn undefined_labels_are_errors() {
    let err = Assembler::new("bad")
        .registers(1)
        .jump("missing")
        .ret(0)
        .finish()
        .unwrap_err();

    assert_eq!(
        err,
        AssemblerError::UndefinedLabel {
            label: "missing".to_string(),
        }
    );
}

#[test]
fn duplicate_labels_are_errors() {
    let err = Assembler::new("bad")
        .registers(1)
        .label("same")
        .label("same")
        .ret(0)
        .finish()
        .unwrap_err();

    assert_eq!(
        err,
        AssemblerError::DuplicateLabel {
            label: "same".to_string(),
        }
    );
}

#[test]
fn finish_returns_verifier_errors() {
    let err = Assembler::new("bad")
        .registers(1)
        .integer(1)
        .load_const(1, 0)
        .ret(0)
        .finish()
        .unwrap_err();

    assert!(matches!(
        err,
        AssemblerError::Verification(ferrix::bytecode::VerificationError {
            instruction_ip: Some(0),
            kind: VerificationErrorKind::InvalidRegister {
                register: Register(1),
                register_count: 1,
            },
            ..
        })
    ));
}

#[test]
fn finish_unverified_keeps_raw_chunk_available_for_debugging() {
    let chunk = Assembler::new("raw")
        .registers(1)
        .load_const(0, 0)
        .finish_unverified()
        .unwrap();

    assert_eq!(chunk.instructions.len(), 1);
}

#[test]
fn compiles_and_runs_let_return_arithmetic() {
    let program = compile_source(
        "\
let x = 10;
let y = 32;
return x + y;
",
    )
    .unwrap();

    let result = Vm::new().run_program(&program).unwrap();

    assert_eq!(result, Value::Int(42));
}

#[test]
fn respects_expression_precedence() {
    let program = compile_source("return 1 + 2 * 3;").unwrap();

    let result = Vm::new().run_program(&program).unwrap();

    assert_eq!(result, Value::Int(7));
}

#[test]
fn compiles_comparisons() {
    let program = compile_source("return (1 + 1) == 2;").unwrap();

    let result = Vm::new().run_program(&program).unwrap();

    assert_eq!(result, Value::Bool(true));
}

#[test]
fn compiles_string_literal_to_heap_string() {
    let program = compile_source("return \"ferrix\";").unwrap();
    let mut vm = Vm::new();

    let result = vm.run_program(&program).unwrap();
    let reference = result.as_obj_ref().unwrap();

    assert_eq!(
        vm.heap_object(reference).unwrap(),
        &ferrix::Obj::String("ferrix".to_string())
    );
}

#[test]
fn compiles_string_escape_sequences() {
    let program = compile_source("return \"line\\nquote\\\"\";").unwrap();
    let mut vm = Vm::new();

    let result = vm.run_program(&program).unwrap();
    let reference = result.as_obj_ref().unwrap();

    assert_eq!(
        vm.heap_object(reference).unwrap(),
        &ferrix::Obj::String("line\nquote\"".to_string())
    );
}

#[test]
fn compiles_array_literal_and_index_read() {
    let program = compile_source("let values = [10, 32, 7]; return values[1];").unwrap();

    let result = Vm::new().run_program(&program).unwrap();

    assert_eq!(result, Value::Int(32));
}

#[test]
fn compiles_array_index_assignment() {
    let program =
        compile_source("let values = [1, 2]; values[0] = 40 + 2; return values[0];").unwrap();

    let result = Vm::new().run_program(&program).unwrap();

    assert_eq!(result, Value::Int(42));
}

#[test]
fn compiles_empty_array_literal_to_heap_array() {
    let program = compile_source("return [];").unwrap();
    let mut vm = Vm::new();

    let result = vm.run_program(&program).unwrap();
    let reference = result.as_obj_ref().unwrap();

    assert_eq!(vm.heap_object(reference).unwrap(), &Obj::Array(Vec::new()));
}

#[test]
fn compiles_source_calls_to_stdlib_natives() {
    let program = compile_source("return len([1, 2, 3]);").unwrap();
    let mut vm = Vm::new();

    let result = vm.run_program(&program).unwrap();

    assert_eq!(result, Value::Int(3));
}

#[test]
fn compiles_map_literal_and_string_key_lookup() {
    let program =
        compile_source("let user = { \"name\": \"Onur\", \"age\": 30 }; return user[\"name\"];")
            .unwrap();
    let mut vm = Vm::new();

    let result = vm.run_program(&program).unwrap();
    let reference = result.as_obj_ref().unwrap();

    assert_eq!(
        vm.heap_object(reference).unwrap(),
        &Obj::String("Onur".to_string())
    );
}

#[test]
fn compiles_map_index_assignment() {
    let program = compile_source(
        "\
let user = { \"name\": \"Onur\" };
user[\"age\"] = 30;
return user[\"age\"];
",
    )
    .unwrap();

    let result = Vm::new().run_program(&program).unwrap();

    assert_eq!(result, Value::Int(30));
}

#[test]
fn compiles_empty_map_literal_to_heap_map() {
    let program = compile_source("return {};").unwrap();
    let mut vm = Vm::new();

    let result = vm.run_program(&program).unwrap();
    let reference = result.as_obj_ref().unwrap();

    assert_eq!(vm.heap_object(reference).unwrap(), &Obj::MapEntries(Vec::new()));
}

#[test]
fn compiles_function_declaration_and_call() {
    let program = compile_source(
        "\
fn add(a, b) {
    return a + b;
}

return add(10, 32);
",
    )
    .unwrap();

    assert_eq!(program.as_program().entry.0, 1);
    assert_eq!(program.as_program().functions.len(), 2);

    let result = Vm::new().run_program(&program).unwrap();

    assert_eq!(result, Value::Int(42));
}

#[test]
fn compiles_function_literal_without_captures() {
    let program = compile_source(
        "\
let id = fn(value) {
    return value;
};

return id(42);
",
    )
    .unwrap();

    let result = Vm::new().run_program(&program).unwrap();

    assert_eq!(result, Value::Int(42));
}

#[test]
fn compiles_closure_that_captures_outer_local() {
    let program = compile_source(
        "\
let x = 40;
let add = fn(y) {
    return x + y;
};

return add(2);
",
    )
    .unwrap();

    let result = Vm::new().run_program(&program).unwrap();

    assert_eq!(result, Value::Int(42));
}

#[test]
fn compiles_escaping_nested_closure() {
    let program = compile_source(
        "\
let x = 40;
let make_add = fn() {
    return fn(y) {
        return x + y;
    };
};

let add = make_add();
return add(2);
",
    )
    .unwrap();

    let result = Vm::new().run_program(&program).unwrap();

    assert_eq!(result, Value::Int(42));
}

#[test]
fn compiles_closure_that_mutates_captured_local() {
    let program = compile_source(
        "\
let x = 0;
let inc = fn() {
    x = x + 1;
    return x;
};

inc();
return inc();
",
    )
    .unwrap();

    let result = Vm::new().run_program(&program).unwrap();

    assert_eq!(result, Value::Int(2));
}

#[test]
fn compiles_shared_capture_between_closures() {
    let program = compile_source(
        "\
let x = 0;
let inc = fn() {
    x = x + 1;
    return x;
};
let get = fn() {
    return x;
};

inc();
inc();
return get();
",
    )
    .unwrap();

    let result = Vm::new().run_program(&program).unwrap();

    assert_eq!(result, Value::Int(2));
}

#[test]
fn compiles_closure_that_observes_later_assignment() {
    let program = compile_source(
        "\
let x = 1;
let get = fn() {
    return x;
};

x = 42;
return get();
",
    )
    .unwrap();

    let result = Vm::new().run_program(&program).unwrap();

    assert_eq!(result, Value::Int(42));
}

#[test]
fn compiles_recursive_function_literal() {
    let program = compile_source(
        "\
let fact = fn(n) {
    if (n == 0) {
        return 1;
    } else {
        return n * fact(n - 1);
    }
};

return fact(5);
",
    )
    .unwrap();

    let result = Vm::new().run_program(&program).unwrap();

    assert_eq!(result, Value::Int(120));
}

#[test]
fn every_round_of_a_loop_has_cells_of_its_own() {
    let value = compile_and_run(
        r#"
let first = fn () { return 0; };
let i = 0;
while (i < 3) {
    let down = fn (n) {
        if (n < 1) { return i; }
        return down(n - 1);
    };
    if (i < 1) { first = fn () { return down(2) + 10; }; }
    i = i + 1;
}
return first();
"#,
    )
    .unwrap();

    assert_eq!(value, Value::Int(13));
}

#[test]
fn functions_share_a_captured_parameter() {
    let value = compile_and_run(
        r#"
fn pair(n) {
    let add = fn (by) { n = n + by; return n; };
    let read = fn () { return n; };
    add(4);
    n = n * 2;
    return read() + add(1);
}
return pair(1);
"#,
    )
    .unwrap();

    assert_eq!(value, Value::Int(21));
}

#[test]
fn compiles_recursive_function_call() {
    let program = compile_source(
        "\
fn fact(n) {
    if (n == 0) {
        return 1;
    } else {
        return n * fact(n - 1);
    }
}

return fact(5);
",
    )
    .unwrap();

    let result = Vm::new().run_program(&program).unwrap();

    assert_eq!(result, Value::Int(120));
}

#[test]
fn compiles_static_function_import_modules() {
    let module = parse_source_with_file_id(
        "\
fn add(a, b) {
    return a + b;
}
",
        FileId(1),
    )
    .unwrap();
    let entry = parse_source_with_file_id(
        "\
import math;
return add(40, 2);
",
        FileId(0),
    )
    .unwrap();

    let program = compile_program_ast_with_modules(entry, vec![module]).unwrap();

    let result = Vm::new().run_program(&program).unwrap();

    assert_eq!(result, Value::Int(42));
}

#[test]
fn imported_module_top_level_code_is_not_entry_code() {
    let module = parse_source_with_file_id(
        "\
fn answer() {
    return 42;
}
return 99;
",
        FileId(1),
    )
    .unwrap();
    let entry =
        parse_source_with_file_id("import answers;\nreturn answer();\n", FileId(0)).unwrap();

    let program = compile_program_ast_with_modules(entry, vec![module]).unwrap();

    let result = Vm::new().run_program(&program).unwrap();

    assert_eq!(result, Value::Int(42));
}

#[test]
fn compiles_namespaced_static_function_import_modules() {
    let module = parse_source_with_file_id(
        "\
fn add(a, b) {
    return a + b;
}
",
        FileId(1),
    )
    .unwrap();
    let entry = parse_source_with_file_id(
        "\
import math;
return math.add(40, 2);
",
        FileId(0),
    )
    .unwrap();

    let program = compile_program_ast_with_named_modules(
        entry,
        vec![ImportedModuleAst {
            name: "math".to_string(),
            ast: module,
        }],
    )
    .unwrap();

    let result = Vm::new().run_program(&program).unwrap();

    assert_eq!(result, Value::Int(42));
}

#[test]
fn compiles_if_else_assignment() {
    let program = compile_source(
        "\
let x = 0;
if (false) {
    x = 10;
} else {
    x = 20;
}
return x;
",
    )
    .unwrap();

    let result = Vm::new().run_program(&program).unwrap();

    assert_eq!(result, Value::Int(20));
}

#[test]
fn compiles_final_if_else_when_then_branch_returns() {
    let program = compile_source(
        "\
if (true) {
    return 1;
} else {
    return 2;
}
",
    )
    .unwrap();

    let result = Vm::new().run_program(&program).unwrap();

    assert_eq!(result, Value::Int(1));
}

#[test]
fn compiles_while_loop() {
    let program = compile_source(
        "\
let i = 0;
let sum = 0;
let one = 1;
let limit = 5;
while (i < limit) {
    sum = sum + i;
    i = i + one;
}
return sum;
",
    )
    .unwrap();

    let result = Vm::new().run_program(&program).unwrap();

    assert_eq!(result, Value::Int(10));
}

#[test]
fn assignment_to_undefined_variable_is_compile_error() {
    let err = compile_source("missing = 1; return missing;").unwrap_err();

    assert_eq!(
        err.kind,
        CompileErrorKind::UndefinedVariable {
            name: "missing".to_string(),
        }
    );
}

#[test]
fn generated_program_is_bytecode_function() {
    let program = compile_source("let x = 1; return x;").unwrap();
    let function = &program.as_program().functions[0];

    let FunctionKind::Bytecode(chunk) = &function.kind else {
        panic!("compiler should emit bytecode");
    };

    assert!(matches!(
        chunk.instructions.last(),
        Some(Instruction::Return { .. })
    ));
    assert!(chunk.register_count > 0);
}

#[test]
fn undefined_variable_is_compile_error() {
    let err = compile_source("return missing;").unwrap_err();

    assert_eq!(
        err.kind,
        CompileErrorKind::UndefinedVariable {
            name: "missing".to_string(),
        }
    );
}

#[test]
fn duplicate_variable_is_compile_error() {
    let err = compile_source("let x = 1; let x = 2; return x;").unwrap_err();

    assert_eq!(
        err.kind,
        CompileErrorKind::DuplicateVariable {
            name: "x".to_string(),
        }
    );
}

#[derive(Debug)]
enum SourceRunError {
    Compile(CompileError),
    Runtime {
        error: Box<VmError>,
        program: VerifiedProgram,
    },
}

fn compile_and_run(source: &str) -> Result<Value, SourceRunError> {
    let program = compile_source_with_file_id(source, ferrix::diagnostics::FileId(0))
        .map_err(SourceRunError::Compile)?;
    let result = Vm::new()
        .run_program(&program)
        .map_err(|error| SourceRunError::Runtime {
            error: Box::new(error),
            program: program.clone(),
        })?;

    Ok(result)
}

fn assert_runtime_error(source: &str, expected: VmErrorKind) -> (VmError, VerifiedProgram) {
    match compile_and_run(source).unwrap_err() {
        SourceRunError::Runtime { error, program } => {
            assert_eq!(error.kind, expected);
            (*error, program)
        }
        SourceRunError::Compile(error) => panic!("expected runtime error, got {error:?}"),
    }
}

fn assert_compile_error(source: &str, expected: CompileErrorKind) -> CompileError {
    match compile_and_run(source).unwrap_err() {
        SourceRunError::Compile(error) => {
            assert_eq!(error.kind, expected);
            error
        }
        SourceRunError::Runtime { error, .. } => panic!("expected compile error, got {error:?}"),
    }
}

#[test]
fn source_pipeline_runs_loop_and_branch_program() {
    let result = compile_and_run(
        "\
let i = 0;
let one = 1;
let total = 0;
while (i < 5) {
    total = total + i;
    i = i + one;
}
if (total == 10) {
    return total;
} else {
    return 0;
}
",
    )
    .unwrap();

    assert_eq!(result, Value::Int(10));
}

#[test]
fn compile_error_helper_checks_typed_kind_and_span() {
    let err = assert_compile_error(
        "return missing;\n",
        CompileErrorKind::UndefinedVariable {
            name: "missing".to_string(),
        },
    );

    assert_eq!(err.span.unwrap().start, 7);
    assert_eq!(err.span.unwrap().end, 14);
}

#[test]
fn compile_error_diagnostic_is_golden_tested() {
    let mut sources = SourceManager::new();
    let source = "return missing;\n";
    let file = sources.add_file("golden.fx", source);
    let err = compile_source_with_file_id(source, file).unwrap_err();

    assert_eq!(
        sources.render_diagnostic(&err.to_diagnostic()),
        "\
error: undefined variable `missing`
 --> golden.fx:1:8
  |
1 | return missing;
  |        ^^^^^^^
"
    );
}

#[test]
fn runtime_error_helper_checks_typed_kind() {
    let (err, _) = assert_runtime_error("return 1 / 0;\n", VmErrorKind::DivisionByZero);

    assert_eq!(err.instruction_ip, Some(2));
}

#[test]
fn runtime_error_diagnostic_uses_compiler_source_map() {
    let source = "return 1 / 0;\n";
    let mut sources = SourceManager::new();
    sources.add_file("runtime.fx", source);

    let (err, program) = assert_runtime_error(source, VmErrorKind::DivisionByZero);
    let function = &program.as_program().functions[program.as_program().entry.0 as usize];
    let FunctionKind::Bytecode(chunk) = &function.kind else {
        panic!("compiler should emit bytecode entrypoint");
    };

    assert_eq!(
        sources.render_diagnostic(&err.to_diagnostic_with_chunk(chunk)),
        "\
error: division by zero at instruction 2
 --> runtime.fx:1:8
  |
1 | return 1 / 0;
  |        ^^^^^
"
    );
}

/// Optimizes every function of a program.
fn optimized(program: &VerifiedProgram) -> VerifiedProgram {
    let mut program = program.clone().into_inner();
    for function in &mut program.functions {
        if let FunctionKind::Bytecode(chunk) = &mut function.kind {
            *chunk = optimize_chunk(chunk.clone());
        }
    }
    VerifiedProgram::new(program).unwrap()
}

#[test]
fn optimized_programs_run_alike() {
    for source in [
        "return 1 + 2 * 3 - 8 / 4;\n",
        "let x = 0; while (x < 10) { x = x + 3; } return x;\n",
        "fn fact(n) { if (n <= 1) { return 1; } else { return n * fact(n - 1); } }\nreturn fact(6);\n",
        "let c = 0; let f = fn() { c = c + 1; return c; }; f(); f(); return c;\n",
        "return [1, 2, 3][1] == 2;\n",
        "let x = 3; if (x > 2) { x = 1 == 1; } else { x = nil; } return x;\n",
    ] {
        let program = compile_source(source).unwrap();
        let faster = optimized(&program);
        assert_eq!(
            Vm::new().run_program(&program),
            Vm::new().run_program(&faster)
        );
    }
    let program = compile_source("return 1 / 0;\n").unwrap();
    assert_eq!(
        Vm::new().run_program(&optimized(&program)).unwrap_err().kind,
        VmErrorKind::DivisionByZero
    );
}

#[test]
fn every_comparison_is_assembled() {
    let compare = |build: fn(Assembler) -> Assembler| {
        let chunk = build(
            Assembler::new("main")
                .registers(3)
                .integer(1)
                .integer(2)
                .load_const(0, 0)
                .load_const(1, 1),
        )
        .ret(2)
        .finish()
        .unwrap();
        Vm::new().run(&chunk).unwrap()
    };
    assert_eq!(compare(|a| a.equal(2, 0, 1)), Value::Bool(false));
    assert_eq!(compare(|a| a.not_equal(2, 0, 1)), Value::Bool(true));
    assert_eq!(compare(|a| a.less(2, 0, 1)), Value::Bool(true));
    assert_eq!(compare(|a| a.less_equal(2, 0, 1)), Value::Bool(true));
    assert_eq!(compare(|a| a.greater(2, 0, 1)), Value::Bool(false));
    assert_eq!(compare(|a| a.greater_equal(2, 0, 1)), Value::Bool(false));
    assert_eq!(
        compare(|a| a.equal(2, 0, 1).not(2, 2)),
        Value::Bool(true)
    );
    assert_eq!(
        compare(|a| a.less(2, 0, 1).jump_if_true(2, "end").mov(2, 0).label("end")),
        Value::Bool(true)
    );
    assert_eq!(
        compare(|a| a.less(2, 0, 1).jump_if_false_to(2, 5).mov(2, 1)),
        Value::Int(2)
    );
}

#[test]
fn assembler_errors_have_texts() {
    let error = Assembler::new("main").label("a").label("a").finish().unwrap_err();
    assert_eq!(error.to_string(), "duplicate label `a`");
    let error = Assembler::new("main").jump("b").finish().unwrap_err();
    assert_eq!(error.to_string(), "undefined label `b`");
    let error = Assembler::new("main").registers(1).nil().load_const(0, 0).finish().unwrap_err();
    assert_eq!(error.to_string(), "chunk has no return instruction");
    assert_eq!(
        AssemblerError::TooManyInstructions { max: 4294967296 }.to_string(),
        "too many instructions; maximum is 4294967296"
    );
    let mut assembler = Assembler::new("main").registers(1);
    for i in 0..65537 {
        assembler = assembler.integer(i);
    }
    let error = assembler.ret(0).finish().unwrap_err();
    assert_eq!(
        error,
        AssemblerError::ChunkBuild(ChunkBuildError::TooManyConstants { max: 65536 })
    );
    assert_eq!(error.to_string(), "too many constants; maximum is 65536");
    assert_eq!(
        AssemblerError::ChunkBuild(ChunkBuildError::TooManyStrings { max: 65536 }).to_string(),
        "too many strings; maximum is 65536"
    );
}
