//! Instruction layouts: which operands follow which opcode.

use vstd::prelude::*;

use crate::bytecode::instruction::{
    text_operands, CaptureId, ConstId, FunctionId, Instruction, InstructionView, JumpTarget,
    Operand, Register, StringId,
};
use crate::bytecode::instruction::{
    OP_ADD, OP_ADD_INT, OP_ARRAY_GET, OP_ARRAY_NEW, OP_ARRAY_SET, OP_CALL_EXTENSION, OP_CALL_FUNCTION, OP_CALL_VALUE, OP_DIV, OP_DIV_INT, OP_EQUAL, OP_FIELD_GET, OP_FIELD_SET, OP_GREATER, OP_GREATER_EQUAL, OP_GREATER_EQUAL_INT, OP_GREATER_INT, OP_INDEX_GET, OP_INDEX_SET, OP_JUMP, OP_JUMP_IF_FALSE, OP_JUMP_IF_TRUE, OP_LESS, OP_LESS_EQUAL, OP_LESS_EQUAL_INT, OP_LESS_INT, OP_LOAD_CAPTURE, OP_LOAD_CAPTURE_CELL, OP_LOAD_CONST, OP_LOAD_STRING, OP_LOAD_UPVALUE, OP_MAKE_CLOSURE, OP_MAKE_UPVALUE, OP_MAP_NEW, OP_MOVE, OP_MUL, OP_MUL_INT, OP_NOT, OP_NOT_EQUAL, OP_POP_HANDLER, OP_PUSH_HANDLER, OP_RECORD_NEW, OP_RETURN, OP_STORE_CAPTURE, OP_STORE_UPVALUE, OP_SUB, OP_SUB_INT, OP_THROW,
};

verus! {

/// The kinds of operands.
#[derive(Clone, Copy, Debug, PartialEq, Eq, Structural)]
pub enum OperandKind {
    Register,
    Constant,
    Text,
    Function,
    Target,
    Capture,
    Count,
}

/// The kind of an operand.
pub open spec fn kind_of(operand: Operand) -> OperandKind {
    match operand {
        Operand::Register(_) => OperandKind::Register,
        Operand::Constant(_) => OperandKind::Constant,
        Operand::Text(_) => OperandKind::Text,
        Operand::Function(_) => OperandKind::Function,
        Operand::Target(_) => OperandKind::Target,
        Operand::Capture(_) => OperandKind::Capture,
        Operand::Count(_) => OperandKind::Count,
    }
}

/// The kinds of a list of operands.
pub open spec fn kinds_of(operands: Seq<Operand>) -> Seq<OperandKind> {
    Seq::new(operands.len(), |i: int| kind_of(operands[i]))
}

/// The kinds of the fixed operands of an opcode; the fields of a record follow them.
pub open spec fn layout(opcode: u8) -> Option<Seq<OperandKind>> {

    if opcode == OP_LOAD_CONST {
        Some(seq![OperandKind::Register, OperandKind::Constant])
    } else if opcode == OP_LOAD_STRING {
        Some(seq![OperandKind::Register, OperandKind::Text])
    } else if opcode == OP_MOVE || opcode == OP_NOT || opcode == OP_MAKE_UPVALUE || opcode == OP_LOAD_UPVALUE || opcode == OP_STORE_UPVALUE {
        Some(seq![OperandKind::Register, OperandKind::Register])
    } else if opcode == OP_ADD || opcode == OP_ADD_INT || opcode == OP_SUB || opcode == OP_SUB_INT || opcode == OP_MUL || opcode == OP_MUL_INT || opcode == OP_DIV || opcode == OP_DIV_INT || opcode == OP_EQUAL || opcode == OP_NOT_EQUAL || opcode == OP_LESS || opcode == OP_LESS_INT || opcode == OP_LESS_EQUAL || opcode == OP_LESS_EQUAL_INT || opcode == OP_GREATER || opcode == OP_GREATER_INT || opcode == OP_GREATER_EQUAL || opcode == OP_GREATER_EQUAL_INT || opcode == OP_INDEX_GET || opcode == OP_INDEX_SET || opcode == OP_ARRAY_GET || opcode == OP_ARRAY_SET {
        Some(seq![OperandKind::Register, OperandKind::Register, OperandKind::Register])
    } else if opcode == OP_JUMP {
        Some(seq![OperandKind::Target])
    } else if opcode == OP_JUMP_IF_FALSE || opcode == OP_JUMP_IF_TRUE || opcode == OP_PUSH_HANDLER {
        Some(seq![OperandKind::Register, OperandKind::Target])
    } else if opcode == OP_CALL_FUNCTION || opcode == OP_MAKE_CLOSURE {
        Some(seq![OperandKind::Register, OperandKind::Function, OperandKind::Register, OperandKind::Count])
    } else if opcode == OP_LOAD_CAPTURE || opcode == OP_LOAD_CAPTURE_CELL {
        Some(seq![OperandKind::Register, OperandKind::Capture])
    } else if opcode == OP_STORE_CAPTURE {
        Some(seq![OperandKind::Capture, OperandKind::Register])
    } else if opcode == OP_CALL_VALUE {
        Some(seq![OperandKind::Register, OperandKind::Register, OperandKind::Register, OperandKind::Count])
    } else if opcode == OP_CALL_EXTENSION {
        Some(seq![OperandKind::Register, OperandKind::Text, OperandKind::Register, OperandKind::Count])
    } else if opcode == OP_ARRAY_NEW || opcode == OP_MAP_NEW || opcode == OP_RECORD_NEW {
        Some(seq![OperandKind::Register, OperandKind::Register, OperandKind::Count])
    } else if opcode == OP_FIELD_GET {
        Some(seq![OperandKind::Register, OperandKind::Register, OperandKind::Text])
    } else if opcode == OP_FIELD_SET {
        Some(seq![OperandKind::Register, OperandKind::Text, OperandKind::Register])
    } else if opcode == OP_POP_HANDLER {
        Some(Seq::empty())
    } else if opcode == OP_THROW || opcode == OP_RETURN {
        Some(seq![OperandKind::Register])
    } else {
        None
    }
}

/// The kinds of the fixed operands of an opcode.
pub fn operand_layout(opcode: u8) -> (kinds: Option<Vec<OperandKind>>)
    ensures
        match kinds {
            Some(kinds) => layout(opcode) matches Some(expected) && kinds@ == expected
                && kinds@.len() <= 4,
            None => layout(opcode) is None,
        },
{

    if opcode == OP_LOAD_CONST {
        Some(vec![OperandKind::Register, OperandKind::Constant])
    } else if opcode == OP_LOAD_STRING {
        Some(vec![OperandKind::Register, OperandKind::Text])
    } else if opcode == OP_MOVE || opcode == OP_NOT || opcode == OP_MAKE_UPVALUE || opcode == OP_LOAD_UPVALUE || opcode == OP_STORE_UPVALUE {
        Some(vec![OperandKind::Register, OperandKind::Register])
    } else if opcode == OP_ADD || opcode == OP_ADD_INT || opcode == OP_SUB || opcode == OP_SUB_INT || opcode == OP_MUL || opcode == OP_MUL_INT || opcode == OP_DIV || opcode == OP_DIV_INT || opcode == OP_EQUAL || opcode == OP_NOT_EQUAL || opcode == OP_LESS || opcode == OP_LESS_INT || opcode == OP_LESS_EQUAL || opcode == OP_LESS_EQUAL_INT || opcode == OP_GREATER || opcode == OP_GREATER_INT || opcode == OP_GREATER_EQUAL || opcode == OP_GREATER_EQUAL_INT || opcode == OP_INDEX_GET || opcode == OP_INDEX_SET || opcode == OP_ARRAY_GET || opcode == OP_ARRAY_SET {
        Some(vec![OperandKind::Register, OperandKind::Register, OperandKind::Register])
    } else if opcode == OP_JUMP {
        Some(vec![OperandKind::Target])
    } else if opcode == OP_JUMP_IF_FALSE || opcode == OP_JUMP_IF_TRUE || opcode == OP_PUSH_HANDLER {
        Some(vec![OperandKind::Register, OperandKind::Target])
    } else if opcode == OP_CALL_FUNCTION || opcode == OP_MAKE_CLOSURE {
        Some(vec![OperandKind::Register, OperandKind::Function, OperandKind::Register, OperandKind::Count])
    } else if opcode == OP_LOAD_CAPTURE || opcode == OP_LOAD_CAPTURE_CELL {
        Some(vec![OperandKind::Register, OperandKind::Capture])
    } else if opcode == OP_STORE_CAPTURE {
        Some(vec![OperandKind::Capture, OperandKind::Register])
    } else if opcode == OP_CALL_VALUE {
        Some(vec![OperandKind::Register, OperandKind::Register, OperandKind::Register, OperandKind::Count])
    } else if opcode == OP_CALL_EXTENSION {
        Some(vec![OperandKind::Register, OperandKind::Text, OperandKind::Register, OperandKind::Count])
    } else if opcode == OP_ARRAY_NEW || opcode == OP_MAP_NEW || opcode == OP_RECORD_NEW {
        Some(vec![OperandKind::Register, OperandKind::Register, OperandKind::Count])
    } else if opcode == OP_FIELD_GET {
        Some(vec![OperandKind::Register, OperandKind::Register, OperandKind::Text])
    } else if opcode == OP_FIELD_SET {
        Some(vec![OperandKind::Register, OperandKind::Text, OperandKind::Register])
    } else if opcode == OP_POP_HANDLER {
        Some(Vec::new())
    } else if opcode == OP_THROW || opcode == OP_RETURN {
        Some(vec![OperandKind::Register])
    } else {
        None
    }
}

/// Whether the operands of an instruction are those that its opcode calls for: the fixed
/// ones, and for a record as many fields as the count says.
pub open spec fn well_laid_out(v: InstructionView) -> bool {
    match layout(v.opcode) {
        Some(kinds) => if v.opcode == OP_RECORD_NEW {
            &&& v.operands.len() >= 3
            &&& kinds_of(v.operands.take(3)) == kinds
            &&& v.operands.len() - 3 == v.operands[2]->Count_0
            &&& forall|i: int| 3 <= i < v.operands.len() ==> #[trigger] v.operands[i] is Text
        } else {
            kinds_of(v.operands) == kinds
        },
        None => false,
    }
}

/// The operands of every instruction are those that its opcode calls for, as long as a record
/// has no more fields than one byte can count.
pub proof fn lemma_well_laid_out(instruction: Instruction)
    requires
        instruction is RecordNew ==> instruction->RecordNew_fields@.len() < 256,
    ensures
        well_laid_out(instruction@),
{
    let v = instruction@;
    match instruction {
        Instruction::RecordNew { dst, fields_start, fields } => {
            assert(kinds_of(v.operands.take(3)) =~= layout(v.opcode)->0);
        },
        _ => {
            assert(kinds_of(v.operands) =~= layout(v.opcode)->0);
        },
    }
}

/// The register in a register operand.
fn register_of(operand: Operand) -> (r: Register)
    requires
        operand is Register,
    ensures
        operand == Operand::Register(r),
{
    match operand {
        Operand::Register(r) => r,
        _ => Register(0),
    }
}

/// The constant id in a constant operand.
fn constant_of(operand: Operand) -> (c: ConstId)
    requires
        operand is Constant,
    ensures
        operand == Operand::Constant(c),
{
    match operand {
        Operand::Constant(c) => c,
        _ => ConstId(0),
    }
}

/// The string id in a string operand.
fn text_of(operand: Operand) -> (s: StringId)
    requires
        operand is Text,
    ensures
        operand == Operand::Text(s),
{
    match operand {
        Operand::Text(s) => s,
        _ => StringId(0),
    }
}

/// The function id in a function operand.
fn function_of(operand: Operand) -> (f: FunctionId)
    requires
        operand is Function,
    ensures
        operand == Operand::Function(f),
{
    match operand {
        Operand::Function(f) => f,
        _ => FunctionId(0),
    }
}

/// The target in a jump operand.
fn target_of(operand: Operand) -> (t: JumpTarget)
    requires
        operand is Target,
    ensures
        operand == Operand::Target(t),
{
    match operand {
        Operand::Target(t) => t,
        _ => JumpTarget(0),
    }
}

/// The capture id in a capture operand.
fn capture_of(operand: Operand) -> (c: CaptureId)
    requires
        operand is Capture,
    ensures
        operand == Operand::Capture(c),
{
    match operand {
        Operand::Capture(c) => c,
        _ => CaptureId(0),
    }
}

/// The number in a count operand.
fn count_of(operand: Operand) -> (n: u8)
    requires
        operand is Count,
    ensures
        operand == Operand::Count(n),
{
    match operand {
        Operand::Count(n) => n,
        _ => 0,
    }
}

impl Instruction {
    /// The opcode of the instruction.
    pub fn opcode_byte(&self) -> (opcode: u8)
        ensures
            opcode == self@.opcode,
    {
        match self {
            Instruction::LoadConst { .. } => OP_LOAD_CONST,
            Instruction::LoadString { .. } => OP_LOAD_STRING,
            Instruction::Move { .. } => OP_MOVE,
            Instruction::Add { .. } => OP_ADD,
            Instruction::AddInt { .. } => OP_ADD_INT,
            Instruction::Sub { .. } => OP_SUB,
            Instruction::SubInt { .. } => OP_SUB_INT,
            Instruction::Mul { .. } => OP_MUL,
            Instruction::MulInt { .. } => OP_MUL_INT,
            Instruction::Div { .. } => OP_DIV,
            Instruction::DivInt { .. } => OP_DIV_INT,
            Instruction::Jump { .. } => OP_JUMP,
            Instruction::JumpIfFalse { .. } => OP_JUMP_IF_FALSE,
            Instruction::JumpIfTrue { .. } => OP_JUMP_IF_TRUE,
            Instruction::Equal { .. } => OP_EQUAL,
            Instruction::NotEqual { .. } => OP_NOT_EQUAL,
            Instruction::Less { .. } => OP_LESS,
            Instruction::LessInt { .. } => OP_LESS_INT,
            Instruction::LessEqual { .. } => OP_LESS_EQUAL,
            Instruction::LessEqualInt { .. } => OP_LESS_EQUAL_INT,
            Instruction::Greater { .. } => OP_GREATER,
            Instruction::GreaterInt { .. } => OP_GREATER_INT,
            Instruction::GreaterEqual { .. } => OP_GREATER_EQUAL,
            Instruction::GreaterEqualInt { .. } => OP_GREATER_EQUAL_INT,
            Instruction::Not { .. } => OP_NOT,
            Instruction::CallFunction { .. } => OP_CALL_FUNCTION,
            Instruction::MakeUpvalue { .. } => OP_MAKE_UPVALUE,
            Instruction::LoadUpvalue { .. } => OP_LOAD_UPVALUE,
            Instruction::StoreUpvalue { .. } => OP_STORE_UPVALUE,
            Instruction::MakeClosure { .. } => OP_MAKE_CLOSURE,
            Instruction::LoadCapture { .. } => OP_LOAD_CAPTURE,
            Instruction::LoadCaptureCell { .. } => OP_LOAD_CAPTURE_CELL,
            Instruction::StoreCapture { .. } => OP_STORE_CAPTURE,
            Instruction::CallValue { .. } => OP_CALL_VALUE,
            Instruction::CallExtension { .. } => OP_CALL_EXTENSION,
            Instruction::ArrayNew { .. } => OP_ARRAY_NEW,
            Instruction::MapNew { .. } => OP_MAP_NEW,
            Instruction::RecordNew { .. } => OP_RECORD_NEW,
            Instruction::IndexGet { .. } => OP_INDEX_GET,
            Instruction::IndexSet { .. } => OP_INDEX_SET,
            Instruction::ArrayGet { .. } => OP_ARRAY_GET,
            Instruction::ArraySet { .. } => OP_ARRAY_SET,
            Instruction::FieldGet { .. } => OP_FIELD_GET,
            Instruction::FieldSet { .. } => OP_FIELD_SET,
            Instruction::PushHandler { .. } => OP_PUSH_HANDLER,
            Instruction::PopHandler => OP_POP_HANDLER,
            Instruction::Throw { .. } => OP_THROW,
            Instruction::Return { .. } => OP_RETURN,
        }
    }

    /// The operands of the instruction, in order.
    pub fn operand_list(&self) -> (operands: Vec<Operand>)
        ensures
            operands@ == self@.operands,
    {
        match self {
            Instruction::LoadConst { dst, constant } => vec![Operand::Register(*dst), Operand::Constant(*constant)],
            Instruction::LoadString { dst, string } => vec![Operand::Register(*dst), Operand::Text(*string)],
            Instruction::Move { dst, src } => vec![Operand::Register(*dst), Operand::Register(*src)],
            Instruction::Add { dst, lhs, rhs } => vec![Operand::Register(*dst), Operand::Register(*lhs), Operand::Register(*rhs)],
            Instruction::AddInt { dst, lhs, rhs } => vec![Operand::Register(*dst), Operand::Register(*lhs), Operand::Register(*rhs)],
            Instruction::Sub { dst, lhs, rhs } => vec![Operand::Register(*dst), Operand::Register(*lhs), Operand::Register(*rhs)],
            Instruction::SubInt { dst, lhs, rhs } => vec![Operand::Register(*dst), Operand::Register(*lhs), Operand::Register(*rhs)],
            Instruction::Mul { dst, lhs, rhs } => vec![Operand::Register(*dst), Operand::Register(*lhs), Operand::Register(*rhs)],
            Instruction::MulInt { dst, lhs, rhs } => vec![Operand::Register(*dst), Operand::Register(*lhs), Operand::Register(*rhs)],
            Instruction::Div { dst, lhs, rhs } => vec![Operand::Register(*dst), Operand::Register(*lhs), Operand::Register(*rhs)],
            Instruction::DivInt { dst, lhs, rhs } => vec![Operand::Register(*dst), Operand::Register(*lhs), Operand::Register(*rhs)],
            Instruction::Jump { target } => vec![Operand::Target(*target)],
            Instruction::JumpIfFalse { condition, target } => vec![Operand::Register(*condition), Operand::Target(*target)],
            Instruction::JumpIfTrue { condition, target } => vec![Operand::Register(*condition), Operand::Target(*target)],
            Instruction::Equal { dst, lhs, rhs } => vec![Operand::Register(*dst), Operand::Register(*lhs), Operand::Register(*rhs)],
            Instruction::NotEqual { dst, lhs, rhs } => vec![Operand::Register(*dst), Operand::Register(*lhs), Operand::Register(*rhs)],
            Instruction::Less { dst, lhs, rhs } => vec![Operand::Register(*dst), Operand::Register(*lhs), Operand::Register(*rhs)],
            Instruction::LessInt { dst, lhs, rhs } => vec![Operand::Register(*dst), Operand::Register(*lhs), Operand::Register(*rhs)],
            Instruction::LessEqual { dst, lhs, rhs } => vec![Operand::Register(*dst), Operand::Register(*lhs), Operand::Register(*rhs)],
            Instruction::LessEqualInt { dst, lhs, rhs } => vec![Operand::Register(*dst), Operand::Register(*lhs), Operand::Register(*rhs)],
            Instruction::Greater { dst, lhs, rhs } => vec![Operand::Register(*dst), Operand::Register(*lhs), Operand::Register(*rhs)],
            Instruction::GreaterInt { dst, lhs, rhs } => vec![Operand::Register(*dst), Operand::Register(*lhs), Operand::Register(*rhs)],
            Instruction::GreaterEqual { dst, lhs, rhs } => vec![Operand::Register(*dst), Operand::Register(*lhs), Operand::Register(*rhs)],
            Instruction::GreaterEqualInt { dst, lhs, rhs } => vec![Operand::Register(*dst), Operand::Register(*lhs), Operand::Register(*rhs)],
            Instruction::Not { dst, src } => vec![Operand::Register(*dst), Operand::Register(*src)],
            Instruction::CallFunction { dst, function, args_start, arg_count } => vec![Operand::Register(*dst), Operand::Function(*function), Operand::Register(*args_start), Operand::Count(*arg_count)],
            Instruction::MakeUpvalue { dst, src } => vec![Operand::Register(*dst), Operand::Register(*src)],
            Instruction::LoadUpvalue { dst, upvalue } => vec![Operand::Register(*dst), Operand::Register(*upvalue)],
            Instruction::StoreUpvalue { upvalue, src } => vec![Operand::Register(*upvalue), Operand::Register(*src)],
            Instruction::MakeClosure { dst, function, captures_start, capture_count } => vec![Operand::Register(*dst), Operand::Function(*function), Operand::Register(*captures_start), Operand::Count(*capture_count)],
            Instruction::LoadCapture { dst, capture } => vec![Operand::Register(*dst), Operand::Capture(*capture)],
            Instruction::LoadCaptureCell { dst, capture } => vec![Operand::Register(*dst), Operand::Capture(*capture)],
            Instruction::StoreCapture { capture, src } => vec![Operand::Capture(*capture), Operand::Register(*src)],
            Instruction::CallValue { dst, callee, args_start, arg_count } => vec![Operand::Register(*dst), Operand::Register(*callee), Operand::Register(*args_start), Operand::Count(*arg_count)],
            Instruction::CallExtension { dst, extension, args_start, arg_count } => vec![Operand::Register(*dst), Operand::Text(*extension), Operand::Register(*args_start), Operand::Count(*arg_count)],
            Instruction::ArrayNew { dst, elements_start, element_count } => vec![Operand::Register(*dst), Operand::Register(*elements_start), Operand::Count(*element_count)],
            Instruction::MapNew { dst, entries_start, entry_count } => vec![Operand::Register(*dst), Operand::Register(*entries_start), Operand::Count(*entry_count)],
            Instruction::RecordNew { dst, fields_start, fields } => {
                let count: u8 = if fields.len() < 256 {
                    fields.len() as u8
                } else {
                    255
                };
                let mut operands = vec![
                    Operand::Register(*dst),
                    Operand::Register(*fields_start),
                    Operand::Count(count),
                ];
                let ghost front = operands@;
                let mut i: usize = 0;
                while i < fields.len()
                    invariant
                        i <= fields@.len(),
                        operands@ == front + text_operands(fields@.take(i as int)),
                    decreases fields.len() - i,
                {
                    operands.push(Operand::Text(fields[i]));
                    i = i + 1;
                    assert(operands@ == front + text_operands(fields@.take(i as int)));
                }
                assert(fields@.take(i as int) =~= fields@);
                operands
            },
            Instruction::IndexGet { dst, target, index } => vec![Operand::Register(*dst), Operand::Register(*target), Operand::Register(*index)],
            Instruction::IndexSet { target, index, value } => vec![Operand::Register(*target), Operand::Register(*index), Operand::Register(*value)],
            Instruction::ArrayGet { dst, array, index } => vec![Operand::Register(*dst), Operand::Register(*array), Operand::Register(*index)],
            Instruction::ArraySet { array, index, value } => vec![Operand::Register(*array), Operand::Register(*index), Operand::Register(*value)],
            Instruction::FieldGet { dst, target, field } => vec![Operand::Register(*dst), Operand::Register(*target), Operand::Text(*field)],
            Instruction::FieldSet { target, field, value } => vec![Operand::Register(*target), Operand::Text(*field), Operand::Register(*value)],
            Instruction::PushHandler { error, target } => vec![Operand::Register(*error), Operand::Target(*target)],
            Instruction::PopHandler => Vec::new(),
            Instruction::Throw { src } => vec![Operand::Register(*src)],
            Instruction::Return { src } => vec![Operand::Register(*src)],
        }
    }

    /// Builds a record construction from its operands.
    fn record_from_parts(operands: &Vec<Operand>) -> (instruction: Self)
        requires
            well_laid_out(InstructionView { opcode: OP_RECORD_NEW, operands: operands@ }),
        ensures
            instruction@ == (InstructionView { opcode: OP_RECORD_NEW, operands: operands@ }),
    {
        proof {
            assert(kind_of(operands@[0]) == kinds_of(operands@.take(3))[0]);
            assert(kind_of(operands@[1]) == kinds_of(operands@.take(3))[1]);
            assert(kind_of(operands@[2]) == kinds_of(operands@.take(3))[2]);
        }
        let dst = register_of(operands[0]);
        let fields_start = register_of(operands[1]);
        let mut fields: Vec<StringId> = Vec::new();
        let mut i: usize = 3;
        while i < operands.len()
            invariant
                3 <= i <= operands@.len(),
                fields@.len() == i - 3,
                well_laid_out(InstructionView { opcode: OP_RECORD_NEW, operands: operands@ }),
                forall|k: int| 3 <= k < i ==> #[trigger] operands@[k] == Operand::Text(fields@[k - 3]),
            decreases operands.len() - i,
        {
            fields.push(text_of(operands[i]));
            i = i + 1;
        }
        let instruction = Instruction::RecordNew { dst, fields_start, fields };
        assert(instruction@.operands =~= operands@);
        instruction
    }

    /// Builds the instruction with the given opcode and operands.
    pub fn from_parts(opcode: u8, operands: &Vec<Operand>) -> (instruction: Self)
        requires
            well_laid_out(InstructionView { opcode, operands: operands@ }),
        ensures
            instruction@ == (InstructionView { opcode, operands: operands@ }),
    {
        if opcode == OP_RECORD_NEW {
            return Self::record_from_parts(operands);
        }
        let ghost kinds = kinds_of(operands@);
        assert(kinds == layout(opcode)->0);
        assert(forall|i: int| 0 <= i < operands@.len() ==> #[trigger] kinds[i] == kind_of(operands@[i]));
        let instruction = Self::fixed_from_parts(opcode, operands);
        instruction
    }

    /// Builds an instruction other than a record construction from its operands.
    fn fixed_from_parts(opcode: u8, operands: &Vec<Operand>) -> (instruction: Self)
        requires
            opcode != OP_RECORD_NEW,
            layout(opcode) is Some,
            kinds_of(operands@) == layout(opcode)->0,
        ensures
            instruction@ == (InstructionView { opcode, operands: operands@ }),
    {
        let ghost kinds = kinds_of(operands@);
        assert(forall|i: int| 0 <= i < operands@.len() ==> #[trigger] kind_of(operands@[i]) == kinds[i]);
        assert(kinds.len() == operands@.len());

        if opcode == OP_LOAD_CONST {
            let a = register_of(operands[0]);
            let b = constant_of(operands[1]);
            assert(operands@ =~= seq![Operand::Register(a), Operand::Constant(b)]);
            Instruction::LoadConst { dst: a, constant: b }
        } else if opcode == OP_LOAD_STRING {
            let a = register_of(operands[0]);
            let b = text_of(operands[1]);
            assert(operands@ =~= seq![Operand::Register(a), Operand::Text(b)]);
            Instruction::LoadString { dst: a, string: b }
        } else if opcode == OP_MOVE || opcode == OP_NOT || opcode == OP_MAKE_UPVALUE || opcode == OP_LOAD_UPVALUE || opcode == OP_STORE_UPVALUE {
            let a = register_of(operands[0]);
            let b = register_of(operands[1]);
            assert(operands@ =~= seq![Operand::Register(a), Operand::Register(b)]);
            if opcode == OP_MOVE {
                Instruction::Move { dst: a, src: b }
            } else if opcode == OP_NOT {
                Instruction::Not { dst: a, src: b }
            } else if opcode == OP_MAKE_UPVALUE {
                Instruction::MakeUpvalue { dst: a, src: b }
            } else if opcode == OP_LOAD_UPVALUE {
                Instruction::LoadUpvalue { dst: a, upvalue: b }
            } else {
                Instruction::StoreUpvalue { upvalue: a, src: b }
            }
        } else if opcode == OP_ADD || opcode == OP_ADD_INT || opcode == OP_SUB || opcode == OP_SUB_INT || opcode == OP_MUL || opcode == OP_MUL_INT || opcode == OP_DIV || opcode == OP_DIV_INT || opcode == OP_EQUAL || opcode == OP_NOT_EQUAL || opcode == OP_LESS || opcode == OP_LESS_INT || opcode == OP_LESS_EQUAL || opcode == OP_LESS_EQUAL_INT || opcode == OP_GREATER || opcode == OP_GREATER_INT || opcode == OP_GREATER_EQUAL || opcode == OP_GREATER_EQUAL_INT || opcode == OP_INDEX_GET || opcode == OP_INDEX_SET || opcode == OP_ARRAY_GET || opcode == OP_ARRAY_SET {
            let a = register_of(operands[0]);
            let b = register_of(operands[1]);
            let c = register_of(operands[2]);
            assert(operands@ =~= seq![Operand::Register(a), Operand::Register(b), Operand::Register(c)]);
            if opcode == OP_ADD {
                Instruction::Add { dst: a, lhs: b, rhs: c }
            } else if opcode == OP_ADD_INT {
                Instruction::AddInt { dst: a, lhs: b, rhs: c }
            } else if opcode == OP_SUB {
                Instruction::Sub { dst: a, lhs: b, rhs: c }
            } else if opcode == OP_SUB_INT {
                Instruction::SubInt { dst: a, lhs: b, rhs: c }
            } else if opcode == OP_MUL {
                Instruction::Mul { dst: a, lhs: b, rhs: c }
            } else if opcode == OP_MUL_INT {
                Instruction::MulInt { dst: a, lhs: b, rhs: c }
            } else if opcode == OP_DIV {
                Instruction::Div { dst: a, lhs: b, rhs: c }
            } else if opcode == OP_DIV_INT {
                Instruction::DivInt { dst: a, lhs: b, rhs: c }
            } else if opcode == OP_EQUAL {
                Instruction::Equal { dst: a, lhs: b, rhs: c }
            } else if opcode == OP_NOT_EQUAL {
                Instruction::NotEqual { dst: a, lhs: b, rhs: c }
            } else if opcode == OP_LESS {
                Instruction::Less { dst: a, lhs: b, rhs: c }
            } else if opcode == OP_LESS_INT {
                Instruction::LessInt { dst: a, lhs: b, rhs: c }
            } else if opcode == OP_LESS_EQUAL {
                Instruction::LessEqual { dst: a, lhs: b, rhs: c }
            } else if opcode == OP_LESS_EQUAL_INT {
                Instruction::LessEqualInt { dst: a, lhs: b, rhs: c }
            } else if opcode == OP_GREATER {
                Instruction::Greater { dst: a, lhs: b, rhs: c }
            } else if opcode == OP_GREATER_INT {
                Instruction::GreaterInt { dst: a, lhs: b, rhs: c }
            } else if opcode == OP_GREATER_EQUAL {
                Instruction::GreaterEqual { dst: a, lhs: b, rhs: c }
            } else if opcode == OP_GREATER_EQUAL_INT {
                Instruction::GreaterEqualInt { dst: a, lhs: b, rhs: c }
            } else if opcode == OP_INDEX_GET {
                Instruction::IndexGet { dst: a, target: b, index: c }
            } else if opcode == OP_INDEX_SET {
                Instruction::IndexSet { target: a, index: b, value: c }
            } else if opcode == OP_ARRAY_GET {
                Instruction::ArrayGet { dst: a, array: b, index: c }
            } else {
                Instruction::ArraySet { array: a, index: b, value: c }
            }
        } else if opcode == OP_JUMP {
            let a = target_of(operands[0]);
            assert(operands@ =~= seq![Operand::Target(a)]);
            Instruction::Jump { target: a }
        } else if opcode == OP_JUMP_IF_FALSE || opcode == OP_JUMP_IF_TRUE || opcode == OP_PUSH_HANDLER {
            let a = register_of(operands[0]);
            let b = target_of(operands[1]);
            assert(operands@ =~= seq![Operand::Register(a), Operand::Target(b)]);
            if opcode == OP_JUMP_IF_FALSE {
                Instruction::JumpIfFalse { condition: a, target: b }
            } else if opcode == OP_JUMP_IF_TRUE {
                Instruction::JumpIfTrue { condition: a, target: b }
            } else {
                Instruction::PushHandler { error: a, target: b }
            }
        } else if opcode == OP_CALL_FUNCTION || opcode == OP_MAKE_CLOSURE {
            let a = register_of(operands[0]);
            let b = function_of(operands[1]);
            let c = register_of(operands[2]);
            let d: u8 = count_of(operands[3]);
            assert(operands@ =~= seq![Operand::Register(a), Operand::Function(b), Operand::Register(c), Operand::Count(d)]);
            if opcode == OP_CALL_FUNCTION {
                Instruction::CallFunction { dst: a, function: b, args_start: c, arg_count: d }
            } else {
                Instruction::MakeClosure { dst: a, function: b, captures_start: c, capture_count: d }
            }
        } else if opcode == OP_LOAD_CAPTURE || opcode == OP_LOAD_CAPTURE_CELL {
            let a = register_of(operands[0]);
            let b = capture_of(operands[1]);
            assert(operands@ =~= seq![Operand::Register(a), Operand::Capture(b)]);
            if opcode == OP_LOAD_CAPTURE {
                Instruction::LoadCapture { dst: a, capture: b }
            } else {
                Instruction::LoadCaptureCell { dst: a, capture: b }
            }
        } else if opcode == OP_STORE_CAPTURE {
            let a = capture_of(operands[0]);
            let b = register_of(operands[1]);
            assert(operands@ =~= seq![Operand::Capture(a), Operand::Register(b)]);
            Instruction::StoreCapture { capture: a, src: b }
        } else if opcode == OP_CALL_VALUE {
            let a = register_of(operands[0]);
            let b = register_of(operands[1]);
            let c = register_of(operands[2]);
            let d: u8 = count_of(operands[3]);
            assert(operands@ =~= seq![Operand::Register(a), Operand::Register(b), Operand::Register(c), Operand::Count(d)]);
            Instruction::CallValue { dst: a, callee: b, args_start: c, arg_count: d }
        } else if opcode == OP_CALL_EXTENSION {
            let a = register_of(operands[0]);
            let b = text_of(operands[1]);
            let c = register_of(operands[2]);
            let d: u8 = count_of(operands[3]);
            assert(operands@ =~= seq![Operand::Register(a), Operand::Text(b), Operand::Register(c), Operand::Count(d)]);
            Instruction::CallExtension { dst: a, extension: b, args_start: c, arg_count: d }
        } else if opcode == OP_ARRAY_NEW || opcode == OP_MAP_NEW {
            let a = register_of(operands[0]);
            let b = register_of(operands[1]);
            let c: u8 = count_of(operands[2]);
            assert(operands@ =~= seq![Operand::Register(a), Operand::Register(b), Operand::Count(c)]);
            if opcode == OP_ARRAY_NEW {
                Instruction::ArrayNew { dst: a, elements_start: b, element_count: c }
            } else {
                Instruction::MapNew { dst: a, entries_start: b, entry_count: c }
            }
        } else if opcode == OP_FIELD_GET {
            let a = register_of(operands[0]);
            let b = register_of(operands[1]);
            let c = text_of(operands[2]);
            assert(operands@ =~= seq![Operand::Register(a), Operand::Register(b), Operand::Text(c)]);
            Instruction::FieldGet { dst: a, target: b, field: c }
        } else if opcode == OP_FIELD_SET {
            let a = register_of(operands[0]);
            let b = text_of(operands[1]);
            let c = register_of(operands[2]);
            assert(operands@ =~= seq![Operand::Register(a), Operand::Text(b), Operand::Register(c)]);
            Instruction::FieldSet { target: a, field: b, value: c }
        } else if opcode == OP_POP_HANDLER {
            assert(operands@ =~= Seq::empty());
            Instruction::PopHandler
        } else {
            let a = register_of(operands[0]);
            assert(operands@ =~= seq![Operand::Register(a)]);
            if opcode == OP_THROW {
                Instruction::Throw { src: a }
            } else {
                Instruction::Return { src: a }
            }
        }
    }
}

} // verus!
