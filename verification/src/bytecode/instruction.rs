//! Instructions and their typed operands.

use vstd::prelude::*;
use vstd::string::StringExecFns;

use crate::text::{decimal, push_decimal};

verus! {

/// Register operand index.
#[derive(Clone, Copy, Debug, PartialEq, Eq, Hash, PartialOrd, Ord, Structural)]
pub struct Register(pub u8);

/// Constant-pool operand index.
#[derive(Clone, Copy, Debug, PartialEq, Eq, Hash, PartialOrd, Ord, Structural)]
pub struct ConstId(pub u16);

/// String-pool operand index.
#[derive(Clone, Copy, Debug, PartialEq, Eq, Hash, PartialOrd, Ord, Structural)]
pub struct StringId(pub u16);

/// Function-table operand index.
#[derive(Clone, Copy, Debug, PartialEq, Eq, Hash, PartialOrd, Ord, Structural)]
pub struct FunctionId(pub u16);

/// Absolute instruction target used by jump instructions.
#[derive(Clone, Copy, Debug, PartialEq, Eq, Hash, PartialOrd, Ord, Structural)]
pub struct JumpTarget(pub u32);

/// Captured value operand index.
#[derive(Clone, Copy, Debug, PartialEq, Eq, Hash, PartialOrd, Ord, Structural)]
pub struct CaptureId(pub u8);

/// Register machine instruction set with explicit typed operands.
#[derive(Debug, PartialEq, Eq)]
pub enum Instruction {
    LoadConst { dst: Register, constant: ConstId },
    LoadString { dst: Register, string: StringId },
    Move { dst: Register, src: Register },
    Add { dst: Register, lhs: Register, rhs: Register },
    AddInt { dst: Register, lhs: Register, rhs: Register },
    Sub { dst: Register, lhs: Register, rhs: Register },
    SubInt { dst: Register, lhs: Register, rhs: Register },
    Mul { dst: Register, lhs: Register, rhs: Register },
    MulInt { dst: Register, lhs: Register, rhs: Register },
    Div { dst: Register, lhs: Register, rhs: Register },
    DivInt { dst: Register, lhs: Register, rhs: Register },
    Jump { target: JumpTarget },
    JumpIfFalse { condition: Register, target: JumpTarget },
    JumpIfTrue { condition: Register, target: JumpTarget },
    Equal { dst: Register, lhs: Register, rhs: Register },
    NotEqual { dst: Register, lhs: Register, rhs: Register },
    Less { dst: Register, lhs: Register, rhs: Register },
    LessInt { dst: Register, lhs: Register, rhs: Register },
    LessEqual { dst: Register, lhs: Register, rhs: Register },
    LessEqualInt { dst: Register, lhs: Register, rhs: Register },
    Greater { dst: Register, lhs: Register, rhs: Register },
    GreaterInt { dst: Register, lhs: Register, rhs: Register },
    GreaterEqual { dst: Register, lhs: Register, rhs: Register },
    GreaterEqualInt { dst: Register, lhs: Register, rhs: Register },
    Not { dst: Register, src: Register },
    CallFunction { dst: Register, function: FunctionId, args_start: Register, arg_count: u8 },
    MakeUpvalue { dst: Register, src: Register },
    LoadUpvalue { dst: Register, upvalue: Register },
    StoreUpvalue { upvalue: Register, src: Register },
    MakeClosure { dst: Register, function: FunctionId, captures_start: Register, capture_count: u8 },
    LoadCapture { dst: Register, capture: CaptureId },
    LoadCaptureCell { dst: Register, capture: CaptureId },
    StoreCapture { capture: CaptureId, src: Register },
    CallValue { dst: Register, callee: Register, args_start: Register, arg_count: u8 },
    CallExtension { dst: Register, extension: StringId, args_start: Register, arg_count: u8 },
    ArrayNew { dst: Register, elements_start: Register, element_count: u8 },
    MapNew { dst: Register, entries_start: Register, entry_count: u8 },
    RecordNew { dst: Register, fields_start: Register, fields: Vec<StringId> },
    IndexGet { dst: Register, target: Register, index: Register },
    IndexSet { target: Register, index: Register, value: Register },
    ArrayGet { dst: Register, array: Register, index: Register },
    ArraySet { array: Register, index: Register, value: Register },
    FieldGet { dst: Register, target: Register, field: StringId },
    FieldSet { target: Register, field: StringId, value: Register },
    PushHandler { error: Register, target: JumpTarget },
    PopHandler,
    Throw { src: Register },
    Return { src: Register },
}

/// Opcode of `LoadConst`.
pub const OP_LOAD_CONST: u8 = 0;

/// Opcode of `LoadString`.
pub const OP_LOAD_STRING: u8 = 1;

/// Opcode of `Move`.
pub const OP_MOVE: u8 = 2;

/// Opcode of `Add`.
pub const OP_ADD: u8 = 3;

/// Opcode of `AddInt`.
pub const OP_ADD_INT: u8 = 39;

/// Opcode of `Sub`.
pub const OP_SUB: u8 = 4;

/// Opcode of `SubInt`.
pub const OP_SUB_INT: u8 = 40;

/// Opcode of `Mul`.
pub const OP_MUL: u8 = 5;

/// Opcode of `MulInt`.
pub const OP_MUL_INT: u8 = 41;

/// Opcode of `Div`.
pub const OP_DIV: u8 = 6;

/// Opcode of `DivInt`.
pub const OP_DIV_INT: u8 = 42;

/// Opcode of `Jump`.
pub const OP_JUMP: u8 = 7;

/// Opcode of `JumpIfFalse`.
pub const OP_JUMP_IF_FALSE: u8 = 8;

/// Opcode of `JumpIfTrue`.
pub const OP_JUMP_IF_TRUE: u8 = 9;

/// Opcode of `Equal`.
pub const OP_EQUAL: u8 = 10;

/// Opcode of `NotEqual`.
pub const OP_NOT_EQUAL: u8 = 11;

/// Opcode of `Less`.
pub const OP_LESS: u8 = 12;

/// Opcode of `LessInt`.
pub const OP_LESS_INT: u8 = 43;

/// Opcode of `LessEqual`.
pub const OP_LESS_EQUAL: u8 = 13;

/// Opcode of `LessEqualInt`.
pub const OP_LESS_EQUAL_INT: u8 = 44;

/// Opcode of `Greater`.
pub const OP_GREATER: u8 = 14;

/// Opcode of `GreaterInt`.
pub const OP_GREATER_INT: u8 = 45;

/// Opcode of `GreaterEqual`.
pub const OP_GREATER_EQUAL: u8 = 15;

/// Opcode of `GreaterEqualInt`.
pub const OP_GREATER_EQUAL_INT: u8 = 46;

/// Opcode of `Not`.
pub const OP_NOT: u8 = 16;

/// Opcode of `CallFunction`.
pub const OP_CALL_FUNCTION: u8 = 17;

/// Opcode of `MakeUpvalue`.
pub const OP_MAKE_UPVALUE: u8 = 28;

/// Opcode of `LoadUpvalue`.
pub const OP_LOAD_UPVALUE: u8 = 29;

/// Opcode of `StoreUpvalue`.
pub const OP_STORE_UPVALUE: u8 = 30;

/// Opcode of `MakeClosure`.
pub const OP_MAKE_CLOSURE: u8 = 25;

/// Opcode of `LoadCapture`.
pub const OP_LOAD_CAPTURE: u8 = 26;

/// Opcode of `LoadCaptureCell`.
pub const OP_LOAD_CAPTURE_CELL: u8 = 31;

/// Opcode of `StoreCapture`.
pub const OP_STORE_CAPTURE: u8 = 32;

/// Opcode of `CallValue`.
pub const OP_CALL_VALUE: u8 = 27;

/// Opcode of `CallExtension`.
pub const OP_CALL_EXTENSION: u8 = 47;

/// Opcode of `ArrayNew`.
pub const OP_ARRAY_NEW: u8 = 18;

/// Opcode of `MapNew`.
pub const OP_MAP_NEW: u8 = 19;

/// Opcode of `RecordNew`.
pub const OP_RECORD_NEW: u8 = 36;

/// Opcode of `IndexGet`.
pub const OP_INDEX_GET: u8 = 20;

/// Opcode of `IndexSet`.
pub const OP_INDEX_SET: u8 = 21;

/// Opcode of `ArrayGet`.
pub const OP_ARRAY_GET: u8 = 22;

/// Opcode of `ArraySet`.
pub const OP_ARRAY_SET: u8 = 23;

/// Opcode of `FieldGet`.
pub const OP_FIELD_GET: u8 = 37;

/// Opcode of `FieldSet`.
pub const OP_FIELD_SET: u8 = 38;

/// Opcode of `PushHandler`.
pub const OP_PUSH_HANDLER: u8 = 33;

/// Opcode of `PopHandler`.
pub const OP_POP_HANDLER: u8 = 34;

/// Opcode of `Throw`.
pub const OP_THROW: u8 = 35;

/// Opcode of `Return`.
pub const OP_RETURN: u8 = 24;

/// One operand of an instruction.
#[derive(Clone, Copy, Debug, PartialEq, Eq, Structural)]
pub enum Operand {
    Register(Register),
    Constant(ConstId),
    Text(StringId),
    Function(FunctionId),
    Target(JumpTarget),
    Capture(CaptureId),
    /// A number of registers.
    Count(u8),
}

/// An instruction as an opcode with its operand list.
#[verifier::ext_equal]
pub struct InstructionView {
    pub opcode: u8,
    pub operands: Seq<Operand>,
}

/// String ids as operands.
pub open spec fn text_operands(ids: Seq<StringId>) -> Seq<Operand> {
    Seq::new(ids.len(), |i: int| Operand::Text(ids[i]))
}

/// A field count as it is recorded in one byte.
pub open spec fn field_count_byte(n: nat) -> u8 {
    if n < 256 {
        n as u8
    } else {
        255
    }
}

impl View for Instruction {
    type V = InstructionView;

    open spec fn view(&self) -> InstructionView {
        InstructionView { opcode: self.opcode(), operands: self.operands() }
    }
}

impl Instruction {
    /// The opcode of the instruction.
    pub open spec fn opcode(self) -> u8 {
        match self {
            Instruction::LoadConst { .. } => OP_LOAD_CONST,
            Instruction::LoadString { .. } => OP_LOAD_STRING,
            Instruction::Move { .. } => OP_MOVE,
            Instruction::Add { .. } => OP_ADD,
            Instruction::AddInt { .. } => OP_ADD_INT,
            Instruction::Sub { .. } => OP_SUB,
            Instruction::SubInt { .. } => OP_SUB_INT,
            Instruction::Mul { .. } => OP_MUL,
            Instruction::MulInt { .. } => OP_MUL_INT,
            Instruction::Div { .. } => OP_DIV,
            Instruction::DivInt { .. } => OP_DIV_INT,
            Instruction::Jump { .. } => OP_JUMP,
            Instruction::JumpIfFalse { .. } => OP_JUMP_IF_FALSE,
            Instruction::JumpIfTrue { .. } => OP_JUMP_IF_TRUE,
            Instruction::Equal { .. } => OP_EQUAL,
            Instruction::NotEqual { .. } => OP_NOT_EQUAL,
            Instruction::Less { .. } => OP_LESS,
            Instruction::LessInt { .. } => OP_LESS_INT,
            Instruction::LessEqual { .. } => OP_LESS_EQUAL,
            Instruction::LessEqualInt { .. } => OP_LESS_EQUAL_INT,
            Instruction::Greater { .. } => OP_GREATER,
            Instruction::GreaterInt { .. } => OP_GREATER_INT,
            Instruction::GreaterEqual { .. } => OP_GREATER_EQUAL,
            Instruction::GreaterEqualInt { .. } => OP_GREATER_EQUAL_INT,
            Instruction::Not { .. } => OP_NOT,
            Instruction::CallFunction { .. } => OP_CALL_FUNCTION,
            Instruction::MakeUpvalue { .. } => OP_MAKE_UPVALUE,
            Instruction::LoadUpvalue { .. } => OP_LOAD_UPVALUE,
            Instruction::StoreUpvalue { .. } => OP_STORE_UPVALUE,
            Instruction::MakeClosure { .. } => OP_MAKE_CLOSURE,
            Instruction::LoadCapture { .. } => OP_LOAD_CAPTURE,
            Instruction::LoadCaptureCell { .. } => OP_LOAD_CAPTURE_CELL,
            Instruction::StoreCapture { .. } => OP_STORE_CAPTURE,
            Instruction::CallValue { .. } => OP_CALL_VALUE,
            Instruction::CallExtension { .. } => OP_CALL_EXTENSION,
            Instruction::ArrayNew { .. } => OP_ARRAY_NEW,
            Instruction::MapNew { .. } => OP_MAP_NEW,
            Instruction::RecordNew { .. } => OP_RECORD_NEW,
            Instruction::IndexGet { .. } => OP_INDEX_GET,
            Instruction::IndexSet { .. } => OP_INDEX_SET,
            Instruction::ArrayGet { .. } => OP_ARRAY_GET,
            Instruction::ArraySet { .. } => OP_ARRAY_SET,
            Instruction::FieldGet { .. } => OP_FIELD_GET,
            Instruction::FieldSet { .. } => OP_FIELD_SET,
            Instruction::PushHandler { .. } => OP_PUSH_HANDLER,
            Instruction::PopHandler => OP_POP_HANDLER,
            Instruction::Throw { .. } => OP_THROW,
            Instruction::Return { .. } => OP_RETURN,
        }
    }

    /// The operands of the instruction, in order.
    pub open spec fn operands(self) -> Seq<Operand> {
        match self {
            Instruction::LoadConst { dst, constant } => seq![Operand::Register(dst), Operand::Constant(constant)],
            Instruction::LoadString { dst, string } => seq![Operand::Register(dst), Operand::Text(string)],
            Instruction::Move { dst, src } => seq![Operand::Register(dst), Operand::Register(src)],
            Instruction::Add { dst, lhs, rhs } => seq![Operand::Register(dst), Operand::Register(lhs), Operand::Register(rhs)],
            Instruction::AddInt { dst, lhs, rhs } => seq![Operand::Register(dst), Operand::Register(lhs), Operand::Register(rhs)],
            Instruction::Sub { dst, lhs, rhs } => seq![Operand::Register(dst), Operand::Register(lhs), Operand::Register(rhs)],
            Instruction::SubInt { dst, lhs, rhs } => seq![Operand::Register(dst), Operand::Register(lhs), Operand::Register(rhs)],
            Instruction::Mul { dst, lhs, rhs } => seq![Operand::Register(dst), Operand::Register(lhs), Operand::Register(rhs)],
            Instruction::MulInt { dst, lhs, rhs } => seq![Operand::Register(dst), Operand::Register(lhs), Operand::Register(rhs)],
            Instruction::Div { dst, lhs, rhs } => seq![Operand::Register(dst), Operand::Register(lhs), Operand::Register(rhs)],
            Instruction::DivInt { dst, lhs, rhs } => seq![Operand::Register(dst), Operand::Register(lhs), Operand::Register(rhs)],
            Instruction::Jump { target } => seq![Operand::Target(target)],
            Instruction::JumpIfFalse { condition, target } => seq![Operand::Register(condition), Operand::Target(target)],
            Instruction::JumpIfTrue { condition, target } => seq![Operand::Register(condition), Operand::Target(target)],
            Instruction::Equal { dst, lhs, rhs } => seq![Operand::Register(dst), Operand::Register(lhs), Operand::Register(rhs)],
            Instruction::NotEqual { dst, lhs, rhs } => seq![Operand::Register(dst), Operand::Register(lhs), Operand::Register(rhs)],
            Instruction::Less { dst, lhs, rhs } => seq![Operand::Register(dst), Operand::Register(lhs), Operand::Register(rhs)],
            Instruction::LessInt { dst, lhs, rhs } => seq![Operand::Register(dst), Operand::Register(lhs), Operand::Register(rhs)],
            Instruction::LessEqual { dst, lhs, rhs } => seq![Operand::Register(dst), Operand::Register(lhs), Operand::Register(rhs)],
            Instruction::LessEqualInt { dst, lhs, rhs } => seq![Operand::Register(dst), Operand::Register(lhs), Operand::Register(rhs)],
            Instruction::Greater { dst, lhs, rhs } => seq![Operand::Register(dst), Operand::Register(lhs), Operand::Register(rhs)],
            Instruction::GreaterInt { dst, lhs, rhs } => seq![Operand::Register(dst), Operand::Register(lhs), Operand::Register(rhs)],
            Instruction::GreaterEqual { dst, lhs, rhs } => seq![Operand::Register(dst), Operand::Register(lhs), Operand::Register(rhs)],
            Instruction::GreaterEqualInt { dst, lhs, rhs } => seq![Operand::Register(dst), Operand::Register(lhs), Operand::Register(rhs)],
            Instruction::Not { dst, src } => seq![Operand::Register(dst), Operand::Register(src)],
            Instruction::CallFunction { dst, function, args_start, arg_count } => seq![Operand::Register(dst), Operand::Function(function), Operand::Register(args_start), Operand::Count(arg_count)],
            Instruction::MakeUpvalue { dst, src } => seq![Operand::Register(dst), Operand::Register(src)],
            Instruction::LoadUpvalue { dst, upvalue } => seq![Operand::Register(dst), Operand::Register(upvalue)],
            Instruction::StoreUpvalue { upvalue, src } => seq![Operand::Register(upvalue), Operand::Register(src)],
            Instruction::MakeClosure { dst, function, captures_start, capture_count } => seq![Operand::Register(dst), Operand::Function(function), Operand::Register(captures_start), Operand::Count(capture_count)],
            Instruction::LoadCapture { dst, capture } => seq![Operand::Register(dst), Operand::Capture(capture)],
            Instruction::LoadCaptureCell { dst, capture } => seq![Operand::Register(dst), Operand::Capture(capture)],
            Instruction::StoreCapture { capture, src } => seq![Operand::Capture(capture), Operand::Register(src)],
            Instruction::CallValue { dst, callee, args_start, arg_count } => seq![Operand::Register(dst), Operand::Register(callee), Operand::Register(args_start), Operand::Count(arg_count)],
            Instruction::CallExtension { dst, extension, args_start, arg_count } => seq![Operand::Register(dst), Operand::Text(extension), Operand::Register(args_start), Operand::Count(arg_count)],
            Instruction::ArrayNew { dst, elements_start, element_count } => seq![Operand::Register(dst), Operand::Register(elements_start), Operand::Count(element_count)],
            Instruction::MapNew { dst, entries_start, entry_count } => seq![Operand::Register(dst), Operand::Register(entries_start), Operand::Count(entry_count)],
            Instruction::RecordNew { dst, fields_start, fields } => seq![
                Operand::Register(dst),
                Operand::Register(fields_start),
                Operand::Count(field_count_byte(fields@.len())),
            ] + text_operands(fields@),
            Instruction::IndexGet { dst, target, index } => seq![Operand::Register(dst), Operand::Register(target), Operand::Register(index)],
            Instruction::IndexSet { target, index, value } => seq![Operand::Register(target), Operand::Register(index), Operand::Register(value)],
            Instruction::ArrayGet { dst, array, index } => seq![Operand::Register(dst), Operand::Register(array), Operand::Register(index)],
            Instruction::ArraySet { array, index, value } => seq![Operand::Register(array), Operand::Register(index), Operand::Register(value)],
            Instruction::FieldGet { dst, target, field } => seq![Operand::Register(dst), Operand::Register(target), Operand::Text(field)],
            Instruction::FieldSet { target, field, value } => seq![Operand::Register(target), Operand::Text(field), Operand::Register(value)],
            Instruction::PushHandler { error, target } => seq![Operand::Register(error), Operand::Target(target)],
            Instruction::PopHandler => seq![],
            Instruction::Throw { src } => seq![Operand::Register(src)],
            Instruction::Return { src } => seq![Operand::Register(src)],
        }
    }
}

/// The register operands among `operands`, in order.
pub open spec fn registers_in(operands: Seq<Operand>) -> Seq<Register>
    decreases operands.len(),
{
    if operands.len() == 0 {
        Seq::empty()
    } else {
        let before = registers_in(operands.drop_last());
        match operands.last() {
            Operand::Register(r) => before.push(r),
            _ => before,
        }
    }
}

/// The string operands among `operands`, in order.
pub open spec fn texts_in(operands: Seq<Operand>) -> Seq<StringId>
    decreases operands.len(),
{
    if operands.len() == 0 {
        Seq::empty()
    } else {
        let before = texts_in(operands.drop_last());
        match operands.last() {
            Operand::Text(s) => before.push(s),
            _ => before,
        }
    }
}

/// String operands behind others add no registers, and stand behind the other strings.
pub proof fn lemma_text_operands_behind(front: Seq<Operand>, ids: Seq<StringId>)
    ensures
        registers_in(front + text_operands(ids)) == registers_in(front),
        texts_in(front + text_operands(ids)) == texts_in(front) + ids,
    decreases ids.len(),
{
    let all = front + text_operands(ids);
    if ids.len() == 0 {
        assert(all =~= front);
    } else {
        lemma_text_operands_behind(front, ids.drop_last());
        assert(all.drop_last() =~= front + text_operands(ids.drop_last()));
        assert(all.last() == Operand::Text(ids.last()));
        assert(texts_in(front) + ids =~= (texts_in(front) + ids.drop_last()).push(ids.last()));
    }
}

impl InstructionView {
    /// Every register operand, in order.
    pub open spec fn registers(self) -> Seq<Register> {
        registers_in(self.operands)
    }

    /// Every string operand, in order.
    pub open spec fn texts(self) -> Seq<StringId> {
        texts_in(self.operands)
    }

    /// The constant operand; only the second operand can be one.
    pub open spec fn constant(self) -> Option<ConstId> {
        if self.operands.len() == 2 {
            match self.operands[1] {
                Operand::Constant(c) => Some(c),
                _ => None,
            }
        } else {
            None
        }
    }

    /// The jump target; only the last operand can be one.
    pub open spec fn target(self) -> Option<JumpTarget> {
        if self.operands.len() > 0 {
            match self.operands.last() {
                Operand::Target(t) => Some(t),
                _ => None,
            }
        } else {
            None
        }
    }

    /// The function operand; only the second operand can be one.
    pub open spec fn function(self) -> Option<FunctionId> {
        if self.operands.len() > 1 {
            match self.operands[1] {
                Operand::Function(f) => Some(f),
                _ => None,
            }
        } else {
            None
        }
    }

    /// The capture operand: one of the two operands of a capture access.
    pub open spec fn capture(self) -> Option<CaptureId> {
        if self.operands.len() == 2 {
            match (self.operands[0], self.operands[1]) {
                (Operand::Capture(c), _) => Some(c),
                (_, Operand::Capture(c)) => Some(c),
                _ => None,
            }
        } else {
            None
        }
    }
}

impl Instruction {
    /// Returns every register mentioned by this instruction.
    pub fn register_operands(&self) -> (registers: Vec<Register>)
        ensures
            registers@ == self@.registers(),
    {
        proof {
            reveal_with_fuel(registers_in, 5);
        }
        match self {
            Instruction::LoadConst { dst, .. } => vec![*dst],
            Instruction::LoadString { dst, .. } => vec![*dst],
            Instruction::Move { dst, src } => vec![*dst, *src],
            Instruction::Add { dst, lhs, rhs } => vec![*dst, *lhs, *rhs],
            Instruction::AddInt { dst, lhs, rhs } => vec![*dst, *lhs, *rhs],
            Instruction::Sub { dst, lhs, rhs } => vec![*dst, *lhs, *rhs],
            Instruction::SubInt { dst, lhs, rhs } => vec![*dst, *lhs, *rhs],
            Instruction::Mul { dst, lhs, rhs } => vec![*dst, *lhs, *rhs],
            Instruction::MulInt { dst, lhs, rhs } => vec![*dst, *lhs, *rhs],
            Instruction::Div { dst, lhs, rhs } => vec![*dst, *lhs, *rhs],
            Instruction::DivInt { dst, lhs, rhs } => vec![*dst, *lhs, *rhs],
            Instruction::Jump { .. } => Vec::new(),
            Instruction::JumpIfFalse { condition, .. } => vec![*condition],
            Instruction::JumpIfTrue { condition, .. } => vec![*condition],
            Instruction::Equal { dst, lhs, rhs } => vec![*dst, *lhs, *rhs],
            Instruction::NotEqual { dst, lhs, rhs } => vec![*dst, *lhs, *rhs],
            Instruction::Less { dst, lhs, rhs } => vec![*dst, *lhs, *rhs],
            Instruction::LessInt { dst, lhs, rhs } => vec![*dst, *lhs, *rhs],
            Instruction::LessEqual { dst, lhs, rhs } => vec![*dst, *lhs, *rhs],
            Instruction::LessEqualInt { dst, lhs, rhs } => vec![*dst, *lhs, *rhs],
            Instruction::Greater { dst, lhs, rhs } => vec![*dst, *lhs, *rhs],
            Instruction::GreaterInt { dst, lhs, rhs } => vec![*dst, *lhs, *rhs],
            Instruction::GreaterEqual { dst, lhs, rhs } => vec![*dst, *lhs, *rhs],
            Instruction::GreaterEqualInt { dst, lhs, rhs } => vec![*dst, *lhs, *rhs],
            Instruction::Not { dst, src } => vec![*dst, *src],
            Instruction::CallFunction { dst, args_start, .. } => vec![*dst, *args_start],
            Instruction::MakeUpvalue { dst, src } => vec![*dst, *src],
            Instruction::LoadUpvalue { dst, upvalue } => vec![*dst, *upvalue],
            Instruction::StoreUpvalue { upvalue, src } => vec![*upvalue, *src],
            Instruction::MakeClosure { dst, captures_start, .. } => vec![*dst, *captures_start],
            Instruction::LoadCapture { dst, .. } => vec![*dst],
            Instruction::LoadCaptureCell { dst, .. } => vec![*dst],
            Instruction::StoreCapture { src, .. } => vec![*src],
            Instruction::CallValue { dst, callee, args_start, .. } => vec![*dst, *callee, *args_start],
            Instruction::CallExtension { dst, args_start, .. } => vec![*dst, *args_start],
            Instruction::ArrayNew { dst, elements_start, .. } => vec![*dst, *elements_start],
            Instruction::MapNew { dst, entries_start, .. } => vec![*dst, *entries_start],
            Instruction::RecordNew { dst, fields_start, fields } => {
                let registers = vec![*dst, *fields_start];
                proof {
                    let front = seq![
                        Operand::Register(*dst),
                        Operand::Register(*fields_start),
                        Operand::Count(field_count_byte(fields@.len())),
                    ];
                    lemma_text_operands_behind(front, fields@);
                    assert(registers@ == registers_in(front));
                }
                registers
            },
            Instruction::IndexGet { dst, target, index } => vec![*dst, *target, *index],
            Instruction::IndexSet { target, index, value } => vec![*target, *index, *value],
            Instruction::ArrayGet { dst, array, index } => vec![*dst, *array, *index],
            Instruction::ArraySet { array, index, value } => vec![*array, *index, *value],
            Instruction::FieldGet { dst, target, .. } => vec![*dst, *target],
            Instruction::FieldSet { target, value, .. } => vec![*target, *value],
            Instruction::PushHandler { error, .. } => vec![*error],
            Instruction::PopHandler => Vec::new(),
            Instruction::Throw { src } => vec![*src],
            Instruction::Return { src } => vec![*src],
        }
    }

    /// Returns the constant operand, if the instruction has one.
    pub fn const_operand(&self) -> (operand: Option<ConstId>)
        ensures
            operand == self@.constant(),
    {
        match self {
            Instruction::LoadConst { constant, .. } => Some(*constant),
            _ => None,
        }
    }

    /// Returns every string-pool operand mentioned by this instruction.
    pub fn string_operands(&self) -> (strings: Vec<StringId>)
        ensures
            strings@ == self@.texts(),
    {
        proof {
            reveal_with_fuel(texts_in, 5);
        }
        match self {
            Instruction::LoadString { string, .. } => vec![*string],
            Instruction::RecordNew { dst, fields_start, fields } => {
                let strings = clone_string_ids(fields);
                proof {
                    let front = seq![
                        Operand::Register(*dst),
                        Operand::Register(*fields_start),
                        Operand::Count(field_count_byte(fields@.len())),
                    ];
                    lemma_text_operands_behind(front, fields@);
                    assert(texts_in(front) =~= Seq::empty());
                    assert(strings@ == fields@);
                    assert(texts_in(front) + fields@ =~= fields@);
                }
                strings
            },
            Instruction::CallExtension { extension, .. } => vec![*extension],
            Instruction::FieldGet { field, .. } => vec![*field],
            Instruction::FieldSet { field, .. } => vec![*field],
            _ => Vec::new(),
        }
    }

    /// Returns the jump target, if the instruction has one.
    pub fn jump_operand(&self) -> (operand: Option<JumpTarget>)
        ensures
            operand == self@.target(),
    {
        match self {
            Instruction::Jump { target } => Some(*target),
            Instruction::JumpIfFalse { target, .. } => Some(*target),
            Instruction::JumpIfTrue { target, .. } => Some(*target),
            Instruction::PushHandler { target, .. } => Some(*target),
            Instruction::RecordNew { dst, fields_start, fields } => {
                assert(fields@.len() > 0 ==> self@.operands.last() == Operand::Text(fields@.last()));
                None
            },
            _ => None,
        }
    }

    /// Returns the function operand, if the instruction has one.
    pub fn function_operand(&self) -> (operand: Option<FunctionId>)
        ensures
            operand == self@.function(),
    {
        match self {
            Instruction::CallFunction { function, .. } => Some(*function),
            Instruction::MakeClosure { function, .. } => Some(*function),
            _ => None,
        }
    }

    /// Returns the capture operand, if the instruction has one.
    pub fn capture_operand(&self) -> (operand: Option<CaptureId>)
        ensures
            operand == self@.capture(),
    {
        match self {
            Instruction::LoadCapture { capture, .. } => Some(*capture),
            Instruction::LoadCaptureCell { capture, .. } => Some(*capture),
            Instruction::StoreCapture { capture, .. } => Some(*capture),
            _ => None,
        }
    }
}

/// Copies a list of string ids.
pub fn clone_string_ids(ids: &Vec<StringId>) -> (copy: Vec<StringId>)
    ensures
        copy@ == ids@,
{
    let mut copy: Vec<StringId> = Vec::new();
    let mut i: usize = 0;
    while i < ids.len()
        invariant
            i <= ids@.len(),
            copy@ == ids@.take(i as int),
        decreases ids.len() - i,
    {
        copy.push(ids[i]);
        i = i + 1;
    }
    assert(copy@ == ids@);
    copy
}

impl Clone for Instruction {
    fn clone(&self) -> (copy: Self)
        ensures
            copy@ == self@,
            !(self is RecordNew) ==> copy == *self,
    {
        match self {
            Instruction::LoadConst { dst, constant } => Instruction::LoadConst { dst: *dst, constant: *constant },
            Instruction::LoadString { dst, string } => Instruction::LoadString { dst: *dst, string: *string },
            Instruction::Move { dst, src } => Instruction::Move { dst: *dst, src: *src },
            Instruction::Add { dst, lhs, rhs } => Instruction::Add { dst: *dst, lhs: *lhs, rhs: *rhs },
            Instruction::AddInt { dst, lhs, rhs } => Instruction::AddInt { dst: *dst, lhs: *lhs, rhs: *rhs },
            Instruction::Sub { dst, lhs, rhs } => Instruction::Sub { dst: *dst, lhs: *lhs, rhs: *rhs },
            Instruction::SubInt { dst, lhs, rhs } => Instruction::SubInt { dst: *dst, lhs: *lhs, rhs: *rhs },
            Instruction::Mul { dst, lhs, rhs } => Instruction::Mul { dst: *dst, lhs: *lhs, rhs: *rhs },
            Instruction::MulInt { dst, lhs, rhs } => Instruction::MulInt { dst: *dst, lhs: *lhs, rhs: *rhs },
            Instruction::Div { dst, lhs, rhs } => Instruction::Div { dst: *dst, lhs: *lhs, rhs: *rhs },
            Instruction::DivInt { dst, lhs, rhs } => Instruction::DivInt { dst: *dst, lhs: *lhs, rhs: *rhs },
            Instruction::Jump { target } => Instruction::Jump { target: *target },
            Instruction::JumpIfFalse { condition, target } => Instruction::JumpIfFalse { condition: *condition, target: *target },
            Instruction::JumpIfTrue { condition, target } => Instruction::JumpIfTrue { condition: *condition, target: *target },
            Instruction::Equal { dst, lhs, rhs } => Instruction::Equal { dst: *dst, lhs: *lhs, rhs: *rhs },
            Instruction::NotEqual { dst, lhs, rhs } => Instruction::NotEqual { dst: *dst, lhs: *lhs, rhs: *rhs },
            Instruction::Less { dst, lhs, rhs } => Instruction::Less { dst: *dst, lhs: *lhs, rhs: *rhs },
            Instruction::LessInt { dst, lhs, rhs } => Instruction::LessInt { dst: *dst, lhs: *lhs, rhs: *rhs },
            Instruction::LessEqual { dst, lhs, rhs } => Instruction::LessEqual { dst: *dst, lhs: *lhs, rhs: *rhs },
            Instruction::LessEqualInt { dst, lhs, rhs } => Instruction::LessEqualInt { dst: *dst, lhs: *lhs, rhs: *rhs },
            Instruction::Greater { dst, lhs, rhs } => Instruction::Greater { dst: *dst, lhs: *lhs, rhs: *rhs },
            Instruction::GreaterInt { dst, lhs, rhs } => Instruction::GreaterInt { dst: *dst, lhs: *lhs, rhs: *rhs },
            Instruction::GreaterEqual { dst, lhs, rhs } => Instruction::GreaterEqual { dst: *dst, lhs: *lhs, rhs: *rhs },
            Instruction::GreaterEqualInt { dst, lhs, rhs } => Instruction::GreaterEqualInt { dst: *dst, lhs: *lhs, rhs: *rhs },
            Instruction::Not { dst, src } => Instruction::Not { dst: *dst, src: *src },
            Instruction::CallFunction { dst, function, args_start, arg_count } => Instruction::CallFunction { dst: *dst, function: *function, args_start: *args_start, arg_count: *arg_count },
            Instruction::MakeUpvalue { dst, src } => Instruction::MakeUpvalue { dst: *dst, src: *src },
            Instruction::LoadUpvalue { dst, upvalue } => Instruction::LoadUpvalue { dst: *dst, upvalue: *upvalue },
            Instruction::StoreUpvalue { upvalue, src } => Instruction::StoreUpvalue { upvalue: *upvalue, src: *src },
            Instruction::MakeClosure { dst, function, captures_start, capture_count } => Instruction::MakeClosure { dst: *dst, function: *function, captures_start: *captures_start, capture_count: *capture_count },
            Instruction::LoadCapture { dst, capture } => Instruction::LoadCapture { dst: *dst, capture: *capture },
            Instruction::LoadCaptureCell { dst, capture } => Instruction::LoadCaptureCell { dst: *dst, capture: *capture },
            Instruction::StoreCapture { capture, src } => Instruction::StoreCapture { capture: *capture, src: *src },
            Instruction::CallValue { dst, callee, args_start, arg_count } => Instruction::CallValue { dst: *dst, callee: *callee, args_start: *args_start, arg_count: *arg_count },
            Instruction::CallExtension { dst, extension, args_start, arg_count } => Instruction::CallExtension { dst: *dst, extension: *extension, args_start: *args_start, arg_count: *arg_count },
            Instruction::ArrayNew { dst, elements_start, element_count } => Instruction::ArrayNew { dst: *dst, elements_start: *elements_start, element_count: *element_count },
            Instruction::MapNew { dst, entries_start, entry_count } => Instruction::MapNew { dst: *dst, entries_start: *entries_start, entry_count: *entry_count },
            Instruction::RecordNew { dst, fields_start, fields } => Instruction::RecordNew {
                dst: *dst,
                fields_start: *fields_start,
                fields: clone_string_ids(fields),
            },
            Instruction::IndexGet { dst, target, index } => Instruction::IndexGet { dst: *dst, target: *target, index: *index },
            Instruction::IndexSet { target, index, value } => Instruction::IndexSet { target: *target, index: *index, value: *value },
            Instruction::ArrayGet { dst, array, index } => Instruction::ArrayGet { dst: *dst, array: *array, index: *index },
            Instruction::ArraySet { array, index, value } => Instruction::ArraySet { array: *array, index: *index, value: *value },
            Instruction::FieldGet { dst, target, field } => Instruction::FieldGet { dst: *dst, target: *target, field: *field },
            Instruction::FieldSet { target, field, value } => Instruction::FieldSet { target: *target, field: *field, value: *value },
            Instruction::PushHandler { error, target } => Instruction::PushHandler { error: *error, target: *target },
            Instruction::PopHandler => Instruction::PopHandler,
            Instruction::Throw { src } => Instruction::Throw { src: *src },
            Instruction::Return { src } => Instruction::Return { src: *src },
        }
    }
}

impl Register {
    /// The text `rN`.
    pub open spec fn text(self) -> Seq<char> {
        "r"@ + decimal(self.0 as nat)
    }

    /// Renders the register as `rN`.
    pub fn to_string(&self) -> (s: String)
        ensures
            s@ == self.text(),
    {
        let mut s = String::from_str("r");
        push_decimal(&mut s, self.0 as u64);
        s
    }
}

impl ConstId {
    /// The text `#N`.
    pub open spec fn text(self) -> Seq<char> {
        "#"@ + decimal(self.0 as nat)
    }

    /// Renders the constant id as `#N`.
    pub fn to_string(&self) -> (s: String)
        ensures
            s@ == self.text(),
    {
        let mut s = String::from_str("#");
        push_decimal(&mut s, self.0 as u64);
        s
    }
}

impl StringId {
    /// The text `str#N`.
    pub open spec fn text(self) -> Seq<char> {
        "str#"@ + decimal(self.0 as nat)
    }

    /// Renders the string id as `str#N`.
    pub fn to_string(&self) -> (s: String)
        ensures
            s@ == self.text(),
    {
        let mut s = String::from_str("str#");
        push_decimal(&mut s, self.0 as u64);
        s
    }
}

impl FunctionId {
    /// The text `fn#N`.
    pub open spec fn text(self) -> Seq<char> {
        "fn#"@ + decimal(self.0 as nat)
    }

    /// Renders the function id as `fn#N`.
    pub fn to_string(&self) -> (s: String)
        ensures
            s@ == self.text(),
    {
        let mut s = String::from_str("fn#");
        push_decimal(&mut s, self.0 as u64);
        s
    }
}

impl CaptureId {
    /// The text `cap#N`.
    pub open spec fn text(self) -> Seq<char> {
        "cap#"@ + decimal(self.0 as nat)
    }

    /// Renders the capture id as `cap#N`.
    pub fn to_string(&self) -> (s: String)
        ensures
            s@ == self.text(),
    {
        let mut s = String::from_str("cap#");
        push_decimal(&mut s, self.0 as u64);
        s
    }
}

impl JumpTarget {
    /// The text `@N`.
    pub open spec fn text(self) -> Seq<char> {
        "@"@ + decimal(self.0 as nat)
    }

    /// Renders the jump target as `@N`.
    pub fn to_string(&self) -> (s: String)
        ensures
            s@ == self.text(),
    {
        let mut s = String::from_str("@");
        push_decimal(&mut s, self.0 as u64);
        s
    }
}

} // verus!
