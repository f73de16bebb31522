//! The text of a chunk or a program, line by line.

use vstd::prelude::*;

use crate::bytecode::chunk::Chunk;
use crate::bytecode::disassembler::{
    chunk_header, chunk_text, constant_lines, constants_section, function_text, function_texts,
    instruction_lines, instruction_text, joined_operands, load_comment, local_lines, locals_section,
    operand_text, program_text, string_lines, strings_section, Floats,
};
use crate::bytecode::instruction::{
    field_count_byte, text_operands, CaptureId, ConstId, FunctionId, Instruction, JumpTarget,
    Operand, Register, StringId,
};
use crate::bytecode::program::{Function, FunctionKind, Program};
use crate::text::{decimal, pad_right, quoted, repeated, zero_padded};
use crate::value::value_debug_text;

verus! {

// ---------------------------------------------------------------------------
// Instructions
// ---------------------------------------------------------------------------

pub open spec fn register_text(r: Register) -> Seq<char> {
    "r"@ + decimal(r.0 as nat)
}

pub open spec fn constant_text(c: ConstId) -> Seq<char> {
    "#"@ + decimal(c.0 as nat)
}

pub open spec fn string_text(s: StringId) -> Seq<char> {
    "str#"@ + decimal(s.0 as nat)
}

pub open spec fn function_id_text(f: FunctionId) -> Seq<char> {
    "fn#"@ + decimal(f.0 as nat)
}

pub open spec fn target_text(t: JumpTarget) -> Seq<char> {
    "@"@ + decimal(t.0 as nat)
}

pub open spec fn captured_text(c: CaptureId) -> Seq<char> {
    "cap#"@ + decimal(c.0 as nat)
}

/// A name with what keeps it apart from the operands in their column.
pub open spec fn in_column(name: Seq<char>) -> Seq<char> {
    if name.len() < 11 {
        name + repeated(' ', (11 - name.len()) as nat) + " "@
    } else {
        name + " "@
    }
}

/// The first `n` of some strings, separated by commas.
pub open spec fn names_joined(strings: Seq<StringId>, n: nat) -> Seq<char>
    decreases n,
{
    if n == 0 {
        Seq::empty()
    } else if n == 1 {
        string_text(strings[0])
    } else {
        names_joined(strings, (n - 1) as nat) + ", "@ + string_text(strings[n - 1])
    }
}

/// An instruction in writing: its name and its operands in order.
pub open spec fn shown(instruction: Instruction) -> Seq<char> {
    match instruction {
        Instruction::LoadConst { dst, constant } => in_column("LoadConst"@) + register_text(dst) + ", "@ + constant_text(constant),
        Instruction::LoadString { dst, string } => in_column("LoadString"@) + register_text(dst) + ", "@ + string_text(string),
        Instruction::Move { dst, src } => in_column("Move"@) + register_text(dst) + ", "@ + register_text(src),
        Instruction::Add { dst, lhs, rhs } => in_column("Add"@) + register_text(dst) + ", "@ + register_text(lhs) + ", "@ + register_text(rhs),
        Instruction::AddInt { dst, lhs, rhs } => in_column("AddInt"@) + register_text(dst) + ", "@ + register_text(lhs) + ", "@ + register_text(rhs),
        Instruction::Sub { dst, lhs, rhs } => in_column("Sub"@) + register_text(dst) + ", "@ + register_text(lhs) + ", "@ + register_text(rhs),
        Instruction::SubInt { dst, lhs, rhs } => in_column("SubInt"@) + register_text(dst) + ", "@ + register_text(lhs) + ", "@ + register_text(rhs),
        Instruction::Mul { dst, lhs, rhs } => in_column("Mul"@) + register_text(dst) + ", "@ + register_text(lhs) + ", "@ + register_text(rhs),
        Instruction::MulInt { dst, lhs, rhs } => in_column("MulInt"@) + register_text(dst) + ", "@ + register_text(lhs) + ", "@ + register_text(rhs),
        Instruction::Div { dst, lhs, rhs } => in_column("Div"@) + register_text(dst) + ", "@ + register_text(lhs) + ", "@ + register_text(rhs),
        Instruction::DivInt { dst, lhs, rhs } => in_column("DivInt"@) + register_text(dst) + ", "@ + register_text(lhs) + ", "@ + register_text(rhs),
        Instruction::Jump { target } => in_column("Jump"@) + target_text(target),
        Instruction::JumpIfFalse { condition, target } => in_column("JumpIfFalse"@) + register_text(condition) + ", "@ + target_text(target),
        Instruction::JumpIfTrue { condition, target } => in_column("JumpIfTrue"@) + register_text(condition) + ", "@ + target_text(target),
        Instruction::Equal { dst, lhs, rhs } => in_column("Equal"@) + register_text(dst) + ", "@ + register_text(lhs) + ", "@ + register_text(rhs),
        Instruction::NotEqual { dst, lhs, rhs } => in_column("NotEqual"@) + register_text(dst) + ", "@ + register_text(lhs) + ", "@ + register_text(rhs),
        Instruction::Less { dst, lhs, rhs } => in_column("Less"@) + register_text(dst) + ", "@ + register_text(lhs) + ", "@ + register_text(rhs),
        Instruction::LessInt { dst, lhs, rhs } => in_column("LessInt"@) + register_text(dst) + ", "@ + register_text(lhs) + ", "@ + register_text(rhs),
        Instruction::LessEqual { dst, lhs, rhs } => in_column("LessEqual"@) + register_text(dst) + ", "@ + register_text(lhs) + ", "@ + register_text(rhs),
        Instruction::LessEqualInt { dst, lhs, rhs } => in_column("LessEqualInt"@) + register_text(dst) + ", "@ + register_text(lhs) + ", "@ + register_text(rhs),
        Instruction::Greater { dst, lhs, rhs } => in_column("Greater"@) + register_text(dst) + ", "@ + register_text(lhs) + ", "@ + register_text(rhs),
        Instruction::GreaterInt { dst, lhs, rhs } => in_column("GreaterInt"@) + register_text(dst) + ", "@ + register_text(lhs) + ", "@ + register_text(rhs),
        Instruction::GreaterEqual { dst, lhs, rhs } => in_column("GreaterEqual"@) + register_text(dst) + ", "@ + register_text(lhs) + ", "@ + register_text(rhs),
        Instruction::GreaterEqualInt { dst, lhs, rhs } => in_column("GreaterEqualInt"@) + register_text(dst) + ", "@ + register_text(lhs) + ", "@ + register_text(rhs),
        Instruction::Not { dst, src } => in_column("Not"@) + register_text(dst) + ", "@ + register_text(src),
        Instruction::CallFunction { dst, function, args_start, arg_count } => in_column("CallFunction"@) + register_text(dst) + ", "@ + function_id_text(function) + ", "@ + register_text(args_start) + ", "@ + decimal(arg_count as nat),
        Instruction::MakeUpvalue { dst, src } => in_column("MakeUpvalue"@) + register_text(dst) + ", "@ + register_text(src),
        Instruction::LoadUpvalue { dst, upvalue } => in_column("LoadUpvalue"@) + register_text(dst) + ", "@ + register_text(upvalue),
        Instruction::StoreUpvalue { upvalue, src } => in_column("StoreUpvalue"@) + register_text(upvalue) + ", "@ + register_text(src),
        Instruction::MakeClosure { dst, function, captures_start, capture_count } => in_column("MakeClosure"@) + register_text(dst) + ", "@ + function_id_text(function) + ", "@ + register_text(captures_start) + ", "@ + decimal(capture_count as nat),
        Instruction::LoadCapture { dst, capture } => in_column("LoadCapture"@) + register_text(dst) + ", "@ + captured_text(capture),
        Instruction::LoadCaptureCell { dst, capture } => in_column("LoadCaptureCell"@) + register_text(dst) + ", "@ + captured_text(capture),
        Instruction::StoreCapture { capture, src } => in_column("StoreCapture"@) + captured_text(capture) + ", "@ + register_text(src),
        Instruction::CallValue { dst, callee, args_start, arg_count } => in_column("CallValue"@) + register_text(dst) + ", "@ + register_text(callee) + ", "@ + register_text(args_start) + ", "@ + decimal(arg_count as nat),
        Instruction::CallExtension { dst, extension, args_start, arg_count } => in_column("CallExtension"@) + register_text(dst) + ", "@ + string_text(extension) + ", "@ + register_text(args_start) + ", "@ + decimal(arg_count as nat),
        Instruction::ArrayNew { dst, elements_start, element_count } => in_column("ArrayNew"@) + register_text(dst) + ", "@ + register_text(elements_start) + ", "@ + decimal(element_count as nat),
        Instruction::MapNew { dst, entries_start, entry_count } => in_column("MapNew"@) + register_text(dst) + ", "@ + register_text(entries_start) + ", "@ + decimal(entry_count as nat),
        Instruction::RecordNew { dst, fields_start, fields } => in_column("RecordNew"@) + register_text(dst)
            + ", "@ + register_text(fields_start) + ", ["@ + names_joined(fields@, fields@.len()) + "]"@,
        Instruction::IndexGet { dst, target, index } => in_column("IndexGet"@) + register_text(dst) + ", "@ + register_text(target) + ", "@ + register_text(index),
        Instruction::IndexSet { target, index, value } => in_column("IndexSet"@) + register_text(target) + ", "@ + register_text(index) + ", "@ + register_text(value),
        Instruction::ArrayGet { dst, array, index } => in_column("ArrayGet"@) + register_text(dst) + ", "@ + register_text(array) + ", "@ + register_text(index),
        Instruction::ArraySet { array, index, value } => in_column("ArraySet"@) + register_text(array) + ", "@ + register_text(index) + ", "@ + register_text(value),
        Instruction::FieldGet { dst, target, field } => in_column("FieldGet"@) + register_text(dst) + ", "@ + register_text(target) + ", "@ + string_text(field),
        Instruction::FieldSet { target, field, value } => in_column("FieldSet"@) + register_text(target) + ", "@ + string_text(field) + ", "@ + register_text(value),
        Instruction::PushHandler { error, target } => in_column("PushHandler"@) + register_text(error) + ", "@ + target_text(target),
        Instruction::PopHandler => "PopHandler"@,
        Instruction::Throw { src } => in_column("Throw"@) + register_text(src),
        Instruction::Return { src } => in_column("Return"@) + register_text(src),
    }
}

proof fn lemma_one(a: Operand)
    ensures
        joined_operands(seq![a]) == operand_text(a),
{
}

proof fn lemma_two(a: Operand, b: Operand)
    ensures
        joined_operands(seq![a, b]) == operand_text(a) + ", "@ + operand_text(b),
{
    lemma_one(a);
    assert(seq![a, b].drop_last() =~= seq![a]);
}

proof fn lemma_three(a: Operand, b: Operand, c: Operand)
    ensures
        joined_operands(seq![a, b, c]) == operand_text(a) + ", "@ + operand_text(b) + ", "@
            + operand_text(c),
{
    lemma_two(a, b);
    assert(seq![a, b, c].drop_last() =~= seq![a, b]);
}

proof fn lemma_four(a: Operand, b: Operand, c: Operand, d: Operand)
    ensures
        joined_operands(seq![a, b, c, d]) == operand_text(a) + ", "@ + operand_text(b) + ", "@
            + operand_text(c) + ", "@ + operand_text(d),
{
    lemma_three(a, b, c);
    assert(seq![a, b, c, d].drop_last() =~= seq![a, b, c]);
}

proof fn lemma_names(strings: Seq<StringId>, n: nat)
    requires
        n <= strings.len(),
    ensures
        joined_operands(text_operands(strings).take(n as int)) == names_joined(strings, n),
    decreases n,
{
    let operands = text_operands(strings).take(n as int);
    if n > 1 {
        lemma_names(strings, (n - 1) as nat);
        assert(operands.drop_last() =~= text_operands(strings).take(n - 1));
        assert(operands.last() == Operand::Text(strings[n - 1]));
    } else if n == 1 {
        assert(operands[0] == Operand::Text(strings[0]));
    }
}

proof fn lemma_assoc(a: Seq<char>, b: Seq<char>, c: Seq<char>)
    ensures
        a + (b + c) == a + b + c,
{
    assert(a + (b + c) =~= a + b + c);
}

proof fn lemma_assoc3(f: Seq<char>, a: Seq<char>, b: Seq<char>, c: Seq<char>)
    ensures
        f + (a + b + c) == f + a + b + c,
{
    lemma_assoc(f, a, b);
    lemma_assoc(f, a + b, c);
}

proof fn lemma_assoc5(
    f: Seq<char>,
    a: Seq<char>,
    b: Seq<char>,
    c: Seq<char>,
    d: Seq<char>,
    e: Seq<char>,
)
    ensures
        f + (a + b + c + d + e) == f + a + b + c + d + e,
{
    lemma_assoc3(f, a, b, c);
    lemma_assoc(f, a + b + c, d);
    lemma_assoc(f, a + b + c + d, e);
}

proof fn lemma_assoc7(
    f: Seq<char>,
    a: Seq<char>,
    b: Seq<char>,
    c: Seq<char>,
    d: Seq<char>,
    e: Seq<char>,
    g: Seq<char>,
    h: Seq<char>,
)
    ensures
        f + (a + b + c + d + e + g + h) == f + a + b + c + d + e + g + h,
{
    lemma_assoc5(f, a, b, c, d, e);
    lemma_assoc(f, a + b + c + d + e, g);
    lemma_assoc(f, a + b + c + d + e + g, h);
}

proof fn lemma_column(name: Seq<char>)
    ensures
        in_column(name) == pad_right(name, 11) + " "@,
{
}

#[verifier::rlimit(60)]
proof fn lemma_shown_1(instruction: Instruction)
    requires
        instruction is LoadConst
        || instruction is LoadString
        || instruction is Move
        || instruction is Add
        || instruction is AddInt
        || instruction is Sub
        || instruction is SubInt
        || instruction is Mul
        || instruction is MulInt
        || instruction is Div
        || instruction is DivInt
        || instruction is Jump
        || instruction is JumpIfFalse,
    ensures
        instruction_text(instruction@) == shown(instruction),
{
    match instruction {
        Instruction::LoadConst { dst, constant } => {
            lemma_column("LoadConst"@);
            lemma_two(Operand::Register(dst), Operand::Constant(constant));
            lemma_assoc3(in_column("LoadConst"@), register_text(dst), ", "@, constant_text(constant));
        },
        Instruction::LoadString { dst, string } => {
            lemma_column("LoadString"@);
            lemma_two(Operand::Register(dst), Operand::Text(string));
            lemma_assoc3(in_column("LoadString"@), register_text(dst), ", "@, string_text(string));
        },
        Instruction::Move { dst, src } => {
            lemma_column("Move"@);
            lemma_two(Operand::Register(dst), Operand::Register(src));
            lemma_assoc3(in_column("Move"@), register_text(dst), ", "@, register_text(src));
        },
        Instruction::Add { dst, lhs, rhs } => {
            lemma_column("Add"@);
            lemma_three(Operand::Register(dst), Operand::Register(lhs), Operand::Register(rhs));
            lemma_assoc5(in_column("Add"@), register_text(dst), ", "@, register_text(lhs), ", "@, register_text(rhs));
        },
        Instruction::AddInt { dst, lhs, rhs } => {
            lemma_column("AddInt"@);
            lemma_three(Operand::Register(dst), Operand::Register(lhs), Operand::Register(rhs));
            lemma_assoc5(in_column("AddInt"@), register_text(dst), ", "@, register_text(lhs), ", "@, register_text(rhs));
        },
        Instruction::Sub { dst, lhs, rhs } => {
            lemma_column("Sub"@);
            lemma_three(Operand::Register(dst), Operand::Register(lhs), Operand::Register(rhs));
            lemma_assoc5(in_column("Sub"@), register_text(dst), ", "@, register_text(lhs), ", "@, register_text(rhs));
        },
        Instruction::SubInt { dst, lhs, rhs } => {
            lemma_column("SubInt"@);
            lemma_three(Operand::Register(dst), Operand::Register(lhs), Operand::Register(rhs));
            lemma_assoc5(in_column("SubInt"@), register_text(dst), ", "@, register_text(lhs), ", "@, register_text(rhs));
        },
        Instruction::Mul { dst, lhs, rhs } => {
            lemma_column("Mul"@);
            lemma_three(Operand::Register(dst), Operand::Register(lhs), Operand::Register(rhs));
            lemma_assoc5(in_column("Mul"@), register_text(dst), ", "@, register_text(lhs), ", "@, register_text(rhs));
        },
        Instruction::MulInt { dst, lhs, rhs } => {
            lemma_column("MulInt"@);
            lemma_three(Operand::Register(dst), Operand::Register(lhs), Operand::Register(rhs));
            lemma_assoc5(in_column("MulInt"@), register_text(dst), ", "@, register_text(lhs), ", "@, register_text(rhs));
        },
        Instruction::Div { dst, lhs, rhs } => {
            lemma_column("Div"@);
            lemma_three(Operand::Register(dst), Operand::Register(lhs), Operand::Register(rhs));
            lemma_assoc5(in_column("Div"@), register_text(dst), ", "@, register_text(lhs), ", "@, register_text(rhs));
        },
        Instruction::DivInt { dst, lhs, rhs } => {
            lemma_column("DivInt"@);
            lemma_three(Operand::Register(dst), Operand::Register(lhs), Operand::Register(rhs));
            lemma_assoc5(in_column("DivInt"@), register_text(dst), ", "@, register_text(lhs), ", "@, register_text(rhs));
        },
        Instruction::Jump { target } => {
            lemma_column("Jump"@);
            lemma_one(Operand::Target(target));
        },
        Instruction::JumpIfFalse { condition, target } => {
            lemma_column("JumpIfFalse"@);
            lemma_two(Operand::Register(condition), Operand::Target(target));
            lemma_assoc3(in_column("JumpIfFalse"@), register_text(condition), ", "@, target_text(target));
        },
        _ => {},
    }
}

#[verifier::rlimit(60)]
proof fn lemma_shown_2(instruction: Instruction)
    requires
        instruction is JumpIfTrue
        || instruction is Equal
        || instruction is NotEqual
        || instruction is Less
        || instruction is LessInt
        || instruction is LessEqual
        || instruction is LessEqualInt
        || instruction is Greater
        || instruction is GreaterInt
        || instruction is GreaterEqual
        || instruction is GreaterEqualInt
        || instruction is Not
        || instruction is CallFunction,
    ensures
        instruction_text(instruction@) == shown(instruction),
{
    match instruction {
        Instruction::JumpIfTrue { condition, target } => {
            lemma_column("JumpIfTrue"@);
            lemma_two(Operand::Register(condition), Operand::Target(target));
            lemma_assoc3(in_column("JumpIfTrue"@), register_text(condition), ", "@, target_text(target));
        },
        Instruction::Equal { dst, lhs, rhs } => {
            lemma_column("Equal"@);
            lemma_three(Operand::Register(dst), Operand::Register(lhs), Operand::Register(rhs));
            lemma_assoc5(in_column("Equal"@), register_text(dst), ", "@, register_text(lhs), ", "@, register_text(rhs));
        },
        Instruction::NotEqual { dst, lhs, rhs } => {
            lemma_column("NotEqual"@);
            lemma_three(Operand::Register(dst), Operand::Register(lhs), Operand::Register(rhs));
            lemma_assoc5(in_column("NotEqual"@), register_text(dst), ", "@, register_text(lhs), ", "@, register_text(rhs));
        },
        Instruction::Less { dst, lhs, rhs } => {
            lemma_column("Less"@);
            lemma_three(Operand::Register(dst), Operand::Register(lhs), Operand::Register(rhs));
            lemma_assoc5(in_column("Less"@), register_text(dst), ", "@, register_text(lhs), ", "@, register_text(rhs));
        },
        Instruction::LessInt { dst, lhs, rhs } => {
            lemma_column("LessInt"@);
            lemma_three(Operand::Register(dst), Operand::Register(lhs), Operand::Register(rhs));
            lemma_assoc5(in_column("LessInt"@), register_text(dst), ", "@, register_text(lhs), ", "@, register_text(rhs));
        },
        Instruction::LessEqual { dst, lhs, rhs } => {
            lemma_column("LessEqual"@);
            lemma_three(Operand::Register(dst), Operand::Register(lhs), Operand::Register(rhs));
            lemma_assoc5(in_column("LessEqual"@), register_text(dst), ", "@, register_text(lhs), ", "@, register_text(rhs));
        },
        Instruction::LessEqualInt { dst, lhs, rhs } => {
            lemma_column("LessEqualInt"@);
            lemma_three(Operand::Register(dst), Operand::Register(lhs), Operand::Register(rhs));
            lemma_assoc5(in_column("LessEqualInt"@), register_text(dst), ", "@, register_text(lhs), ", "@, register_text(rhs));
        },
        Instruction::Greater { dst, lhs, rhs } => {
            lemma_column("Greater"@);
            lemma_three(Operand::Register(dst), Operand::Register(lhs), Operand::Register(rhs));
            lemma_assoc5(in_column("Greater"@), register_text(dst), ", "@, register_text(lhs), ", "@, register_text(rhs));
        },
        Instruction::GreaterInt { dst, lhs, rhs } => {
            lemma_column("GreaterInt"@);
            lemma_three(Operand::Register(dst), Operand::Register(lhs), Operand::Register(rhs));
            lemma_assoc5(in_column("GreaterInt"@), register_text(dst), ", "@, register_text(lhs), ", "@, register_text(rhs));
        },
        Instruction::GreaterEqual { dst, lhs, rhs } => {
            lemma_column("GreaterEqual"@);
            lemma_three(Operand::Register(dst), Operand::Register(lhs), Operand::Register(rhs));
            lemma_assoc5(in_column("GreaterEqual"@), register_text(dst), ", "@, register_text(lhs), ", "@, register_text(rhs));
        },
        Instruction::GreaterEqualInt { dst, lhs, rhs } => {
            lemma_column("GreaterEqualInt"@);
            lemma_three(Operand::Register(dst), Operand::Register(lhs), Operand::Register(rhs));
            lemma_assoc5(in_column("GreaterEqualInt"@), register_text(dst), ", "@, register_text(lhs), ", "@, register_text(rhs));
        },
        Instruction::Not { dst, src } => {
            lemma_column("Not"@);
            lemma_two(Operand::Register(dst), Operand::Register(src));
            lemma_assoc3(in_column("Not"@), register_text(dst), ", "@, register_text(src));
        },
        Instruction::CallFunction { dst, function, args_start, arg_count } => {
            lemma_column("CallFunction"@);
            lemma_four(Operand::Register(dst), Operand::Function(function), Operand::Register(args_start), Operand::Count(arg_count));
            lemma_assoc7(in_column("CallFunction"@), register_text(dst), ", "@, function_id_text(function), ", "@, register_text(args_start), ", "@, decimal(arg_count as nat));
        },
        _ => {},
    }
}

#[verifier::rlimit(60)]
proof fn lemma_shown_3(instruction: Instruction)
    requires
        instruction is MakeUpvalue
        || instruction is LoadUpvalue
        || instruction is StoreUpvalue
        || instruction is MakeClosure
        || instruction is LoadCapture
        || instruction is LoadCaptureCell
        || instruction is StoreCapture
        || instruction is CallValue
        || instruction is CallExtension
        || instruction is ArrayNew
        || instruction is MapNew
        || instruction is RecordNew
        || instruction is IndexGet,
    ensures
        instruction_text(instruction@) == shown(instruction),
{
    match instruction {
        Instruction::MakeUpvalue { dst, src } => {
            lemma_column("MakeUpvalue"@);
            lemma_two(Operand::Register(dst), Operand::Register(src));
            lemma_assoc3(in_column("MakeUpvalue"@), register_text(dst), ", "@, register_text(src));
        },
        Instruction::LoadUpvalue { dst, upvalue } => {
            lemma_column("LoadUpvalue"@);
            lemma_two(Operand::Register(dst), Operand::Register(upvalue));
            lemma_assoc3(in_column("LoadUpvalue"@), register_text(dst), ", "@, register_text(upvalue));
        },
        Instruction::StoreUpvalue { upvalue, src } => {
            lemma_column("StoreUpvalue"@);
            lemma_two(Operand::Register(upvalue), Operand::Register(src));
            lemma_assoc3(in_column("StoreUpvalue"@), register_text(upvalue), ", "@, register_text(src));
        },
        Instruction::MakeClosure { dst, function, captures_start, capture_count } => {
            lemma_column("MakeClosure"@);
            lemma_four(Operand::Register(dst), Operand::Function(function), Operand::Register(captures_start), Operand::Count(capture_count));
            lemma_assoc7(in_column("MakeClosure"@), register_text(dst), ", "@, function_id_text(function), ", "@, register_text(captures_start), ", "@, decimal(capture_count as nat));
        },
        Instruction::LoadCapture { dst, capture } => {
            lemma_column("LoadCapture"@);
            lemma_two(Operand::Register(dst), Operand::Capture(capture));
            lemma_assoc3(in_column("LoadCapture"@), register_text(dst), ", "@, captured_text(capture));
        },
        Instruction::LoadCaptureCell { dst, capture } => {
            lemma_column("LoadCaptureCell"@);
            lemma_two(Operand::Register(dst), Operand::Capture(capture));
            lemma_assoc3(in_column("LoadCaptureCell"@), register_text(dst), ", "@, captured_text(capture));
        },
        Instruction::StoreCapture { capture, src } => {
            lemma_column("StoreCapture"@);
            lemma_two(Operand::Capture(capture), Operand::Register(src));
            lemma_assoc3(in_column("StoreCapture"@), captured_text(capture), ", "@, register_text(src));
        },
        Instruction::CallValue { dst, callee, args_start, arg_count } => {
            lemma_column("CallValue"@);
            lemma_four(Operand::Register(dst), Operand::Register(callee), Operand::Register(args_start), Operand::Count(arg_count));
            lemma_assoc7(in_column("CallValue"@), register_text(dst), ", "@, register_text(callee), ", "@, register_text(args_start), ", "@, decimal(arg_count as nat));
        },
        Instruction::CallExtension { dst, extension, args_start, arg_count } => {
            lemma_column("CallExtension"@);
            lemma_four(Operand::Register(dst), Operand::Text(extension), Operand::Register(args_start), Operand::Count(arg_count));
            lemma_assoc7(in_column("CallExtension"@), register_text(dst), ", "@, string_text(extension), ", "@, register_text(args_start), ", "@, decimal(arg_count as nat));
        },
        Instruction::ArrayNew { dst, elements_start, element_count } => {
            lemma_column("ArrayNew"@);
            lemma_three(Operand::Register(dst), Operand::Register(elements_start), Operand::Count(element_count));
            lemma_assoc5(in_column("ArrayNew"@), register_text(dst), ", "@, register_text(elements_start), ", "@, decimal(element_count as nat));
        },
        Instruction::MapNew { dst, entries_start, entry_count } => {
            lemma_column("MapNew"@);
            lemma_three(Operand::Register(dst), Operand::Register(entries_start), Operand::Count(entry_count));
            lemma_assoc5(in_column("MapNew"@), register_text(dst), ", "@, register_text(entries_start), ", "@, decimal(entry_count as nat));
        },
        Instruction::RecordNew { dst, fields_start, fields } => {
            let front = seq![
                Operand::Register(dst),
                Operand::Register(fields_start),
                Operand::Count(field_count_byte(fields@.len())),
            ];
            let names = text_operands(fields@);
            assert(instruction@.operands == front + names);
            assert(instruction@.operands.take(2) =~= seq![
                Operand::Register(dst),
                Operand::Register(fields_start),
            ]);
            assert(instruction@.operands.skip(3) =~= names);
            lemma_two(Operand::Register(dst), Operand::Register(fields_start));
            lemma_names(fields@, fields@.len());
            assert(names.take(fields@.len() as int) =~= names);
            lemma_column("RecordNew"@);
            lemma_assoc3(in_column("RecordNew"@), register_text(dst), ", "@, register_text(fields_start));
        },
        Instruction::IndexGet { dst, target, index } => {
            lemma_column("IndexGet"@);
            lemma_three(Operand::Register(dst), Operand::Register(target), Operand::Register(index));
            lemma_assoc5(in_column("IndexGet"@), register_text(dst), ", "@, register_text(target), ", "@, register_text(index));
        },
        _ => {},
    }
}

#[verifier::rlimit(60)]
proof fn lemma_shown_4(instruction: Instruction)
    requires
        instruction is IndexSet
        || instruction is ArrayGet
        || instruction is ArraySet
        || instruction is FieldGet
        || instruction is FieldSet
        || instruction is PushHandler
        || instruction is PopHandler
        || instruction is Throw
        || instruction is Return,
    ensures
        instruction_text(instruction@) == shown(instruction),
{
    match instruction {
        Instruction::IndexSet { target, index, value } => {
            lemma_column("IndexSet"@);
            lemma_three(Operand::Register(target), Operand::Register(index), Operand::Register(value));
            lemma_assoc5(in_column("IndexSet"@), register_text(target), ", "@, register_text(index), ", "@, register_text(value));
        },
        Instruction::ArrayGet { dst, array, index } => {
            lemma_column("ArrayGet"@);
            lemma_three(Operand::Register(dst), Operand::Register(array), Operand::Register(index));
            lemma_assoc5(in_column("ArrayGet"@), register_text(dst), ", "@, register_text(array), ", "@, register_text(index));
        },
        Instruction::ArraySet { array, index, value } => {
            lemma_column("ArraySet"@);
            lemma_three(Operand::Register(array), Operand::Register(index), Operand::Register(value));
            lemma_assoc5(in_column("ArraySet"@), register_text(array), ", "@, register_text(index), ", "@, register_text(value));
        },
        Instruction::FieldGet { dst, target, field } => {
            lemma_column("FieldGet"@);
            lemma_three(Operand::Register(dst), Operand::Register(target), Operand::Text(field));
            lemma_assoc5(in_column("FieldGet"@), register_text(dst), ", "@, register_text(target), ", "@, string_text(field));
        },
        Instruction::FieldSet { target, field, value } => {
            lemma_column("FieldSet"@);
            lemma_three(Operand::Register(target), Operand::Text(field), Operand::Register(value));
            lemma_assoc5(in_column("FieldSet"@), register_text(target), ", "@, string_text(field), ", "@, register_text(value));
        },
        Instruction::PushHandler { error, target } => {
            lemma_column("PushHandler"@);
            lemma_two(Operand::Register(error), Operand::Target(target));
            lemma_assoc3(in_column("PushHandler"@), register_text(error), ", "@, target_text(target));
        },
        Instruction::PopHandler => {},
        Instruction::Throw { src } => {
            lemma_column("Throw"@);
            lemma_one(Operand::Register(src));
        },
        Instruction::Return { src } => {
            lemma_column("Return"@);
            lemma_one(Operand::Register(src));
        },
        _ => {},
    }
}

/// An instruction is shown by its name, in a column, and its operands in the order of the
/// instruction: registers, constants, strings, functions, jump targets and captured values by
/// their marks and numbers.
pub proof fn instructions_show_their_operands(instruction: Instruction)
    ensures
        instruction_text(instruction@) == shown(instruction),
{
    if instruction is LoadConst || instruction is LoadString || instruction is Move || instruction is Add || instruction is AddInt || instruction is Sub || instruction is SubInt || instruction is Mul || instruction is MulInt || instruction is Div || instruction is DivInt || instruction is Jump || instruction is JumpIfFalse {
        lemma_shown_1(instruction);
    } else if instruction is JumpIfTrue || instruction is Equal || instruction is NotEqual || instruction is Less || instruction is LessInt || instruction is LessEqual || instruction is LessEqualInt || instruction is Greater || instruction is GreaterInt || instruction is GreaterEqual || instruction is GreaterEqualInt || instruction is Not || instruction is CallFunction {
        lemma_shown_2(instruction);
    } else if instruction is MakeUpvalue || instruction is LoadUpvalue || instruction is StoreUpvalue || instruction is MakeClosure || instruction is LoadCapture || instruction is LoadCaptureCell || instruction is StoreCapture || instruction is CallValue || instruction is CallExtension || instruction is ArrayNew || instruction is MapNew || instruction is RecordNew || instruction is IndexGet {
        lemma_shown_3(instruction);
    } else {
        lemma_shown_4(instruction);
    }
}

// ---------------------------------------------------------------------------
// Lines
// ---------------------------------------------------------------------------

/// Lines one behind the other.
pub open spec fn all_lines(lines: Seq<Seq<char>>) -> Seq<char>
    decreases lines.len(),
{
    if lines.len() == 0 {
        Seq::empty()
    } else {
        all_lines(lines.drop_last()) + lines.last()
    }
}

proof fn lemma_lines_joined(a: Seq<Seq<char>>, b: Seq<Seq<char>>)
    ensures
        all_lines(a + b) == all_lines(a) + all_lines(b),
    decreases b.len(),
{
    if b.len() == 0 {
        assert(a + b =~= a);
        assert(all_lines(a) + Seq::<char>::empty() =~= all_lines(a));
    } else {
        lemma_lines_joined(a, b.drop_last());
        assert((a + b).drop_last() =~= a + b.drop_last());
        lemma_assoc(all_lines(a), all_lines(b.drop_last()), b.last());
    }
}

proof fn lemma_line(line: Seq<char>)
    ensures
        all_lines(seq![line]) == line,
{
    assert(seq![line].drop_last() =~= Seq::empty());
    assert(all_lines(Seq::empty()) =~= Seq::empty());
    assert(Seq::<char>::empty() + line =~= line);
}

/// A number with zeros before it, to four digits at least.
pub open spec fn four_digits(n: nat) -> Seq<char> {
    if decimal(n).len() < 4 {
        repeated('0', (4 - decimal(n).len()) as nat) + decimal(n)
    } else {
        decimal(n)
    }
}

/// What an instruction loads: a constant or a string of its chunk.
pub open spec fn loaded(chunk: Chunk, instruction: Instruction, floats: Floats) -> Seq<char> {
    match instruction {
        Instruction::LoadConst { constant, .. } => if constant.0 < chunk.constants@.len() {
            " ; "@ + value_debug_text(chunk.constants@[constant.0 as int], floats)
        } else {
            Seq::empty()
        },
        Instruction::LoadString { string, .. } => if string.0 < chunk.strings@.len() {
            " ; "@ + quoted(chunk.strings@[string.0 as int]@)
        } else {
            Seq::empty()
        },
        _ => Seq::empty(),
    }
}

/// The line of an instruction: its number, its text and what it loads.
pub open spec fn instruction_line(chunk: Chunk, ip: int, floats: Floats) -> Seq<char> {
    four_digits(ip as nat) + " "@ + shown(chunk.instructions@[ip]) + loaded(
        chunk,
        chunk.instructions@[ip],
        floats,
    ) + "\n"@
}

/// The line of a register that has a name.
pub open spec fn local_line(chunk: Chunk, i: int) -> Seq<char> {
    match chunk.debug_local_names@[i] {
        Some(name) => "  r"@ + decimal(i as nat) + " "@ + name@ + "\n"@,
        None => Seq::empty(),
    }
}

pub open spec fn constant_line(chunk: Chunk, i: int, floats: Floats) -> Seq<char> {
    "  #"@ + decimal(i as nat) + " "@ + value_debug_text(chunk.constants@[i], floats) + "\n"@
}

pub open spec fn string_line(chunk: Chunk, i: int) -> Seq<char> {
    "  str#"@ + decimal(i as nat) + " "@ + quoted(chunk.strings@[i]@) + "\n"@
}

/// The lines that say how large a chunk is.
pub open spec fn heading(chunk: Chunk) -> Seq<Seq<char>> {
    seq![
        "== "@ + chunk.name@ + " ==\n"@,
        "format: "@ + "FERRIXBC"@ + " v"@ + decimal(1) + "\n"@,
        "registers: "@ + decimal(chunk.register_count as nat) + "\n"@,
        "arity: "@ + decimal(chunk.arity as nat) + "\n"@,
        "captures: "@ + decimal(chunk.capture_count as nat) + "\n"@,
    ]
}

/// The lines about the names, constants and strings of a chunk.
pub open spec fn pools(chunk: Chunk, floats: Floats) -> Seq<Seq<char>> {
    (if chunk.debug_local_names@.len() == 0 {
        Seq::empty()
    } else {
        seq!["locals:\n"@] + Seq::new(
            chunk.debug_local_names@.len(),
            |i: int| local_line(chunk, i),
        )
    }) + seq!["constants:\n"@] + (if chunk.constants@.len() == 0 {
        seq!["  <empty>\n"@]
    } else {
        Seq::new(chunk.constants@.len(), |i: int| constant_line(chunk, i, floats))
    }) + (if chunk.strings@.len() == 0 {
        Seq::empty()
    } else {
        seq!["strings:\n"@] + Seq::new(chunk.strings@.len(), |i: int| string_line(chunk, i))
    })
}

/// The lines of a chunk: its sizes, its names, constants and strings, an empty line, and one line
/// for each instruction in order.
pub open spec fn listing(chunk: Chunk, floats: Floats) -> Seq<Seq<char>> {
    heading(chunk) + pools(chunk, floats) + seq!["\n"@] + Seq::new(
        chunk.instructions@.len(),
        |ip: int| instruction_line(chunk, ip, floats),
    )
}

proof fn lemma_locals(chunk: Chunk, n: int)
    requires
        0 <= n <= chunk.debug_local_names@.len(),
    ensures
        local_lines(chunk@.debug_local_names.take(n)) == all_lines(
            Seq::new(n as nat, |i: int| local_line(chunk, i)),
        ),
    decreases n,
{
    let names = chunk@.debug_local_names.take(n);
    let lines = Seq::new(n as nat, |i: int| local_line(chunk, i));
    if n > 0 {
        lemma_locals(chunk, n - 1);
        assert(names.drop_last() =~= chunk@.debug_local_names.take(n - 1));
        assert(lines.drop_last() =~= Seq::new((n - 1) as nat, |i: int| local_line(chunk, i)));
        assert(lines.last() == local_line(chunk, n - 1));
        let before = local_lines(names.drop_last());
        match chunk.debug_local_names@[n - 1] {
            Some(name) => {
                assert(names.last() == Some(name@));
                lemma_assoc5(before, "  r"@, decimal((n - 1) as nat), " "@, name@, "\n"@);
            },
            None => {
                assert(names.last() is None);
                assert(before + Seq::<char>::empty() =~= before);
            },
        }
    }
}

proof fn lemma_constants(chunk: Chunk, n: int, floats: Floats)
    requires
        0 <= n <= chunk.constants@.len(),
    ensures
        constant_lines(chunk.constants@.take(n), floats) == all_lines(
            Seq::new(n as nat, |i: int| constant_line(chunk, i, floats)),
        ),
    decreases n,
{
    let constants = chunk.constants@.take(n);
    let lines = Seq::new(n as nat, |i: int| constant_line(chunk, i, floats));
    if n > 0 {
        lemma_constants(chunk, n - 1, floats);
        assert(constants.drop_last() =~= chunk.constants@.take(n - 1));
        assert(lines.drop_last() =~= Seq::new(
            (n - 1) as nat,
            |i: int| constant_line(chunk, i, floats),
        ));
        assert(lines.last() == constant_line(chunk, n - 1, floats));
        lemma_assoc5(
            constant_lines(constants.drop_last(), floats),
            "  #"@,
            decimal((n - 1) as nat),
            " "@,
            value_debug_text(constants.last(), floats),
            "\n"@,
        );
    }
}

proof fn lemma_strings(chunk: Chunk, n: int)
    requires
        0 <= n <= chunk.strings@.len(),
    ensures
        string_lines(chunk@.strings.take(n)) == all_lines(
            Seq::new(n as nat, |i: int| string_line(chunk, i)),
        ),
    decreases n,
{
    let strings = chunk@.strings.take(n);
    let lines = Seq::new(n as nat, |i: int| string_line(chunk, i));
    if n > 0 {
        lemma_strings(chunk, n - 1);
        assert(strings.drop_last() =~= chunk@.strings.take(n - 1));
        assert(lines.drop_last() =~= Seq::new((n - 1) as nat, |i: int| string_line(chunk, i)));
        assert(lines.last() == string_line(chunk, n - 1));
        assert(strings.last() == chunk.strings@[n - 1]@);
        lemma_assoc5(
            string_lines(strings.drop_last()),
            "  str#"@,
            decimal((n - 1) as nat),
            " "@,
            quoted(strings.last()),
            "\n"@,
        );
    }
}

proof fn lemma_instructions(chunk: Chunk, n: int, floats: Floats)
    requires
        0 <= n <= chunk.instructions@.len(),
    ensures
        instruction_lines(chunk@, n as nat, floats) == all_lines(
            Seq::new(n as nat, |ip: int| instruction_line(chunk, ip, floats)),
        ),
    decreases n,
{
    let lines = Seq::new(n as nat, |ip: int| instruction_line(chunk, ip, floats));
    if n > 0 {
        let instruction = chunk.instructions@[n - 1];
        lemma_instructions(chunk, n - 1, floats);
        assert(lines.drop_last() =~= Seq::new(
            (n - 1) as nat,
            |ip: int| instruction_line(chunk, ip, floats),
        ));
        assert(lines.last() == instruction_line(chunk, n - 1, floats));
        assert(chunk@.instructions[n - 1] == instruction@);
        instructions_show_their_operands(instruction);
        lemma_loaded(chunk, instruction, floats);
        lemma_assoc5(
            instruction_lines(chunk@, (n - 1) as nat, floats),
            four_digits((n - 1) as nat),
            " "@,
            shown(instruction),
            loaded(chunk, instruction, floats),
            "\n"@,
        );
        assert(four_digits((n - 1) as nat) == zero_padded((n - 1) as nat, 4));
    }
}

proof fn lemma_loaded(chunk: Chunk, instruction: Instruction, floats: Floats)
    ensures
        load_comment(chunk@, instruction@, floats) == loaded(chunk, instruction, floats),
{
    assert(chunk@.strings.len() == chunk.strings@.len());
    if let Instruction::LoadString { string, .. } = instruction {
        if string.0 < chunk.strings@.len() {
            assert(chunk@.strings[string.0 as int] == chunk.strings@[string.0 as int]@);
        }
    }
}

proof fn lemma_heading(chunk: Chunk)
    ensures
        chunk_header(chunk@) == all_lines(heading(chunk)),
{
    let lines = heading(chunk);
    assert(lines.drop_last() =~= lines.take(4));
    assert(lines.take(4).drop_last() =~= lines.take(3));
    assert(lines.take(3).drop_last() =~= lines.take(2));
    assert(lines.take(2).drop_last() =~= lines.take(1));
    assert(lines.take(1) =~= seq![lines[0]]);
    lemma_line(lines[0]);
    let one = "== "@ + chunk.name@ + " ==\n"@;
    lemma_assoc5(one, "format: "@, "FERRIXBC"@, " v"@, decimal(1), "\n"@);
    let two = all_lines(lines.take(2));
    assert(two == one + lines[1]);
    lemma_assoc3(two, "registers: "@, decimal(chunk.register_count as nat), "\n"@);
    let three = all_lines(lines.take(3));
    assert(three == two + lines[2]);
    lemma_assoc3(three, "arity: "@, decimal(chunk.arity as nat), "\n"@);
    let four = all_lines(lines.take(4));
    assert(four == three + lines[3]);
    lemma_assoc3(four, "captures: "@, decimal(chunk.capture_count as nat), "\n"@);
    assert(all_lines(lines) == four + lines[4]);
}

proof fn lemma_pools(chunk: Chunk, floats: Floats)
    ensures
        locals_section(chunk@) + constants_section(chunk@, floats) + strings_section(chunk@)
            == all_lines(pools(chunk, floats)),
{
    let locals: Seq<Seq<char>> = if chunk.debug_local_names@.len() == 0 {
        Seq::empty()
    } else {
        seq!["locals:\n"@] + Seq::new(
            chunk.debug_local_names@.len(),
            |i: int| local_line(chunk, i),
        )
    };
    let constants = if chunk.constants@.len() == 0 {
        seq!["  <empty>\n"@]
    } else {
        Seq::new(chunk.constants@.len(), |i: int| constant_line(chunk, i, floats))
    };
    let strings: Seq<Seq<char>> = if chunk.strings@.len() == 0 {
        Seq::empty()
    } else {
        seq!["strings:\n"@] + Seq::new(chunk.strings@.len(), |i: int| string_line(chunk, i))
    };
    lemma_locals(chunk, chunk.debug_local_names@.len() as int);
    lemma_constants(chunk, chunk.constants@.len() as int, floats);
    lemma_strings(chunk, chunk.strings@.len() as int);
    assert(chunk@.debug_local_names.take(chunk.debug_local_names@.len() as int)
        =~= chunk@.debug_local_names);
    assert(chunk.constants@.take(chunk.constants@.len() as int) =~= chunk.constants@);
    assert(chunk@.strings.take(chunk.strings@.len() as int) =~= chunk@.strings);
    lemma_line("locals:\n"@);
    lemma_line("constants:\n"@);
    lemma_line("  <empty>\n"@);
    lemma_line("strings:\n"@);
    assert(all_lines(Seq::empty()) =~= Seq::empty());
    if chunk.debug_local_names@.len() > 0 {
        lemma_lines_joined(
            seq!["locals:\n"@],
            Seq::new(chunk.debug_local_names@.len(), |i: int| local_line(chunk, i)),
        );
    }
    if chunk.strings@.len() > 0 {
        lemma_lines_joined(
            seq!["strings:\n"@],
            Seq::new(chunk.strings@.len(), |i: int| string_line(chunk, i)),
        );
    }
    assert(all_lines(locals) == locals_section(chunk@));
    assert(all_lines(strings) == strings_section(chunk@));
    lemma_lines_joined(seq!["constants:\n"@], constants);
    assert(all_lines(seq!["constants:\n"@] + constants) == constants_section(chunk@, floats));
    assert(locals + seq!["constants:\n"@] + constants =~= locals + (seq!["constants:\n"@]
        + constants));
    lemma_lines_joined(locals, seq!["constants:\n"@] + constants);
    lemma_lines_joined(locals + seq!["constants:\n"@] + constants, strings);
}

/// The text of a chunk is its lines: its sizes, its names, constants and strings in their order,
/// and one line for each instruction, with the number of the instruction, its text and what it
/// loads.
pub proof fn chunks_are_listed_line_by_line(chunk: Chunk, floats: Floats)
    ensures
        chunk_text(chunk@, floats) == all_lines(listing(chunk, floats)),
{
    let code = Seq::new(
        chunk.instructions@.len(),
        |ip: int| instruction_line(chunk, ip, floats),
    );
    lemma_heading(chunk);
    lemma_pools(chunk, floats);
    lemma_instructions(chunk, chunk.instructions@.len() as int, floats);
    lemma_lines_joined(heading(chunk), pools(chunk, floats));
    lemma_line("\n"@);
    lemma_lines_joined(heading(chunk) + pools(chunk, floats), seq!["\n"@]);
    lemma_lines_joined(heading(chunk) + pools(chunk, floats) + seq!["\n"@], code);
    lemma_assoc3(
        chunk_header(chunk@),
        locals_section(chunk@),
        constants_section(chunk@, floats),
        strings_section(chunk@),
    );
    assert(chunk@.instructions.len() == chunk.instructions@.len());
}

// ---------------------------------------------------------------------------
// Programs
// ---------------------------------------------------------------------------

/// The lines of a function of a program: what the function says of itself, and all lines of its
/// chunk, or the name of the native function.
pub open spec fn function_listing(function: Function, index: int, floats: Floats) -> Seq<Seq<char>> {
    seq![
        "\n-- fn#"@ + decimal(index as nat) + " "@ + function.name@ + " arity="@ + decimal(
            function.arity as nat,
        ) + " registers="@ + decimal(function.register_count as nat) + " captures="@ + decimal(
            function.capture_count as nat,
        ) + " --\n"@,
    ] + match function.kind {
        FunctionKind::Bytecode(chunk) => listing(chunk, floats),
        FunctionKind::Native { name } => seq!["native: "@ + name@ + "\n"@],
    }
}

/// The lines of a program: its format, its entry, how many functions there are, and the lines of
/// each function in order.
pub open spec fn program_listing(program: Program, floats: Floats) -> Seq<Seq<char>> {
    seq![
        "== program ==\nformat: "@ + program.format.magic@ + " v"@ + decimal(
            program.format.version as nat,
        ) + " flags="@ + decimal(program.format.feature_flags as nat) + "\nentry: "@
            + function_id_text(program.entry) + "\nfunctions: "@ + decimal(program.functions@.len())
            + "\n"@,
    ] + functions_listing(program.functions@, program.functions@.len() as int, floats)
}

/// The lines of the first `n` functions.
pub open spec fn functions_listing(functions: Seq<Function>, n: int, floats: Floats) -> Seq<Seq<char>>
    decreases n,
{
    if n <= 0 {
        Seq::empty()
    } else {
        functions_listing(functions, n - 1, floats) + function_listing(
            functions[n - 1],
            n - 1,
            floats,
        )
    }
}

proof fn lemma_function(function: Function, index: int, floats: Floats)
    requires
        index >= 0,
    ensures
        function_text(function@, index as nat, floats) == all_lines(
            function_listing(function, index, floats),
        ),
{
    let head = "\n-- fn#"@ + decimal(index as nat) + " "@ + function.name@ + " arity="@ + decimal(
        function.arity as nat,
    ) + " registers="@ + decimal(function.register_count as nat) + " captures="@ + decimal(
        function.capture_count as nat,
    ) + " --\n"@;
    lemma_line(head);
    match function.kind {
        FunctionKind::Bytecode(chunk) => {
            chunks_are_listed_line_by_line(chunk, floats);
            lemma_lines_joined(seq![head], listing(chunk, floats));
        },
        FunctionKind::Native { name } => {
            lemma_line("native: "@ + name@ + "\n"@);
            lemma_lines_joined(seq![head], seq!["native: "@ + name@ + "\n"@]);
        },
    }
}

proof fn lemma_functions(program: Program, n: int, floats: Floats)
    requires
        0 <= n <= program.functions@.len(),
    ensures
        function_texts(program@.functions, n as nat, floats) == all_lines(
            functions_listing(program.functions@, n, floats),
        ),
    decreases n,
{
    if n > 0 {
        lemma_functions(program, n - 1, floats);
        assert(program@.functions[n - 1] == program.functions@[n - 1]@);
        lemma_function(program.functions@[n - 1], n - 1, floats);
        lemma_lines_joined(
            functions_listing(program.functions@, n - 1, floats),
            function_listing(program.functions@[n - 1], n - 1, floats),
        );
    }
}

/// The text of a program is its lines: its format, its entry, how many functions it has, and for
/// each function what it says of itself and all lines of its chunk, instruction by instruction.
pub proof fn programs_are_listed_function_by_function(program: Program, floats: Floats)
    ensures
        program_text(program@, floats) == all_lines(program_listing(program, floats)),
{
    let head = program_listing(program, floats)[0];
    lemma_functions(program, program.functions@.len() as int, floats);
    lemma_line(head);
    lemma_lines_joined(
        seq![head],
        functions_listing(program.functions@, program.functions@.len() as int, floats),
    );
    assert(program@.functions.len() == program.functions@.len());
}

} // verus!
