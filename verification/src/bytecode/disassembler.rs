//! Human-readable bytecode disassembler.

use vstd::prelude::*;
use vstd::string::StringExecFns;

use crate::bytecode::chunk::{option_view, option_views, string_views, Chunk, ChunkView};
use crate::bytecode::format::{BYTECODE_MAGIC, CURRENT_BYTECODE_VERSION};
use crate::bytecode::instruction::{
    OP_ADD, OP_ADD_INT, OP_ARRAY_GET, OP_ARRAY_NEW, OP_ARRAY_SET, OP_CALL_EXTENSION,
    OP_CALL_FUNCTION, OP_CALL_VALUE, OP_DIV, OP_DIV_INT, OP_EQUAL, OP_FIELD_GET, OP_FIELD_SET,
    OP_GREATER, OP_GREATER_EQUAL, OP_GREATER_EQUAL_INT, OP_GREATER_INT, OP_INDEX_GET, OP_INDEX_SET,
    OP_JUMP, OP_JUMP_IF_FALSE, OP_JUMP_IF_TRUE, OP_LESS, OP_LESS_EQUAL, OP_LESS_EQUAL_INT,
    OP_LESS_INT, OP_LOAD_CAPTURE, OP_LOAD_CAPTURE_CELL, OP_LOAD_CONST, OP_LOAD_STRING,
    OP_LOAD_UPVALUE, OP_MAKE_CLOSURE, OP_MAKE_UPVALUE, OP_MAP_NEW, OP_MOVE, OP_MUL, OP_MUL_INT,
    OP_NOT, OP_NOT_EQUAL, OP_POP_HANDLER, OP_PUSH_HANDLER, OP_RECORD_NEW, OP_STORE_CAPTURE,
    OP_STORE_UPVALUE, OP_SUB, OP_SUB_INT, OP_THROW,
};
use crate::bytecode::instruction::{Instruction, InstructionView, Operand};
use crate::bytecode::program::{
    Function, FunctionKind, FunctionKindView, FunctionView, Program, ProgramView,
};
use crate::text::{
    decimal, pad_right, push_decimal, push_padded, push_zero_padded, quoted, quoted_string,
    zero_padded,
};
use crate::value::{debug_value, value_debug_text, FloatTexts, Value};

verus! {

/// The texts of floating-point numbers by their bits.
pub type Floats = Map<u64, (Seq<char>, Seq<char>)>;

// ---------------------------------------------------------------------------
// Instructions
// ---------------------------------------------------------------------------

/// The mnemonic of an opcode.
pub open spec fn mnemonic(opcode: u8) -> Seq<char> {
    if opcode == OP_LOAD_CONST {
        "LoadConst"@
    } else if opcode == OP_LOAD_STRING {
        "LoadString"@
    } else if opcode == OP_MOVE {
        "Move"@
    } else if opcode == OP_ADD {
        "Add"@
    } else if opcode == OP_ADD_INT {
        "AddInt"@
    } else if opcode == OP_SUB {
        "Sub"@
    } else if opcode == OP_SUB_INT {
        "SubInt"@
    } else if opcode == OP_MUL {
        "Mul"@
    } else if opcode == OP_MUL_INT {
        "MulInt"@
    } else if opcode == OP_DIV {
        "Div"@
    } else if opcode == OP_DIV_INT {
        "DivInt"@
    } else if opcode == OP_JUMP {
        "Jump"@
    } else if opcode == OP_JUMP_IF_FALSE {
        "JumpIfFalse"@
    } else if opcode == OP_JUMP_IF_TRUE {
        "JumpIfTrue"@
    } else if opcode == OP_EQUAL {
        "Equal"@
    } else if opcode == OP_NOT_EQUAL {
        "NotEqual"@
    } else if opcode == OP_LESS {
        "Less"@
    } else if opcode == OP_LESS_INT {
        "LessInt"@
    } else if opcode == OP_LESS_EQUAL {
        "LessEqual"@
    } else if opcode == OP_LESS_EQUAL_INT {
        "LessEqualInt"@
    } else if opcode == OP_GREATER {
        "Greater"@
    } else if opcode == OP_GREATER_INT {
        "GreaterInt"@
    } else if opcode == OP_GREATER_EQUAL {
        "GreaterEqual"@
    } else if opcode == OP_GREATER_EQUAL_INT {
        "GreaterEqualInt"@
    } else if opcode == OP_NOT {
        "Not"@
    } else if opcode == OP_CALL_FUNCTION {
        "CallFunction"@
    } else if opcode == OP_MAKE_UPVALUE {
        "MakeUpvalue"@
    } else if opcode == OP_LOAD_UPVALUE {
        "LoadUpvalue"@
    } else if opcode == OP_STORE_UPVALUE {
        "StoreUpvalue"@
    } else if opcode == OP_MAKE_CLOSURE {
        "MakeClosure"@
    } else if opcode == OP_LOAD_CAPTURE {
        "LoadCapture"@
    } else if opcode == OP_LOAD_CAPTURE_CELL {
        "LoadCaptureCell"@
    } else if opcode == OP_STORE_CAPTURE {
        "StoreCapture"@
    } else if opcode == OP_CALL_VALUE {
        "CallValue"@
    } else if opcode == OP_CALL_EXTENSION {
        "CallExtension"@
    } else if opcode == OP_ARRAY_NEW {
        "ArrayNew"@
    } else if opcode == OP_MAP_NEW {
        "MapNew"@
    } else if opcode == OP_RECORD_NEW {
        "RecordNew"@
    } else if opcode == OP_INDEX_GET {
        "IndexGet"@
    } else if opcode == OP_INDEX_SET {
        "IndexSet"@
    } else if opcode == OP_ARRAY_GET {
        "ArrayGet"@
    } else if opcode == OP_ARRAY_SET {
        "ArraySet"@
    } else if opcode == OP_FIELD_GET {
        "FieldGet"@
    } else if opcode == OP_FIELD_SET {
        "FieldSet"@
    } else if opcode == OP_PUSH_HANDLER {
        "PushHandler"@
    } else if opcode == OP_POP_HANDLER {
        "PopHandler"@
    } else if opcode == OP_THROW {
        "Throw"@
    } else {
        "Return"@
    }
}

/// The mnemonic of an opcode.
fn mnemonic_of(opcode: u8) -> (name: &'static str)
    ensures
        name@ == mnemonic(opcode),
{
    if opcode == OP_LOAD_CONST {
        "LoadConst"
    } else if opcode == OP_LOAD_STRING {
        "LoadString"
    } else if opcode == OP_MOVE {
        "Move"
    } else if opcode == OP_ADD {
        "Add"
    } else if opcode == OP_ADD_INT {
        "AddInt"
    } else if opcode == OP_SUB {
        "Sub"
    } else if opcode == OP_SUB_INT {
        "SubInt"
    } else if opcode == OP_MUL {
        "Mul"
    } else if opcode == OP_MUL_INT {
        "MulInt"
    } else if opcode == OP_DIV {
        "Div"
    } else if opcode == OP_DIV_INT {
        "DivInt"
    } else if opcode == OP_JUMP {
        "Jump"
    } else if opcode == OP_JUMP_IF_FALSE {
        "JumpIfFalse"
    } else if opcode == OP_JUMP_IF_TRUE {
        "JumpIfTrue"
    } else if opcode == OP_EQUAL {
        "Equal"
    } else if opcode == OP_NOT_EQUAL {
        "NotEqual"
    } else if opcode == OP_LESS {
        "Less"
    } else if opcode == OP_LESS_INT {
        "LessInt"
    } else if opcode == OP_LESS_EQUAL {
        "LessEqual"
    } else if opcode == OP_LESS_EQUAL_INT {
        "LessEqualInt"
    } else if opcode == OP_GREATER {
        "Greater"
    } else if opcode == OP_GREATER_INT {
        "GreaterInt"
    } else if opcode == OP_GREATER_EQUAL {
        "GreaterEqual"
    } else if opcode == OP_GREATER_EQUAL_INT {
        "GreaterEqualInt"
    } else if opcode == OP_NOT {
        "Not"
    } else if opcode == OP_CALL_FUNCTION {
        "CallFunction"
    } else if opcode == OP_MAKE_UPVALUE {
        "MakeUpvalue"
    } else if opcode == OP_LOAD_UPVALUE {
        "LoadUpvalue"
    } else if opcode == OP_STORE_UPVALUE {
        "StoreUpvalue"
    } else if opcode == OP_MAKE_CLOSURE {
        "MakeClosure"
    } else if opcode == OP_LOAD_CAPTURE {
        "LoadCapture"
    } else if opcode == OP_LOAD_CAPTURE_CELL {
        "LoadCaptureCell"
    } else if opcode == OP_STORE_CAPTURE {
        "StoreCapture"
    } else if opcode == OP_CALL_VALUE {
        "CallValue"
    } else if opcode == OP_CALL_EXTENSION {
        "CallExtension"
    } else if opcode == OP_ARRAY_NEW {
        "ArrayNew"
    } else if opcode == OP_MAP_NEW {
        "MapNew"
    } else if opcode == OP_RECORD_NEW {
        "RecordNew"
    } else if opcode == OP_INDEX_GET {
        "IndexGet"
    } else if opcode == OP_INDEX_SET {
        "IndexSet"
    } else if opcode == OP_ARRAY_GET {
        "ArrayGet"
    } else if opcode == OP_ARRAY_SET {
        "ArraySet"
    } else if opcode == OP_FIELD_GET {
        "FieldGet"
    } else if opcode == OP_FIELD_SET {
        "FieldSet"
    } else if opcode == OP_PUSH_HANDLER {
        "PushHandler"
    } else if opcode == OP_POP_HANDLER {
        "PopHandler"
    } else if opcode == OP_THROW {
        "Throw"
    } else {
        "Return"
    }
}

/// The text of an operand.
pub open spec fn operand_text(operand: Operand) -> Seq<char> {
    match operand {
        Operand::Register(r) => r.text(),
        Operand::Constant(c) => c.text(),
        Operand::Text(s) => s.text(),
        Operand::Function(f) => f.text(),
        Operand::Target(t) => t.text(),
        Operand::Capture(c) => c.text(),
        Operand::Count(n) => decimal(n as nat),
    }
}

/// The texts of operands, separated by commas.
pub open spec fn joined_operands(operands: Seq<Operand>) -> Seq<char>
    decreases operands.len(),
{
    if operands.len() == 0 {
        Seq::empty()
    } else if operands.len() == 1 {
        operand_text(operands[0])
    } else {
        joined_operands(operands.drop_last()) + ", "@ + operand_text(operands.last())
    }
}

/// The text of an instruction: its mnemonic in a column and its operands. The fields of a
/// record stand in brackets, without their number.
pub open spec fn instruction_text(v: InstructionView) -> Seq<char> {
    if v.opcode == OP_POP_HANDLER {
        "PopHandler"@
    } else if v.opcode == OP_RECORD_NEW {
        pad_right(mnemonic(v.opcode), 11) + " "@ + joined_operands(v.operands.take(2)) + ", ["@
            + joined_operands(v.operands.skip(3)) + "]"@
    } else {
        pad_right(mnemonic(v.opcode), 11) + " "@ + joined_operands(v.operands)
    }
}

/// Appends the text of an operand.
fn push_operand(out: &mut String, operand: Operand)
    ensures
        final(out)@ == old(out)@ + operand_text(operand),
{
    match operand {
        Operand::Register(r) => out.append(r.to_string().as_str()),
        Operand::Constant(c) => out.append(c.to_string().as_str()),
        Operand::Text(s) => out.append(s.to_string().as_str()),
        Operand::Function(f) => out.append(f.to_string().as_str()),
        Operand::Target(t) => out.append(t.to_string().as_str()),
        Operand::Capture(c) => out.append(c.to_string().as_str()),
        Operand::Count(n) => push_decimal(out, n as u64),
    }
}

/// Appends the texts of the operands from `from` up to `to`, separated by commas.
fn push_operands(out: &mut String, operands: &Vec<Operand>, from: usize, to: usize)
    requires
        from <= to <= operands@.len(),
    ensures
        final(out)@ == old(out)@ + joined_operands(operands@.subrange(from as int, to as int)),
{
    let mut i: usize = from;
    assert(operands@.subrange(from as int, from as int) =~= Seq::empty());
    assert(old(out)@ + Seq::<char>::empty() =~= old(out)@);
    while i < to
        invariant
            from <= i <= to <= operands@.len(),
            out@ == old(out)@ + joined_operands(operands@.subrange(from as int, i as int)),
        decreases to - i,
    {
        let ghost before = operands@.subrange(from as int, i as int);
        let ghost after = operands@.subrange(from as int, i + 1);
        assert(after.drop_last() =~= before);
        assert(after.last() == operands@[i as int]);
        if i > from {
            out.append(", ");
        }
        push_operand(out, operands[i]);
        i = i + 1;
        assert(out@ =~= old(out)@ + joined_operands(after));
    }
}

/// Formats one instruction without requiring chunk/program context.
pub fn format_instruction(instruction: &Instruction) -> (s: String)
    ensures
        s@ == instruction_text(instruction@),
{
    let opcode: u8 = instruction.opcode_byte();
    if opcode == OP_POP_HANDLER {
        return String::from_str("PopHandler");
    }
    let operands = instruction.operand_list();
    let mut s = String::new();
    push_padded(&mut s, mnemonic_of(opcode), 11);
    s.append(" ");
    if opcode == OP_RECORD_NEW {
        proof {
            match *instruction {
                Instruction::RecordNew { .. } => {},
                _ => {
                    assert(false);
                },
            }
        }
        push_operands(&mut s, &operands, 0, 2);
        s.append(", [");
        push_operands(&mut s, &operands, 3, operands.len());
        s.append("]");
        assert(operands@.subrange(0, 2) =~= operands@.take(2));
        assert(operands@.subrange(3, operands@.len() as int) =~= operands@.skip(3));
    } else {
        push_operands(&mut s, &operands, 0, operands.len());
        assert(operands@.subrange(0, operands@.len() as int) =~= operands@);
    }
    assert(s@ =~= instruction_text(instruction@));
    s
}

// ---------------------------------------------------------------------------
// Chunks
// ---------------------------------------------------------------------------

/// One line for each named register.
pub open spec fn local_lines(names: Seq<Option<Seq<char>>>) -> Seq<char>
    decreases names.len(),
{
    if names.len() == 0 {
        Seq::empty()
    } else {
        let before = local_lines(names.drop_last());
        match names.last() {
            Some(name) => before + "  r"@ + decimal((names.len() - 1) as nat) + " "@ + name + "\n"@,
            None => before,
        }
    }
}

/// One line for each constant.
pub open spec fn constant_lines(constants: Seq<Value>, floats: Floats) -> Seq<char>
    decreases constants.len(),
{
    if constants.len() == 0 {
        Seq::empty()
    } else {
        constant_lines(constants.drop_last(), floats) + "  #"@ + decimal(
            (constants.len() - 1) as nat,
        ) + " "@ + value_debug_text(constants.last(), floats) + "\n"@
    }
}

/// One line for each string.
pub open spec fn string_lines(strings: Seq<Seq<char>>) -> Seq<char>
    decreases strings.len(),
{
    if strings.len() == 0 {
        Seq::empty()
    } else {
        string_lines(strings.drop_last()) + "  str#"@ + decimal((strings.len() - 1) as nat) + " "@
            + quoted(strings.last()) + "\n"@
    }
}

/// The comment behind an instruction that loads a constant or a string of the pools.
pub open spec fn load_comment(c: ChunkView, v: InstructionView, floats: Floats) -> Seq<char> {
    if v.opcode == OP_LOAD_CONST && v.operands[1]->Constant_0.0 < c.constants.len() {
        " ; "@ + value_debug_text(c.constants[v.operands[1]->Constant_0.0 as int], floats)
    } else if v.opcode == OP_LOAD_STRING && v.operands[1]->Text_0.0 < c.strings.len() {
        " ; "@ + quoted(c.strings[v.operands[1]->Text_0.0 as int])
    } else {
        Seq::empty()
    }
}

/// One line for each of the first `n` instructions.
pub open spec fn instruction_lines(c: ChunkView, n: nat, floats: Floats) -> Seq<char>
    decreases n,
{
    if n == 0 {
        Seq::empty()
    } else {
        let v = c.instructions[n - 1];
        instruction_lines(c, (n - 1) as nat, floats) + zero_padded((n - 1) as nat, 4) + " "@
            + instruction_text(v) + load_comment(c, v, floats) + "\n"@
    }
}

/// The lines about the chunk as a whole.
pub open spec fn chunk_header(c: ChunkView) -> Seq<char> {
    "== "@ + c.name + " ==\n"@ + "format: "@ + BYTECODE_MAGIC@ + " v"@ + decimal(
        CURRENT_BYTECODE_VERSION as nat,
    ) + "\n"@ + "registers: "@ + decimal(c.register_count as nat) + "\n"@ + "arity: "@ + decimal(
        c.arity as nat,
    ) + "\n"@ + "captures: "@ + decimal(c.capture_count as nat) + "\n"@
}

/// The lines about the register names.
pub open spec fn locals_section(c: ChunkView) -> Seq<char> {
    if c.debug_local_names.len() == 0 {
        Seq::empty()
    } else {
        "locals:\n"@ + local_lines(c.debug_local_names)
    }
}

/// The lines about the constants.
pub open spec fn constants_section(c: ChunkView, floats: Floats) -> Seq<char> {
    if c.constants.len() == 0 {
        "constants:\n"@ + "  <empty>\n"@
    } else {
        "constants:\n"@ + constant_lines(c.constants, floats)
    }
}

/// The lines about the strings.
pub open spec fn strings_section(c: ChunkView) -> Seq<char> {
    if c.strings.len() == 0 {
        Seq::empty()
    } else {
        "strings:\n"@ + string_lines(c.strings)
    }
}

/// The text of a chunk.
pub open spec fn chunk_text(c: ChunkView, floats: Floats) -> Seq<char> {
    chunk_header(c) + locals_section(c) + constants_section(c, floats) + strings_section(c) + "\n"@
        + instruction_lines(c, c.instructions.len(), floats)
}

/// The lines about function `index` of a program.
pub open spec fn function_text(f: FunctionView, index: nat, floats: Floats) -> Seq<char> {
    "\n-- fn#"@ + decimal(index) + " "@ + f.name + " arity="@ + decimal(f.arity as nat)
        + " registers="@ + decimal(f.register_count as nat) + " captures="@ + decimal(
        f.capture_count as nat,
    ) + " --\n"@ + match f.kind {
        FunctionKindView::Bytecode(c) => chunk_text(c, floats),
        FunctionKindView::Native(name) => "native: "@ + name + "\n"@,
    }
}

/// The lines about the first `n` functions.
pub open spec fn function_texts(functions: Seq<FunctionView>, n: nat, floats: Floats) -> Seq<char>
    decreases n,
{
    if n == 0 {
        Seq::empty()
    } else {
        function_texts(functions, (n - 1) as nat, floats) + function_text(
            functions[n - 1],
            (n - 1) as nat,
            floats,
        )
    }
}

/// The text of a program.
pub open spec fn program_text(p: ProgramView, floats: Floats) -> Seq<char> {
    "== program ==\nformat: "@ + p.magic + " v"@ + decimal(p.version as nat) + " flags="@ + decimal(
        p.feature_flags as nat,
    ) + "\nentry: "@ + p.entry.text() + "\nfunctions: "@ + decimal(p.functions.len()) + "\n"@
        + function_texts(p.functions, p.functions.len(), floats)
}

/// Stateless disassembler for chunks and whole programs.
#[derive(Clone, Copy, Debug, Default, PartialEq, Eq)]
pub struct Disassembler;

/// Appends the lines about the chunk as a whole.
fn write_header(chunk: &Chunk) -> (s: String)
    ensures
        s@ == chunk_header(chunk@),
{
    let mut s = String::from_str("== ");
    s.append(chunk.name.as_str());
    s.append(" ==\n");
    s.append("format: ");
    s.append(BYTECODE_MAGIC);
    s.append(" v");
    push_decimal(&mut s, CURRENT_BYTECODE_VERSION as u64);
    s.append("\n");
    s.append("registers: ");
    push_decimal(&mut s, chunk.register_count as u64);
    s.append("\n");
    s.append("arity: ");
    push_decimal(&mut s, chunk.arity as u64);
    s.append("\n");
    s.append("captures: ");
    push_decimal(&mut s, chunk.capture_count as u64);
    s.append("\n");
    s
}

/// The lines about the register names.
fn debug_locals(chunk: &Chunk) -> (s: String)
    ensures
        s@ == locals_section(chunk@),
{
    if chunk.debug_local_names.len() == 0 {
        return String::new();
    }
    let ghost names = option_views(chunk.debug_local_names@);
    let mut s = String::new();
    let mut i: usize = 0;
    while i < chunk.debug_local_names.len()
        invariant
            i <= chunk.debug_local_names@.len(),
            names == option_views(chunk.debug_local_names@),
            s@ == local_lines(names.take(i as int)),
        decreases chunk.debug_local_names.len() - i,
    {
        assert(names.take(i + 1).drop_last() =~= names.take(i as int));
        assert(names.take(i + 1).last() == option_view(chunk.debug_local_names@[i as int]));
        if let Some(name) = &chunk.debug_local_names[i] {
            s.append("  r");
            push_decimal(&mut s, i as u64);
            s.append(" ");
            s.append(name.as_str());
            s.append("\n");
        }
        i = i + 1;
    }
    assert(names.take(i as int) =~= names);
    let mut out = String::from_str("locals:\n");
    out.append(s.as_str());
    out
}

/// The lines about the constants.
fn constants_text(chunk: &Chunk, floats: &FloatTexts) -> (s: String)
    ensures
        s@ == constants_section(chunk@, floats@),
{
    let mut out = String::from_str("constants:\n");
    if chunk.constants.len() == 0 {
        out.append("  <empty>\n");
        return out;
    }
    let ghost constants = chunk.constants@;
    let mut s = String::new();
    let mut i: usize = 0;
    while i < chunk.constants.len()
        invariant
            i <= chunk.constants@.len(),
            constants == chunk.constants@,
            s@ == constant_lines(constants.take(i as int), floats@),
        decreases chunk.constants.len() - i,
    {
        assert(constants.take(i + 1).drop_last() =~= constants.take(i as int));
        s.append("  #");
        push_decimal(&mut s, i as u64);
        s.append(" ");
        s.append(debug_value(&chunk.constants[i], floats).as_str());
        s.append("\n");
        i = i + 1;
    }
    assert(constants.take(i as int) =~= constants);
    out.append(s.as_str());
    out
}

/// The lines about the strings.
fn strings_text(chunk: &Chunk) -> (s: String)
    ensures
        s@ == strings_section(chunk@),
{
    if chunk.strings.len() == 0 {
        return String::new();
    }
    let ghost strings = string_views(chunk.strings@);
    let mut s = String::new();
    let mut i: usize = 0;
    while i < chunk.strings.len()
        invariant
            i <= chunk.strings@.len(),
            strings == string_views(chunk.strings@),
            s@ == string_lines(strings.take(i as int)),
        decreases chunk.strings.len() - i,
    {
        assert(strings.take(i + 1).drop_last() =~= strings.take(i as int));
        assert(strings.take(i + 1).last() == chunk.strings@[i as int]@);
        s.append("  str#");
        push_decimal(&mut s, i as u64);
        s.append(" ");
        s.append(quoted_string(chunk.strings[i].as_str()).as_str());
        s.append("\n");
        i = i + 1;
    }
    assert(strings.take(i as int) =~= strings);
    let mut out = String::from_str("strings:\n");
    out.append(s.as_str());
    out
}

/// The comment behind an instruction.
fn comment_text(chunk: &Chunk, instruction: &Instruction, floats: &FloatTexts) -> (s: String)
    ensures
        s@ == load_comment(chunk@, instruction@, floats@),
{
    match instruction {
        Instruction::LoadConst { constant, .. } => {
            if (constant.0 as usize) < chunk.constants.len() {
                let mut s = String::from_str(" ; ");
                let value = &chunk.constants[constant.0 as usize];
                s.append(debug_value(value, floats).as_str());
                return s;
            }
        },
        Instruction::LoadString { string, .. } => {
            if (string.0 as usize) < chunk.strings.len() {
                let mut s = String::from_str(" ; ");
                s.append(quoted_string(chunk.strings[string.0 as usize].as_str()).as_str());
                return s;
            }
        },
        _ => {},
    }
    String::new()
}

/// The lines about the instructions.
fn code_text(chunk: &Chunk, floats: &FloatTexts) -> (s: String)
    ensures
        s@ == instruction_lines(chunk@, chunk@.instructions.len(), floats@),
{
    let mut s = String::new();
    let mut ip: usize = 0;
    while ip < chunk.instructions.len()
        invariant
            ip <= chunk.instructions@.len(),
            s@ == instruction_lines(chunk@, ip as nat, floats@),
        decreases chunk.instructions.len() - ip,
    {
        let instruction = &chunk.instructions[ip];
        assert(chunk@.instructions[ip as int] == instruction@);
        push_zero_padded(&mut s, ip as u64, 4);
        s.append(" ");
        s.append(format_instruction(instruction).as_str());
        s.append(comment_text(chunk, instruction, floats).as_str());
        s.append("\n");
        ip = ip + 1;
    }
    s
}

impl Disassembler {
    /// Formats one chunk into deterministic text.
    pub fn disassemble_chunk(chunk: &Chunk, floats: &FloatTexts) -> (s: String)
        ensures
            s@ == chunk_text(chunk@, floats@),
    {
        let mut s = write_header(chunk);
        s.append(debug_locals(chunk).as_str());
        s.append(constants_text(chunk, floats).as_str());
        s.append(strings_text(chunk).as_str());
        s.append("\n");
        s.append(code_text(chunk, floats).as_str());
        s
    }

    /// Formats a whole program and its function table.
    pub fn disassemble_program(program: &Program, floats: &FloatTexts) -> (s: String)
        ensures
            s@ == program_text(program@, floats@),
    {
        let mut s = String::from_str("== program ==\nformat: ");
        s.append(program.format.magic);
        s.append(" v");
        push_decimal(&mut s, program.format.version as u64);
        s.append(" flags=");
        push_decimal(&mut s, program.format.feature_flags as u64);
        s.append("\nentry: ");
        s.append(program.entry.to_string().as_str());
        s.append("\nfunctions: ");
        push_decimal(&mut s, program.functions.len() as u64);
        s.append("\n");
        let mut functions = String::new();
        let mut i: usize = 0;
        while i < program.functions.len()
            invariant
                i <= program.functions@.len(),
                functions@ == function_texts(program@.functions, i as nat, floats@),
            decreases program.functions.len() - i,
        {
            let function = &program.functions[i];
            assert(program@.functions[i as int] == function@);
            let text = Self::function(function, i, floats);
            functions.append(text.as_str());
            i = i + 1;
        }
        s.append(functions.as_str());
        s
    }

    /// The lines about one function.
    fn function(function: &Function, index: usize, floats: &FloatTexts) -> (s: String)
        ensures
            s@ == function_text(function@, index as nat, floats@),
    {
        let mut s = String::from_str("\n-- fn#");
        push_decimal(&mut s, index as u64);
        s.append(" ");
        s.append(function.name.as_str());
        s.append(" arity=");
        push_decimal(&mut s, function.arity as u64);
        s.append(" registers=");
        push_decimal(&mut s, function.register_count as u64);
        s.append(" captures=");
        push_decimal(&mut s, function.capture_count as u64);
        s.append(" --\n");
        match &function.kind {
            FunctionKind::Bytecode(chunk) => {
                s.append(Self::disassemble_chunk(chunk, floats).as_str());
            },
            FunctionKind::Native { name } => {
                let mut native = String::from_str("native: ");
                native.append(name.as_str());
                native.append("\n");
                s.append(native.as_str());
            },
        }
        s
    }
}

} // verus!
