//! Reading programs back from bytes.

use vstd::prelude::*;
use vstd::slice::slice_subrange;
use vstd::string::{StrSliceExecFns, StringSliceAdditionalSpecFns};
use vstd::utf8::{decode_utf8, encode_utf8, valid_utf8};

use crate::bytecode::chunk::{
    instruction_views, option_view, option_views, string_views, Chunk, ChunkView,
};
use crate::bytecode::encoding::FORMAT_VERSION;
use crate::bytecode::format::{BytecodeFormat, BYTECODE_MAGIC};
use crate::bytecode::instruction::{
    CaptureId, ConstId, FunctionId, Instruction, InstructionView, JumpTarget, Operand, Register,
    StringId, OP_RECORD_NEW,
};
use crate::bytecode::layout::{kind_of, kinds_of, layout, operand_layout, OperandKind};
use crate::bytecode::program::{
    Function, FunctionKind, FunctionKindView, FunctionView, Program, ProgramView,
};
use crate::bytecode::wire::{
    byte_range, le_value, lemma_byte_ranges, lemma_le_value_range, lemma_prepend_push, prepend,
    read_bytes, read_list, read_number, BytecodeDecodeError, Parse,
};
use crate::diagnostics::span::{FileId, SourceSpan};
use crate::object::ObjRef;
use crate::text::bytes_equal;
use crate::value::Value;

verus! {

/// `String::from_utf8` accepts exactly the valid UTF-8 byte sequences and gives the text that
/// they encode.
#[verifier::external_body]
fn string_from_utf8(bytes: &[u8]) -> (text: Option<String>)
    ensures
        match text {
            Some(text) => valid_utf8(bytes@) && text@ == decode_utf8(bytes@),
            None => !valid_utf8(bytes@),
        },
{
    String::from_utf8(bytes.to_vec()).ok()
}

// ---------------------------------------------------------------------------
// The grammar
// ---------------------------------------------------------------------------

/// Reads one byte.
pub open spec fn read_byte(rest: Seq<u8>) -> Parse<u8> {
    match read_number(1, rest) {
        Err(error) => Err(error),
        Ok((n, behind)) => Ok((n as u8, behind)),
    }
}

/// Reads a text: its length in bytes, then that many bytes of UTF-8.
pub open spec fn read_text(rest: Seq<u8>) -> Parse<Seq<char>> {
    match read_number(4, rest) {
        Err(error) => Err(error),
        Ok((len, rest)) => match read_bytes(len, rest) {
            Err(error) => Err(error),
            Ok((bytes, rest)) => if valid_utf8(bytes) {
                Ok((decode_utf8(bytes), rest))
            } else {
                Err(BytecodeDecodeError::InvalidUtf8)
            },
        },
    }
}

/// Reads an optional text: any flag byte but zero stands for a text.
pub open spec fn read_option_text(rest: Seq<u8>) -> Parse<Option<Seq<char>>> {
    match read_byte(rest) {
        Err(error) => Err(error),
        Ok((flag, rest)) => if flag == 0 {
            Ok((None, rest))
        } else {
            match read_text(rest) {
                Err(error) => Err(error),
                Ok((text, rest)) => Ok((Some(text), rest)),
            }
        },
    }
}

/// Reads a flag: any byte but zero is true.
pub open spec fn read_flag(rest: Seq<u8>) -> Parse<bool> {
    match read_byte(rest) {
        Err(error) => Err(error),
        Ok((flag, rest)) => Ok((flag != 0, rest)),
    }
}

/// Reads a value: a tag byte and the content.
pub open spec fn read_value(rest: Seq<u8>) -> Parse<Value> {
    match read_byte(rest) {
        Err(error) => Err(error),
        Ok((tag, rest)) => if tag == 0 {
            Ok((Value::Nil, rest))
        } else if tag == 1 {
            match read_flag(rest) {
                Err(error) => Err(error),
                Ok((flag, rest)) => Ok((Value::Bool(flag), rest)),
            }
        } else if tag == 2 {
            match read_number(8, rest) {
                Err(error) => Err(error),
                Ok((n, rest)) => Ok((Value::Int((n as u64) as i64), rest)),
            }
        } else if tag == 3 {
            match read_number(8, rest) {
                Err(error) => Err(error),
                Ok((n, rest)) => Ok((Value::Float(n as u64), rest)),
            }
        } else if tag == 4 {
            match read_number(4, rest) {
                Err(error) => Err(error),
                Ok((index, rest)) => match read_number(4, rest) {
                    Err(error) => Err(error),
                    Ok((generation, rest)) => Ok(
                        (
                            Value::Obj(
                                ObjRef { index: index as u32, generation: generation as u32 },
                            ),
                            rest,
                        ),
                    ),
                },
            }
        } else {
            Err(BytecodeDecodeError::InvalidValueTag { tag })
        },
    }
}

/// Reads an offset that must fit in a `usize`.
pub open spec fn read_offset(field: &'static str, rest: Seq<u8>) -> Parse<usize> {
    match read_number(8, rest) {
        Err(error) => Err(error),
        Ok((n, rest)) => if n > usize::MAX {
            Err(BytecodeDecodeError::LengthTooLarge { field })
        } else {
            Ok((n as usize, rest))
        },
    }
}

/// Reads an optional span: any flag byte but zero stands for a span.
pub open spec fn read_option_span(rest: Seq<u8>) -> Parse<Option<SourceSpan>> {
    match read_byte(rest) {
        Err(error) => Err(error),
        Ok((flag, rest)) => if flag == 0 {
            Ok((None, rest))
        } else {
            match read_number(4, rest) {
                Err(error) => Err(error),
                Ok((file, rest)) => match read_offset("span.start", rest) {
                    Err(error) => Err(error),
                    Ok((start, rest)) => match read_offset("span.end", rest) {
                        Err(error) => Err(error),
                        Ok((end, rest)) => Ok(
                            (Some(SourceSpan { file_id: FileId(file as u32), start, end }), rest),
                        ),
                    },
                },
            }
        },
    }
}

/// The width in bytes of an operand.
pub open spec fn operand_width(kind: OperandKind) -> nat {
    match kind {
        OperandKind::Register => 1,
        OperandKind::Constant => 2,
        OperandKind::Text => 2,
        OperandKind::Function => 2,
        OperandKind::Target => 4,
        OperandKind::Capture => 1,
        OperandKind::Count => 1,
    }
}

/// The operand of a kind with the given number.
pub open spec fn operand_from(kind: OperandKind, n: nat) -> Operand {
    match kind {
        OperandKind::Register => Operand::Register(Register(n as u8)),
        OperandKind::Constant => Operand::Constant(ConstId(n as u16)),
        OperandKind::Text => Operand::Text(StringId(n as u16)),
        OperandKind::Function => Operand::Function(FunctionId(n as u16)),
        OperandKind::Target => Operand::Target(JumpTarget(n as u32)),
        OperandKind::Capture => Operand::Capture(CaptureId(n as u8)),
        OperandKind::Count => Operand::Count(n as u8),
    }
}

/// Reads an operand of a kind.
pub open spec fn read_operand(kind: OperandKind, rest: Seq<u8>) -> Parse<Operand> {
    match read_number(operand_width(kind), rest) {
        Err(error) => Err(error),
        Ok((n, rest)) => Ok((operand_from(kind, n), rest)),
    }
}

/// Reads operands of the given kinds.
pub open spec fn read_operands(kinds: Seq<OperandKind>, rest: Seq<u8>) -> Parse<Seq<Operand>>
    decreases kinds.len(),
{
    if kinds.len() == 0 {
        Ok((Seq::empty(), rest))
    } else {
        match read_operand(kinds[0], rest) {
            Err(error) => Err(error),
            Ok((operand, rest)) => prepend(
                seq![operand],
                read_operands(kinds.drop_first(), rest),
            ),
        }
    }
}

/// A list of `n` string operands.
pub open spec fn text_kinds(n: nat) -> Seq<OperandKind> {
    Seq::new(n, |i: int| OperandKind::Text)
}

/// Reads an instruction: an opcode, its fixed operands, and the fields of a record.
pub open spec fn read_instruction(rest: Seq<u8>) -> Parse<InstructionView> {
    match read_byte(rest) {
        Err(error) => Err(error),
        Ok((opcode, rest)) => match layout(opcode) {
            None => Err(BytecodeDecodeError::InvalidInstructionOpcode { opcode }),
            Some(kinds) => match read_operands(kinds, rest) {
                Err(error) => Err(error),
                Ok((operands, rest)) => if opcode == OP_RECORD_NEW {
                    match read_operands(text_kinds(operands[2]->Count_0 as nat), rest) {
                        Err(error) => Err(error),
                        Ok((fields, rest)) => Ok(
                            (InstructionView { opcode, operands: operands + fields }, rest),
                        ),
                    }
                } else {
                    Ok((InstructionView { opcode, operands }, rest))
                },
            },
        },
    }
}

pub open spec fn value_reader() -> spec_fn(Seq<u8>) -> Parse<Value> {
    |rest: Seq<u8>| read_value(rest)
}

pub open spec fn text_reader() -> spec_fn(Seq<u8>) -> Parse<Seq<char>> {
    |rest: Seq<u8>| read_text(rest)
}

pub open spec fn option_text_reader() -> spec_fn(Seq<u8>) -> Parse<Option<Seq<char>>> {
    |rest: Seq<u8>| read_option_text(rest)
}

pub open spec fn option_span_reader() -> spec_fn(Seq<u8>) -> Parse<Option<SourceSpan>> {
    |rest: Seq<u8>| read_option_span(rest)
}

pub open spec fn instruction_reader() -> spec_fn(Seq<u8>) -> Parse<InstructionView> {
    |rest: Seq<u8>| read_instruction(rest)
}

/// Reads a list: its length, then its items.
#[verifier::opaque]
pub open spec fn read_counted<A>(
    rest: Seq<u8>,
    read_item: spec_fn(Seq<u8>) -> Parse<A>,
) -> Parse<Seq<A>> {
    match read_number(4, rest) {
        Err(error) => Err(error),
        Ok((n, rest)) => read_list(n, rest, read_item),
    }
}

/// Reads a name and the three count bytes behind it.
pub open spec fn read_header(rest: Seq<u8>) -> Parse<(Seq<char>, u8, u8, u8)> {
    match read_text(rest) {
        Err(error) => Err(error),
        Ok((name, rest)) => match read_byte(rest) {
            Err(error) => Err(error),
            Ok((arity, rest)) => match read_byte(rest) {
                Err(error) => Err(error),
                Ok((register_count, rest)) => match read_byte(rest) {
                    Err(error) => Err(error),
                    Ok((capture_count, rest)) => Ok(
                        ((name, arity, register_count, capture_count), rest),
                    ),
                },
            },
        },
    }
}

/// Reads a chunk.
#[verifier::opaque]
pub open spec fn read_chunk(rest: Seq<u8>) -> Parse<ChunkView> {
    match read_header(rest) {
        Err(error) => Err(error),
        Ok(((name, arity, register_count, capture_count), rest)) => match read_counted(
            rest,
            value_reader(),
        ) {
            Err(error) => Err(error),
            Ok((constants, rest)) => match read_counted(rest, text_reader()) {
                Err(error) => Err(error),
                Ok((strings, rest)) => match read_counted(rest, instruction_reader()) {
                    Err(error) => Err(error),
                    Ok((instructions, rest)) => match read_counted(rest, option_span_reader()) {
                        Err(error) => Err(error),
                        Ok((source_map, rest)) => match read_counted(rest, option_text_reader()) {
                            Err(error) => Err(error),
                            Ok((debug_local_names, rest)) => Ok(
                                (
                                    ChunkView {
                                        name,
                                        arity,
                                        register_count,
                                        capture_count,
                                        constants,
                                        strings,
                                        instructions,
                                        source_map,
                                        debug_local_names,
                                    },
                                    rest,
                                ),
                            ),
                        },
                    },
                },
            },
        },
    }
}

/// Reads a function.
#[verifier::opaque]
pub open spec fn read_function(rest: Seq<u8>) -> Parse<FunctionView> {
    match read_header(rest) {
        Err(error) => Err(error),
        Ok(((name, arity, register_count, capture_count), rest)) => match read_byte(rest) {
            Err(error) => Err(error),
            Ok((tag, rest)) => if tag == 0 {
                match read_chunk(rest) {
                    Err(error) => Err(error),
                    Ok((chunk, rest)) => Ok(
                        (
                            FunctionView {
                                name,
                                arity,
                                register_count,
                                capture_count,
                                kind: FunctionKindView::Bytecode(chunk),
                            },
                            rest,
                        ),
                    ),
                }
            } else if tag == 1 {
                match read_text(rest) {
                    Err(error) => Err(error),
                    Ok((native, rest)) => Ok(
                        (
                            FunctionView {
                                name,
                                arity,
                                register_count,
                                capture_count,
                                kind: FunctionKindView::Native(native),
                            },
                            rest,
                        ),
                    ),
                }
            } else {
                Err(BytecodeDecodeError::InvalidFunctionKind { tag })
            },
        },
    }
}

/// Reads `n` functions into a table that already holds `held` of them and has room for as many
/// as a function id can address.
pub open spec fn read_functions(n: nat, held: nat, rest: Seq<u8>) -> Parse<Seq<FunctionView>>
    decreases n,
{
    if n == 0 {
        Ok((Seq::empty(), rest))
    } else {
        match read_function(rest) {
            Err(error) => Err(error),
            Ok((function, rest)) => if held > u16::MAX {
                Err(BytecodeDecodeError::LengthTooLarge { field: "functions" })
            } else {
                prepend(seq![function], read_functions((n - 1) as nat, held + 1, rest))
            },
        }
    }
}

/// Reads the expected magic bytes.
pub open spec fn read_magic(magic: Seq<u8>, rest: Seq<u8>) -> Parse<()> {
    match read_bytes(magic.len(), rest) {
        Err(error) => Err(error),
        Ok((bytes, rest)) => if bytes == magic {
            Ok(((), rest))
        } else {
            Err(BytecodeDecodeError::InvalidMagic)
        },
    }
}

/// Reads the fixed part of a program: magic, versions, feature flags, entry, function count.
pub open spec fn read_program_header(rest: Seq<u8>) -> Parse<(u16, u32, FunctionId, nat)> {
    match read_magic(encode_utf8(BYTECODE_MAGIC@), rest) {
        Err(error) => Err(error),
        Ok((_, rest)) => match read_number(2, rest) {
            Err(error) => Err(error),
            Ok((format_version, rest)) => if format_version != FORMAT_VERSION {
                Err(BytecodeDecodeError::UnsupportedVersion { version: format_version as u16 })
            } else {
                match read_number(2, rest) {
                    Err(error) => Err(error),
                    Ok((version, rest)) => match read_number(4, rest) {
                        Err(error) => Err(error),
                        Ok((flags, rest)) => match read_number(2, rest) {
                            Err(error) => Err(error),
                            Ok((entry, rest)) => match read_number(4, rest) {
                                Err(error) => Err(error),
                                Ok((count, rest)) => Ok(
                                    (
                                        (
                                            version as u16,
                                            flags as u32,
                                            FunctionId(entry as u16),
                                            count,
                                        ),
                                        rest,
                                    ),
                                ),
                            },
                        },
                    },
                }
            },
        },
    }
}

/// The program that some bytes stand for, before verification.
pub open spec fn parsed_program(bytes: Seq<u8>) -> Result<ProgramView, BytecodeDecodeError> {
    match read_program_header(bytes) {
        Err(error) => Err(error),
        Ok(((version, feature_flags, entry, count), rest)) => match read_functions(count, 0, rest) {
            Err(error) => Err(error),
            Ok((functions, rest)) => if rest.len() != 0 {
                Err(BytecodeDecodeError::TrailingBytes { count: rest.len() as usize })
            } else {
                Ok(
                    ProgramView {
                        magic: BYTECODE_MAGIC@,
                        version,
                        feature_flags,
                        functions,
                        entry,
                    },
                )
            },
        },
    }
}

// ---------------------------------------------------------------------------
// The decoder
// ---------------------------------------------------------------------------

/// Reads from the front of a byte slice.
pub struct Decoder<'a> {
    pub bytes: &'a [u8],
    pub cursor: usize,
}

impl<'a> Decoder<'a> {
    /// The cursor stays inside the bytes.
    pub open spec fn wf(self) -> bool {
        self.cursor <= self.bytes@.len()
    }

    /// The bytes that have not been read.
    pub open spec fn rest(self) -> Seq<u8> {
        self.bytes@.skip(self.cursor as int)
    }

    /// Whether this decoder reads the same bytes as an earlier one and is in order.
    pub open spec fn follows(self, earlier: Self) -> bool {
        self.wf() && self.bytes == earlier.bytes
    }

    /// A decoder at the front of some bytes.
    pub fn new(bytes: &'a [u8]) -> (decoder: Self)
        ensures
            decoder.wf(),
            decoder.bytes == bytes,
            decoder.rest() == bytes@,
    {
        let decoder = Decoder { bytes, cursor: 0 };
        assert(decoder.rest() =~= bytes@);
        decoder
    }

    /// The number of bytes that have not been read.
    pub fn remaining(&self) -> (n: usize)
        requires
            self.wf(),
        ensures
            n == self.rest().len(),
    {
        self.bytes.len() - self.cursor
    }

    /// Reads `len` bytes.
    pub fn take(&mut self, len: usize) -> (result: Result<&'a [u8], BytecodeDecodeError>)
        requires
            old(self).wf(),
        ensures
            final(self).follows(*old(self)),
            match result {
                Ok(bytes) => read_bytes(len as nat, old(self).rest()) == Ok::<
                    (Seq<u8>, Seq<u8>),
                    BytecodeDecodeError,
                >((bytes@, final(self).rest())) && final(self).cursor == old(self).cursor + len,
                Err(error) => read_bytes(len as nat, old(self).rest()) == Err::<
                    (Seq<u8>, Seq<u8>),
                    BytecodeDecodeError,
                >(error),
            },
    {
        if len > self.bytes.len() - self.cursor {
            return Err(BytecodeDecodeError::UnexpectedEof);
        }
        let start: usize = self.cursor;
        let bytes = slice_subrange(self.bytes, start, start + len);
        self.cursor = start + len;
        assert(bytes@ =~= old(self).rest().take(len as int));
        assert(self.rest() =~= old(self).rest().skip(len as int));
        Ok(bytes)
    }

    /// Reads a little-endian number of `width` bytes.
    pub fn number(&mut self, width: usize) -> (result: Result<u64, BytecodeDecodeError>)
        requires
            old(self).wf(),
            width <= 8,
        ensures
            final(self).follows(*old(self)),
            match result {
                Ok(n) => read_number(width as nat, old(self).rest()) == Ok::<
                    (nat, Seq<u8>),
                    BytecodeDecodeError,
                >((n as nat, final(self).rest())) && n < byte_range(width as nat),
                Err(error) => read_number(width as nat, old(self).rest()) == Err::<
                    (nat, Seq<u8>),
                    BytecodeDecodeError,
                >(error),
            },
    {
        let bytes = self.take(width)?;
        let mut value: u64 = 0;
        let mut left: usize = width;
        assert(bytes@.skip(width as int) =~= Seq::empty());
        while left > 0
            invariant
                left <= width <= 8,
                bytes@.len() == width,
                value == le_value(bytes@.skip(left as int)),
                value < byte_range((width - left) as nat),
            decreases left,
        {
            proof {
                assert(bytes@.skip(left - 1).drop_first() =~= bytes@.skip(left as int));
                assert(bytes@.skip(left - 1)[0] == bytes@[left - 1]);
                reveal_with_fuel(byte_range, 9);
                lemma_le_value_range(bytes@.skip(left - 1));
            }
            left = left - 1;
            value = value * 256 + bytes[left] as u64;
        }
        assert(bytes@.skip(0) =~= bytes@);
        Ok(value)
    }

    /// Reads one byte.
    pub fn byte(&mut self) -> (result: Result<u8, BytecodeDecodeError>)
        requires
            old(self).wf(),
        ensures
            final(self).follows(*old(self)),
            match result {
                Ok(b) => read_byte(old(self).rest()) == Ok::<(u8, Seq<u8>), BytecodeDecodeError>(
                    (b, final(self).rest()),
                ),
                Err(error) => read_byte(old(self).rest()) == Err::<
                    (u8, Seq<u8>),
                    BytecodeDecodeError,
                >(error),
            },
    {
        proof {
            lemma_byte_ranges();
        }
        let n: u64 = self.number(1)?;
        Ok(n as u8)
    }

    /// Reads a length.
    pub fn length(&mut self) -> (result: Result<usize, BytecodeDecodeError>)
        requires
            old(self).wf(),
        ensures
            final(self).follows(*old(self)),
            match result {
                Ok(n) => read_number(4, old(self).rest()) == Ok::<
                    (nat, Seq<u8>),
                    BytecodeDecodeError,
                >((n as nat, final(self).rest())),
                Err(error) => read_number(4, old(self).rest()) == Err::<
                    (nat, Seq<u8>),
                    BytecodeDecodeError,
                >(error),
            },
    {
        proof {
            lemma_byte_ranges();
        }
        let n: u64 = self.number(4)?;
        Ok(n as usize)
    }

    /// Reads an offset.
    fn offset(&mut self, field: &'static str) -> (result: Result<usize, BytecodeDecodeError>)
        requires
            old(self).wf(),
        ensures
            final(self).follows(*old(self)),
            match result {
                Ok(n) => read_offset(field, old(self).rest()) == Ok::<
                    (usize, Seq<u8>),
                    BytecodeDecodeError,
                >((n, final(self).rest())),
                Err(error) => read_offset(field, old(self).rest()) == Err::<
                    (usize, Seq<u8>),
                    BytecodeDecodeError,
                >(error),
            },
    {
        let n: u64 = self.number(8)?;
        if n > usize::MAX as u64 {
            return Err(BytecodeDecodeError::LengthTooLarge { field });
        }
        Ok(n as usize)
    }

    /// Reads a flag.
    pub fn flag(&mut self) -> (result: Result<bool, BytecodeDecodeError>)
        requires
            old(self).wf(),
        ensures
            final(self).follows(*old(self)),
            match result {
                Ok(b) => read_flag(old(self).rest()) == Ok::<(bool, Seq<u8>), BytecodeDecodeError>(
                    (b, final(self).rest()),
                ),
                Err(error) => read_flag(old(self).rest()) == Err::<
                    (bool, Seq<u8>),
                    BytecodeDecodeError,
                >(error),
            },
    {
        let flag: u8 = self.byte()?;
        Ok(flag != 0)
    }

    /// Reads a text.
    pub fn text(&mut self) -> (result: Result<String, BytecodeDecodeError>)
        requires
            old(self).wf(),
        ensures
            final(self).follows(*old(self)),
            match result {
                Ok(text) => read_text(old(self).rest()) == Ok::<
                    (Seq<char>, Seq<u8>),
                    BytecodeDecodeError,
                >((text@, final(self).rest())),
                Err(error) => read_text(old(self).rest()) == Err::<
                    (Seq<char>, Seq<u8>),
                    BytecodeDecodeError,
                >(error),
            },
    {
        let len: usize = self.length()?;
        let bytes = self.take(len)?;
        match string_from_utf8(bytes) {
            Some(text) => Ok(text),
            None => Err(BytecodeDecodeError::InvalidUtf8),
        }
    }

    /// Reads an optional text.
    pub fn option_text(&mut self) -> (result: Result<Option<String>, BytecodeDecodeError>)
        requires
            old(self).wf(),
        ensures
            final(self).follows(*old(self)),
            match result {
                Ok(text) => read_option_text(old(self).rest()) == Ok::<
                    (Option<Seq<char>>, Seq<u8>),
                    BytecodeDecodeError,
                >((option_view(text), final(self).rest())),
                Err(error) => read_option_text(old(self).rest()) == Err::<
                    (Option<Seq<char>>, Seq<u8>),
                    BytecodeDecodeError,
                >(error),
            },
    {
        let flag: u8 = self.byte()?;
        if flag == 0 {
            return Ok(None);
        }
        let text = self.text()?;
        Ok(Some(text))
    }

    /// Reads a value.
    pub fn value(&mut self) -> (result: Result<Value, BytecodeDecodeError>)
        requires
            old(self).wf(),
        ensures
            final(self).follows(*old(self)),
            match result {
                Ok(value) => read_value(old(self).rest()) == Ok::<
                    (Value, Seq<u8>),
                    BytecodeDecodeError,
                >((value, final(self).rest())),
                Err(error) => read_value(old(self).rest()) == Err::<
                    (Value, Seq<u8>),
                    BytecodeDecodeError,
                >(error),
            },
    {
        proof {
            lemma_byte_ranges();
        }
        let tag: u8 = self.byte()?;
        match tag {
            0 => Ok(Value::Nil),
            1 => {
                let flag = self.flag()?;
                Ok(Value::Bool(flag))
            },
            2 => {
                let n: u64 = self.number(8)?;
                Ok(Value::Int(n as i64))
            },
            3 => {
                let bits: u64 = self.number(8)?;
                Ok(Value::Float(bits))
            },
            4 => {
                let index: u64 = self.number(4)?;
                let generation: u64 = self.number(4)?;
                Ok(Value::Obj(ObjRef::new(index as u32, generation as u32)))
            },
            _ => Err(BytecodeDecodeError::InvalidValueTag { tag }),
        }
    }

    /// Reads an optional span.
    pub fn option_span(&mut self) -> (result: Result<Option<SourceSpan>, BytecodeDecodeError>)
        requires
            old(self).wf(),
        ensures
            final(self).follows(*old(self)),
            match result {
                Ok(span) => read_option_span(old(self).rest()) == Ok::<
                    (Option<SourceSpan>, Seq<u8>),
                    BytecodeDecodeError,
                >((span, final(self).rest())),
                Err(error) => read_option_span(old(self).rest()) == Err::<
                    (Option<SourceSpan>, Seq<u8>),
                    BytecodeDecodeError,
                >(error),
            },
    {
        proof {
            lemma_byte_ranges();
        }
        let flag: u8 = self.byte()?;
        if flag == 0 {
            return Ok(None);
        }
        let file: u64 = self.number(4)?;
        let start: usize = self.offset("span.start")?;
        let end: usize = self.offset("span.end")?;
        Ok(Some(SourceSpan::new(FileId(file as u32), start, end)))
    }

    /// Reads an operand of a kind.
    pub fn operand(&mut self, kind: OperandKind) -> (result: Result<Operand, BytecodeDecodeError>)
        requires
            old(self).wf(),
        ensures
            final(self).follows(*old(self)),
            match result {
                Ok(operand) => read_operand(kind, old(self).rest()) == Ok::<
                    (Operand, Seq<u8>),
                    BytecodeDecodeError,
                >((operand, final(self).rest())) && kind_of(operand) == kind,
                Err(error) => read_operand(kind, old(self).rest()) == Err::<
                    (Operand, Seq<u8>),
                    BytecodeDecodeError,
                >(error),
            },
    {
        proof {
            lemma_byte_ranges();
        }
        match kind {
            OperandKind::Register => {
                let n: u64 = self.number(1)?;
                Ok(Operand::Register(Register(n as u8)))
            },
            OperandKind::Constant => {
                let n: u64 = self.number(2)?;
                Ok(Operand::Constant(ConstId(n as u16)))
            },
            OperandKind::Text => {
                let n: u64 = self.number(2)?;
                Ok(Operand::Text(StringId(n as u16)))
            },
            OperandKind::Function => {
                let n: u64 = self.number(2)?;
                Ok(Operand::Function(FunctionId(n as u16)))
            },
            OperandKind::Target => {
                let n: u64 = self.number(4)?;
                Ok(Operand::Target(JumpTarget(n as u32)))
            },
            OperandKind::Capture => {
                let n: u64 = self.number(1)?;
                Ok(Operand::Capture(CaptureId(n as u8)))
            },
            OperandKind::Count => {
                let n: u64 = self.number(1)?;
                Ok(Operand::Count(n as u8))
            },
        }
    }

    /// Reads operands of the given kinds behind those in `operands`.
    fn operands(&mut self, kinds: &Vec<OperandKind>) -> (result: Result<
        Vec<Operand>,
        BytecodeDecodeError,
    >)
        requires
            old(self).wf(),
        ensures
            final(self).follows(*old(self)),
            match result {
                Ok(operands) => read_operands(kinds@, old(self).rest()) == Ok::<
                    (Seq<Operand>, Seq<u8>),
                    BytecodeDecodeError,
                >((operands@, final(self).rest())) && kinds_of(operands@) == kinds@,
                Err(error) => read_operands(kinds@, old(self).rest()) == Err::<
                    (Seq<Operand>, Seq<u8>),
                    BytecodeDecodeError,
                >(error),
            },
    {
        let mut operands: Vec<Operand> = Vec::new();
        let mut i: usize = 0;
        assert(kinds@.skip(0) =~= kinds@);
        proof {
            if let Ok((all, behind)) = read_operands(kinds@, self.rest()) {
                assert(Seq::<Operand>::empty() + all =~= all);
            }
        }
        while i < kinds.len()
            invariant
                i <= kinds@.len(),
                self.follows(*old(self)),
                operands@.len() == i,
                forall|k: int| 0 <= k < i ==> kind_of(#[trigger] operands@[k]) == kinds@[k],
                read_operands(kinds@, old(self).rest()) == prepend(
                    operands@,
                    read_operands(kinds@.skip(i as int), self.rest()),
                ),
            decreases kinds.len() - i,
        {
            let ghost rest = self.rest();
            let ghost before = operands@;
            assert(kinds@.skip(i as int)[0] == kinds@[i as int]);
            assert(kinds@.skip(i as int).drop_first() =~= kinds@.skip(i + 1));
            let operand = self.operand(kinds[i])?;
            operands.push(operand);
            proof {
                lemma_prepend_push(
                    before,
                    operand,
                    read_operands(kinds@.skip(i + 1), self.rest()),
                );
            }
            i = i + 1;
        }
        assert(kinds@.skip(i as int) =~= Seq::empty());
        assert(operands@ + Seq::<Operand>::empty() =~= operands@);
        assert(kinds_of(operands@) =~= kinds@);
        Ok(operands)
    }

    /// Reads an instruction.
    pub fn instruction(&mut self) -> (result: Result<Instruction, BytecodeDecodeError>)
        requires
            old(self).wf(),
        ensures
            final(self).follows(*old(self)),
            match result {
                Ok(instruction) => read_instruction(old(self).rest()) == Ok::<
                    (InstructionView, Seq<u8>),
                    BytecodeDecodeError,
                >((instruction@, final(self).rest())),
                Err(error) => read_instruction(old(self).rest()) == Err::<
                    (InstructionView, Seq<u8>),
                    BytecodeDecodeError,
                >(error),
            },
    {
        let opcode: u8 = self.byte()?;
        let kinds = match operand_layout(opcode) {
            Some(kinds) => kinds,
            None => return Err(BytecodeDecodeError::InvalidInstructionOpcode { opcode }),
        };
        let mut operands = self.operands(&kinds)?;
        if opcode == OP_RECORD_NEW {
            let ghost fixed = operands@;
            assert(kind_of(fixed[2]) == kinds_of(fixed)[2]);
            let count: u8 = match operands[2] {
                Operand::Count(n) => n,
                _ => 0,
            };
            let mut field_kinds: Vec<OperandKind> = Vec::new();
            let mut i: u8 = 0;
            while i < count
                invariant
                    i <= count,
                    field_kinds@ == text_kinds(i as nat),
                decreases count - i,
            {
                field_kinds.push(OperandKind::Text);
                i = i + 1;
                assert(field_kinds@ == text_kinds(i as nat));
            }
            let mut fields = self.operands(&field_kinds)?;
            let ghost field_operands = fields@;
            operands.append(&mut fields);
            proof {
                assert(operands@ =~= fixed + field_operands);
                assert(operands@.take(3) =~= fixed);
                assert forall|k: int| 3 <= k < operands@.len() implies #[trigger] operands@[k] is Text by {
                    assert(kind_of(field_operands[k - 3]) == kinds_of(field_operands)[k - 3]);
                }
            }
        }
        Ok(Instruction::from_parts(opcode, &operands))
    }

    /// Reads a list of values.
    fn values(&mut self) -> (result: Result<Vec<Value>, BytecodeDecodeError>)
        requires
            old(self).wf(),
        ensures
            final(self).follows(*old(self)),
            match result {
                Ok(items) => read_counted(old(self).rest(), value_reader()) == Ok::<
                    (Seq<Value>, Seq<u8>),
                    BytecodeDecodeError,
                >((items@, final(self).rest())),
                Err(error) => read_counted(old(self).rest(), value_reader()) == Err::<
                    (Seq<Value>, Seq<u8>),
                    BytecodeDecodeError,
                >(error),
            },
    {
        reveal(read_counted);
        let count: usize = self.length()?;
        let ghost start = self.rest();
        let mut items: Vec<Value> = Vec::new();
        let mut i: usize = 0;
        proof {
            assert(items@ =~= Seq::<Value>::empty());
            if let Ok((all, behind)) = read_list(count as nat, start, value_reader()) {
                assert(Seq::<Value>::empty() + all =~= all);
            }
        }
        while i < count
            invariant
                i <= count,
                self.follows(*old(self)),
                read_list(count as nat, start, value_reader()) == prepend(
                    items@,
                    read_list((count - i) as nat, self.rest(), value_reader()),
                ),
                read_counted(old(self).rest(), value_reader()) == read_list(
                    count as nat,
                    start,
                    value_reader(),
                ),
            decreases count - i,
        {
            let ghost before = items@;
            let item = self.value()?;
            items.push(item);
            proof {
                let item_view = item;
                assert(items@ =~= before.push(item_view));
                lemma_prepend_push(
                    before,
                    item_view,
                    read_list((count - i - 1) as nat, self.rest(), value_reader()),
                );
            }
            i = i + 1;
        }
        proof {
            assert(items@ + Seq::<Value>::empty() =~= items@);
        }
        Ok(items)
    }

    /// Reads a list of texts.
    pub fn texts(&mut self) -> (result: Result<Vec<String>, BytecodeDecodeError>)
        requires
            old(self).wf(),
        ensures
            final(self).follows(*old(self)),
            match result {
                Ok(items) => read_counted(old(self).rest(), text_reader()) == Ok::<
                    (Seq<Seq<char>>, Seq<u8>),
                    BytecodeDecodeError,
                >((string_views(items@), final(self).rest())),
                Err(error) => read_counted(old(self).rest(), text_reader()) == Err::<
                    (Seq<Seq<char>>, Seq<u8>),
                    BytecodeDecodeError,
                >(error),
            },
    {
        reveal(read_counted);
        let count: usize = self.length()?;
        let ghost start = self.rest();
        let mut items: Vec<String> = Vec::new();
        let mut i: usize = 0;
        proof {
            assert(string_views(items@) =~= Seq::<Seq<char>>::empty());
            if let Ok((all, behind)) = read_list(count as nat, start, text_reader()) {
                assert(Seq::<Seq<char>>::empty() + all =~= all);
            }
        }
        while i < count
            invariant
                i <= count,
                self.follows(*old(self)),
                read_list(count as nat, start, text_reader()) == prepend(
                    string_views(items@),
                    read_list((count - i) as nat, self.rest(), text_reader()),
                ),
                read_counted(old(self).rest(), text_reader()) == read_list(
                    count as nat,
                    start,
                    text_reader(),
                ),
            decreases count - i,
        {
            let ghost before = items@;
            let item = self.text()?;
            items.push(item);
            proof {
                let item_view = item@;
                assert(string_views(items@) =~= string_views(before).push(item_view));
                lemma_prepend_push(
                    string_views(before),
                    item_view,
                    read_list((count - i - 1) as nat, self.rest(), text_reader()),
                );
            }
            i = i + 1;
        }
        proof {
            assert(string_views(items@) + Seq::<Seq<char>>::empty() =~= string_views(items@));
        }
        Ok(items)
    }

    /// Reads a list of instructions.
    fn instructions(&mut self) -> (result: Result<Vec<Instruction>, BytecodeDecodeError>)
        requires
            old(self).wf(),
        ensures
            final(self).follows(*old(self)),
            match result {
                Ok(items) => read_counted(old(self).rest(), instruction_reader()) == Ok::<
                    (Seq<InstructionView>, Seq<u8>),
                    BytecodeDecodeError,
                >((instruction_views(items@), final(self).rest())),
                Err(error) => read_counted(old(self).rest(), instruction_reader()) == Err::<
                    (Seq<InstructionView>, Seq<u8>),
                    BytecodeDecodeError,
                >(error),
            },
    {
        reveal(read_counted);
        let count: usize = self.length()?;
        let ghost start = self.rest();
        let mut items: Vec<Instruction> = Vec::new();
        let mut i: usize = 0;
        proof {
            assert(instruction_views(items@) =~= Seq::<InstructionView>::empty());
            if let Ok((all, behind)) = read_list(count as nat, start, instruction_reader()) {
                assert(Seq::<InstructionView>::empty() + all =~= all);
            }
        }
        while i < count
            invariant
                i <= count,
                self.follows(*old(self)),
                read_list(count as nat, start, instruction_reader()) == prepend(
                    instruction_views(items@),
                    read_list((count - i) as nat, self.rest(), instruction_reader()),
                ),
                read_counted(old(self).rest(), instruction_reader()) == read_list(
                    count as nat,
                    start,
                    instruction_reader(),
                ),
            decreases count - i,
        {
            let ghost before = items@;
            let item = self.instruction()?;
            items.push(item);
            proof {
                let item_view = item@;
                assert(instruction_views(items@) =~= instruction_views(before).push(item_view));
                lemma_prepend_push(
                    instruction_views(before),
                    item_view,
                    read_list((count - i - 1) as nat, self.rest(), instruction_reader()),
                );
            }
            i = i + 1;
        }
        proof {
            assert(instruction_views(items@) + Seq::<InstructionView>::empty() =~= instruction_views(items@));
        }
        Ok(items)
    }

    /// Reads a source map.
    fn spans(&mut self) -> (result: Result<Vec<Option<SourceSpan>>, BytecodeDecodeError>)
        requires
            old(self).wf(),
        ensures
            final(self).follows(*old(self)),
            match result {
                Ok(items) => read_counted(old(self).rest(), option_span_reader()) == Ok::<
                    (Seq<Option<SourceSpan>>, Seq<u8>),
                    BytecodeDecodeError,
                >((items@, final(self).rest())),
                Err(error) => read_counted(old(self).rest(), option_span_reader()) == Err::<
                    (Seq<Option<SourceSpan>>, Seq<u8>),
                    BytecodeDecodeError,
                >(error),
            },
    {
        reveal(read_counted);
        let count: usize = self.length()?;
        let ghost start = self.rest();
        let mut items: Vec<Option<SourceSpan>> = Vec::new();
        let mut i: usize = 0;
        proof {
            assert(items@ =~= Seq::<Option<SourceSpan>>::empty());
            if let Ok((all, behind)) = read_list(count as nat, start, option_span_reader()) {
                assert(Seq::<Option<SourceSpan>>::empty() + all =~= all);
            }
        }
        while i < count
            invariant
                i <= count,
                self.follows(*old(self)),
                read_list(count as nat, start, option_span_reader()) == prepend(
                    items@,
                    read_list((count - i) as nat, self.rest(), option_span_reader()),
                ),
                read_counted(old(self).rest(), option_span_reader()) == read_list(
                    count as nat,
                    start,
                    option_span_reader(),
                ),
            decreases count - i,
        {
            let ghost before = items@;
            let item = self.option_span()?;
            items.push(item);
            proof {
                let item_view = item;
                assert(items@ =~= before.push(item_view));
                lemma_prepend_push(
                    before,
                    item_view,
                    read_list((count - i - 1) as nat, self.rest(), option_span_reader()),
                );
            }
            i = i + 1;
        }
        proof {
            assert(items@ + Seq::<Option<SourceSpan>>::empty() =~= items@);
        }
        Ok(items)
    }

    /// Reads a list of register names.
    fn names(&mut self) -> (result: Result<Vec<Option<String>>, BytecodeDecodeError>)
        requires
            old(self).wf(),
        ensures
            final(self).follows(*old(self)),
            match result {
                Ok(items) => read_counted(old(self).rest(), option_text_reader()) == Ok::<
                    (Seq<Option<Seq<char>>>, Seq<u8>),
                    BytecodeDecodeError,
                >((option_views(items@), final(self).rest())),
                Err(error) => read_counted(old(self).rest(), option_text_reader()) == Err::<
                    (Seq<Option<Seq<char>>>, Seq<u8>),
                    BytecodeDecodeError,
                >(error),
            },
    {
        reveal(read_counted);
        let count: usize = self.length()?;
        let ghost start = self.rest();
        let mut items: Vec<Option<String>> = Vec::new();
        let mut i: usize = 0;
        proof {
            assert(option_views(items@) =~= Seq::<Option<Seq<char>>>::empty());
            if let Ok((all, behind)) = read_list(count as nat, start, option_text_reader()) {
                assert(Seq::<Option<Seq<char>>>::empty() + all =~= all);
            }
        }
        while i < count
            invariant
                i <= count,
                self.follows(*old(self)),
                read_list(count as nat, start, option_text_reader()) == prepend(
                    option_views(items@),
                    read_list((count - i) as nat, self.rest(), option_text_reader()),
                ),
                read_counted(old(self).rest(), option_text_reader()) == read_list(
                    count as nat,
                    start,
                    option_text_reader(),
                ),
            decreases count - i,
        {
            let ghost before = items@;
            let item = self.option_text()?;
            items.push(item);
            proof {
                let item_view = option_view(item);
                assert(option_views(items@) =~= option_views(before).push(item_view));
                lemma_prepend_push(
                    option_views(before),
                    item_view,
                    read_list((count - i - 1) as nat, self.rest(), option_text_reader()),
                );
            }
            i = i + 1;
        }
        proof {
            assert(option_views(items@) + Seq::<Option<Seq<char>>>::empty() =~= option_views(items@));
        }
        Ok(items)
    }

    /// Reads a name and the three count bytes behind it.
    fn header(&mut self) -> (result: Result<(String, u8, u8, u8), BytecodeDecodeError>)
        requires
            old(self).wf(),
        ensures
            final(self).follows(*old(self)),
            match result {
                Ok(h) => read_header(old(self).rest()) == Ok::<
                    ((Seq<char>, u8, u8, u8), Seq<u8>),
                    BytecodeDecodeError,
                >(((h.0@, h.1, h.2, h.3), final(self).rest())),
                Err(error) => read_header(old(self).rest()) == Err::<
                    ((Seq<char>, u8, u8, u8), Seq<u8>),
                    BytecodeDecodeError,
                >(error),
            },
    {
        let name = self.text()?;
        let arity: u8 = self.byte()?;
        let register_count: u8 = self.byte()?;
        let capture_count: u8 = self.byte()?;
        Ok((name, arity, register_count, capture_count))
    }

    /// Reads a chunk.
    pub fn chunk(&mut self) -> (result: Result<Chunk, BytecodeDecodeError>)
        requires
            old(self).wf(),
        ensures
            final(self).follows(*old(self)),
            match result {
                Ok(chunk) => read_chunk(old(self).rest()) == Ok::<
                    (ChunkView, Seq<u8>),
                    BytecodeDecodeError,
                >((chunk@, final(self).rest())),
                Err(error) => read_chunk(old(self).rest()) == Err::<
                    (ChunkView, Seq<u8>),
                    BytecodeDecodeError,
                >(error),
            },
    {
        reveal(read_chunk);
        let (name, arity, register_count, capture_count) = self.header()?;
        let constants = self.values()?;
        let strings = self.texts()?;
        let instructions = self.instructions()?;
        let source_map = self.spans()?;
        let debug_local_names = self.names()?;
        Ok(
            Chunk {
                name,
                arity,
                register_count,
                capture_count,
                constants,
                strings,
                instructions,
                source_map,
                debug_local_names,
            },
        )
    }

    /// Reads a function.
    pub fn function(&mut self) -> (result: Result<Function, BytecodeDecodeError>)
        requires
            old(self).wf(),
        ensures
            final(self).follows(*old(self)),
            match result {
                Ok(function) => read_function(old(self).rest()) == Ok::<
                    (FunctionView, Seq<u8>),
                    BytecodeDecodeError,
                >((function@, final(self).rest())),
                Err(error) => read_function(old(self).rest()) == Err::<
                    (FunctionView, Seq<u8>),
                    BytecodeDecodeError,
                >(error),
            },
    {
        reveal(read_function);
        let (name, arity, register_count, capture_count) = self.header()?;
        let tag: u8 = self.byte()?;
        let kind = match tag {
            0 => {
                let chunk = self.chunk()?;
                FunctionKind::Bytecode(chunk)
            },
            1 => {
                let native = self.text()?;
                FunctionKind::Native { name: native }
            },
            _ => return Err(BytecodeDecodeError::InvalidFunctionKind { tag }),
        };
        Ok(Function { name, arity, register_count, capture_count, kind })
    }

    /// Reads the expected magic bytes.
    pub fn magic(&mut self, magic: &str) -> (result: Result<(), BytecodeDecodeError>)
        requires
            old(self).wf(),
        ensures
            final(self).follows(*old(self)),
            match result {
                Ok(_) => read_magic(encode_utf8(magic@), old(self).rest()) == Ok::<
                    ((), Seq<u8>),
                    BytecodeDecodeError,
                >(((), final(self).rest())),
                Err(error) => read_magic(encode_utf8(magic@), old(self).rest()) == Err::<
                    ((), Seq<u8>),
                    BytecodeDecodeError,
                >(error),
            },
    {
        let expected = magic.as_bytes();
        let found = self.take(expected.len())?;
        if bytes_equal(found, expected) {
            Ok(())
        } else {
            Err(BytecodeDecodeError::InvalidMagic)
        }
    }

    /// Reads the fixed part of a program.
    fn program_header(&mut self) -> (result: Result<
        (u16, u32, FunctionId, usize),
        BytecodeDecodeError,
    >)
        requires
            old(self).wf(),
        ensures
            final(self).follows(*old(self)),
            match result {
                Ok(h) => read_program_header(old(self).rest()) == Ok::<
                    ((u16, u32, FunctionId, nat), Seq<u8>),
                    BytecodeDecodeError,
                >(((h.0, h.1, h.2, h.3 as nat), final(self).rest())),
                Err(error) => read_program_header(old(self).rest()) == Err::<
                    ((u16, u32, FunctionId, nat), Seq<u8>),
                    BytecodeDecodeError,
                >(error),
            },
    {
        proof {
            lemma_byte_ranges();
        }
        self.magic(BYTECODE_MAGIC)?;
        let format_version: u64 = self.number(2)?;
        if format_version != FORMAT_VERSION as u64 {
            return Err(BytecodeDecodeError::UnsupportedVersion { version: format_version as u16 });
        }
        let version: u64 = self.number(2)?;
        let flags: u64 = self.number(4)?;
        let entry: u64 = self.number(2)?;
        let count: usize = self.length()?;
        Ok((version as u16, flags as u32, FunctionId(entry as u16), count))
    }

    /// Reads a whole program.
    pub fn program(&mut self) -> (result: Result<Program, BytecodeDecodeError>)
        requires
            old(self).wf(),
        ensures
            final(self).follows(*old(self)),
            match result {
                Ok(program) => parsed_program(old(self).rest()) == Ok::<
                    ProgramView,
                    BytecodeDecodeError,
                >(program@),
                Err(error) => parsed_program(old(self).rest()) == Err::<
                    ProgramView,
                    BytecodeDecodeError,
                >(error),
            },
    {
        let (version, feature_flags, entry, count) = self.program_header()?;
        let ghost start = self.rest();
        let mut program = Program::new(entry).with_format(
            BytecodeFormat { magic: BYTECODE_MAGIC, version, feature_flags },
        );
        let mut i: usize = 0;
        proof {
            assert(program@.functions =~= Seq::<FunctionView>::empty());
            if let Ok((all, behind)) = read_functions(count as nat, 0, start) {
                assert(Seq::<FunctionView>::empty() + all =~= all);
            }
        }
        while i < count
            invariant
                i <= count,
                self.follows(*old(self)),
                read_program_header(old(self).rest()) == Ok::<
                    ((u16, u32, FunctionId, nat), Seq<u8>),
                    BytecodeDecodeError,
                >(((version, feature_flags, entry, count as nat), start)),
                program@ == (ProgramView {
                    magic: BYTECODE_MAGIC@,
                    version,
                    feature_flags,
                    functions: program@.functions,
                    entry,
                }),
                program@.functions.len() == i,
                read_functions(count as nat, 0, start) == prepend(
                    program@.functions,
                    read_functions((count - i) as nat, i as nat, self.rest()),
                ),
            decreases count - i,
        {
            let ghost before = program@.functions;
            let function = self.function()?;
            match program.add_function(function) {
                Ok(_) => {},
                Err(_) => return Err(BytecodeDecodeError::LengthTooLarge { field: "functions" }),
            }
            proof {
                lemma_prepend_push(
                    before,
                    function@,
                    read_functions((count - i - 1) as nat, (i + 1) as nat, self.rest()),
                );
            }
            i = i + 1;
        }
        assert(program@.functions + Seq::<FunctionView>::empty() =~= program@.functions);
        let left: usize = self.remaining();
        if left != 0 {
            return Err(BytecodeDecodeError::TrailingBytes { count: left });
        }
        Ok(program)
    }
}

} // verus!
