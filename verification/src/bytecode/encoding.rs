//! The byte encoding of programs.

use vstd::prelude::*;
use vstd::string::{StrSliceExecFns, StringSliceAdditionalSpecFns};
use vstd::utf8::encode_utf8;

use crate::bytecode::chunk::{
    instruction_views, option_view, option_views, string_views, Chunk, ChunkView,
};
use crate::bytecode::format::BYTECODE_MAGIC;
use crate::bytecode::instruction::{Instruction, InstructionView, Operand};
use crate::bytecode::program::{
    function_views, Function, FunctionKind, FunctionKindView, FunctionView, Program, ProgramView,
};
use crate::bytecode::wire::{concat, le_bytes, lemma_concat_push, BytecodeEncodeError};
use crate::diagnostics::span::SourceSpan;
use crate::value::Value;

verus! {

/// Version of the byte encoding.
pub const FORMAT_VERSION: u16 = 1;

// ---------------------------------------------------------------------------
// The encoding
// ---------------------------------------------------------------------------

/// A flag is one byte.
pub open spec fn flag_bytes(flag: bool) -> Seq<u8> {
    seq![
        if flag {
            1u8
        } else {
            0u8
        },
    ]
}

/// A length takes four bytes.
pub open spec fn length_bytes(n: nat) -> Seq<u8> {
    le_bytes(n, 4)
}

/// A text is its length in bytes and its UTF-8 encoding.
pub open spec fn text_bytes(text: Seq<char>) -> Seq<u8> {
    length_bytes(encode_utf8(text).len()) + encode_utf8(text)
}

/// An optional text is a flag byte and the text.
pub open spec fn option_text_bytes(text: Option<Seq<char>>) -> Seq<u8> {
    match text {
        Some(text) => seq![1u8] + text_bytes(text),
        None => seq![0u8],
    }
}

/// A value is a tag byte and its content.
pub open spec fn value_bytes(value: Value) -> Seq<u8> {
    match value {
        Value::Nil => seq![0u8],
        Value::Bool(b) => seq![1u8] + flag_bytes(b),
        Value::Int(n) => seq![2u8] + le_bytes((n as u64) as nat, 8),
        Value::Float(bits) => seq![3u8] + le_bytes(bits as nat, 8),
        Value::Obj(reference) => seq![4u8] + le_bytes(reference.index as nat, 4) + le_bytes(
            reference.generation as nat,
            4,
        ),
    }
}

/// An optional span is a flag byte, the file, the start and the end.
pub open spec fn option_span_bytes(span: Option<SourceSpan>) -> Seq<u8> {
    match span {
        Some(span) => seq![1u8] + le_bytes(span.file_id.0 as nat, 4) + le_bytes(
            span.start as nat,
            8,
        ) + le_bytes(span.end as nat, 8),
        None => seq![0u8],
    }
}

/// An operand is a little-endian number as wide as its kind.
pub open spec fn operand_bytes(operand: Operand) -> Seq<u8> {
    match operand {
        Operand::Register(r) => le_bytes(r.0 as nat, 1),
        Operand::Constant(c) => le_bytes(c.0 as nat, 2),
        Operand::Text(s) => le_bytes(s.0 as nat, 2),
        Operand::Function(f) => le_bytes(f.0 as nat, 2),
        Operand::Target(t) => le_bytes(t.0 as nat, 4),
        Operand::Capture(c) => le_bytes(c.0 as nat, 1),
        Operand::Count(n) => le_bytes(n as nat, 1),
    }
}

/// An instruction is its opcode and its operands.
pub open spec fn instruction_bytes(v: InstructionView) -> Seq<u8> {
    seq![v.opcode] + concat(v.operands, operand_encoder())
}

pub open spec fn value_encoder() -> spec_fn(Value) -> Seq<u8> {
    |value: Value| value_bytes(value)
}

pub open spec fn text_encoder() -> spec_fn(Seq<char>) -> Seq<u8> {
    |text: Seq<char>| text_bytes(text)
}

pub open spec fn option_text_encoder() -> spec_fn(Option<Seq<char>>) -> Seq<u8> {
    |text: Option<Seq<char>>| option_text_bytes(text)
}

pub open spec fn option_span_encoder() -> spec_fn(Option<SourceSpan>) -> Seq<u8> {
    |span: Option<SourceSpan>| option_span_bytes(span)
}

pub open spec fn operand_encoder() -> spec_fn(Operand) -> Seq<u8> {
    |operand: Operand| operand_bytes(operand)
}

pub open spec fn instruction_encoder() -> spec_fn(InstructionView) -> Seq<u8> {
    |v: InstructionView| instruction_bytes(v)
}

pub open spec fn function_encoder() -> spec_fn(FunctionView) -> Seq<u8> {
    |f: FunctionView| function_bytes(f)
}

/// A list is its length and its items.
#[verifier::opaque]
pub open spec fn list_bytes<A>(items: Seq<A>, item_bytes: spec_fn(A) -> Seq<u8>) -> Seq<u8> {
    length_bytes(items.len()) + concat(items, item_bytes)
}

/// A chunk is its metadata, its pools, its instructions and its debug data.
#[verifier::opaque]
pub open spec fn chunk_bytes(c: ChunkView) -> Seq<u8> {
    text_bytes(c.name) + seq![c.arity, c.register_count, c.capture_count] + list_bytes(
        c.constants,
        value_encoder(),
    ) + list_bytes(c.strings, text_encoder()) + list_bytes(c.instructions, instruction_encoder())
        + list_bytes(c.source_map, option_span_encoder()) + list_bytes(
        c.debug_local_names,
        option_text_encoder(),
    )
}

/// A function is its metadata, a tag byte and its implementation.
#[verifier::opaque]
pub open spec fn function_bytes(f: FunctionView) -> Seq<u8> {
    text_bytes(f.name) + seq![f.arity, f.register_count, f.capture_count] + match f.kind {
        FunctionKindView::Bytecode(c) => seq![0u8] + chunk_bytes(c),
        FunctionKindView::Native(name) => seq![1u8] + text_bytes(name),
    }
}

/// A program is the magic text, the versions, the feature flags, the entry and the functions.
pub open spec fn program_bytes(p: ProgramView) -> Seq<u8> {
    encode_utf8(BYTECODE_MAGIC@) + le_bytes(FORMAT_VERSION as nat, 2) + le_bytes(
        p.version as nat,
        2,
    ) + le_bytes(p.feature_flags as nat, 4) + le_bytes(p.entry.0 as nat, 2) + list_bytes(
        p.functions,
        function_encoder(),
    )
}

// ---------------------------------------------------------------------------
// Lengths that do not fit
// ---------------------------------------------------------------------------

/// The field, if its length does not fit in four bytes.
pub open spec fn too_long(field: &'static str, len: nat) -> Option<&'static str> {
    if len > u32::MAX {
        Some(field)
    } else {
        None
    }
}

/// The field, if the UTF-8 encoding of the text is too long.
pub open spec fn oversized_text(field: &'static str, text: Seq<char>) -> Option<&'static str> {
    too_long(field, encode_utf8(text).len())
}

/// The first of two findings.
pub open spec fn first_of(a: Option<&'static str>, b: Option<&'static str>) -> Option<
    &'static str,
> {
    if a is Some {
        a
    } else {
        b
    }
}

/// The field, if one of the texts is too long.
pub open spec fn oversized_texts(field: &'static str, texts: Seq<Seq<char>>) -> Option<
    &'static str,
> {
    if exists|i: int| 0 <= i < texts.len() && oversized_text(field, #[trigger] texts[i]) is Some {
        Some(field)
    } else {
        None
    }
}

/// The field, if one of the optional texts is too long.
pub open spec fn oversized_option_texts(
    field: &'static str,
    texts: Seq<Option<Seq<char>>>,
) -> Option<&'static str> {
    if exists|i: int|
        0 <= i < texts.len() && #[trigger] texts[i] is Some && oversized_text(field, texts[i]->0)
            is Some {
        Some(field)
    } else {
        None
    }
}

/// The first part of a chunk that is too long to encode.
#[verifier::opaque]
pub open spec fn oversized_chunk(c: ChunkView) -> Option<&'static str> {
    first_of(
        oversized_text("chunk.name", c.name),
        first_of(
            too_long("constants", c.constants.len()),
            first_of(
                too_long("strings", c.strings.len()),
                first_of(
                    oversized_texts("string", c.strings),
                    first_of(
                        too_long("instructions", c.instructions.len()),
                        first_of(
                            too_long("source_map", c.source_map.len()),
                            first_of(
                                too_long("debug_local_names", c.debug_local_names.len()),
                                oversized_option_texts("debug_local_name", c.debug_local_names),
                            ),
                        ),
                    ),
                ),
            ),
        ),
    )
}

/// The first part of a function that is too long to encode.
#[verifier::opaque]
pub open spec fn oversized_function(f: FunctionView) -> Option<&'static str> {
    first_of(
        oversized_text("function.name", f.name),
        match f.kind {
            FunctionKindView::Bytecode(c) => oversized_chunk(c),
            FunctionKindView::Native(name) => oversized_text("native.name", name),
        },
    )
}

/// The first part of the functions from `from` on that is too long to encode.
pub open spec fn oversized_functions(functions: Seq<FunctionView>, from: nat) -> Option<
    &'static str,
>
    decreases functions.len() - from,
{
    if from >= functions.len() {
        None
    } else {
        first_of(
            oversized_function(functions[from as int]),
            oversized_functions(functions, from + 1),
        )
    }
}

/// The first part of a program that is too long to encode.
pub open spec fn oversized_program(p: ProgramView) -> Option<&'static str> {
    first_of(too_long("functions", p.functions.len()), oversized_functions(p.functions, 0))
}

// ---------------------------------------------------------------------------
// The encoder
// ---------------------------------------------------------------------------

/// Collects encoded bytes.
pub struct Encoder {
    pub bytes: Vec<u8>,
}

/// What an encoding step owes: the bytes of the item behind the earlier ones, or the name of
/// the field that does not fit.
pub open spec fn encoded(
    result: Result<(), BytecodeEncodeError>,
    before: Seq<u8>,
    after: Seq<u8>,
    item: Seq<u8>,
    oversized: Option<&'static str>,
) -> bool {
    match result {
        Ok(_) => oversized is None && after == before + item,
        Err(BytecodeEncodeError::LengthTooLarge { field }) => oversized == Some(field),
    }
}

impl Encoder {
    /// An encoder without bytes.
    pub fn new() -> (encoder: Self)
        ensures
            encoder.bytes@ == Seq::<u8>::empty(),
    {
        Encoder { bytes: Vec::new() }
    }

    /// Writes one byte.
    pub fn byte(&mut self, value: u8)
        ensures
            final(self).bytes@ == old(self).bytes@ + seq![value],
    {
        self.bytes.push(value);
        assert(self.bytes@ == old(self).bytes@ + seq![value]);
    }

    /// Writes the low `width` bytes of `value`.
    pub fn number(&mut self, value: u64, width: usize)
        ensures
            final(self).bytes@ == old(self).bytes@ + le_bytes(value as nat, width as nat),
        decreases width,
    {
        if width > 0 {
            self.byte((value % 256) as u8);
            self.number(value / 256, width - 1);
        }
        assert(self.bytes@ == old(self).bytes@ + le_bytes(value as nat, width as nat));
    }

    /// Writes a flag.
    pub fn flag(&mut self, flag: bool)
        ensures
            final(self).bytes@ == old(self).bytes@ + flag_bytes(flag),
    {
        self.byte(
            if flag {
                1
            } else {
                0
            },
        );
    }

    /// Writes raw bytes.
    pub fn raw(&mut self, bytes: &[u8])
        ensures
            final(self).bytes@ == old(self).bytes@ + bytes@,
    {
        let mut i: usize = 0;
        while i < bytes.len()
            invariant
                i <= bytes@.len(),
                self.bytes@ == old(self).bytes@ + bytes@.take(i as int),
            decreases bytes.len() - i,
        {
            self.bytes.push(bytes[i]);
            i = i + 1;
            assert(self.bytes@ == old(self).bytes@ + bytes@.take(i as int));
        }
        assert(bytes@.take(i as int) =~= bytes@);
    }

    /// Writes a length.
    pub fn length(&mut self, field: &'static str, len: usize) -> (result: Result<
        (),
        BytecodeEncodeError,
    >)
        ensures
            encoded(
                result,
                old(self).bytes@,
                final(self).bytes@,
                length_bytes(len as nat),
                too_long(field, len as nat),
            ),
    {
        if len > u32::MAX as usize {
            return Err(BytecodeEncodeError::LengthTooLarge { field });
        }
        self.number(len as u64, 4);
        Ok(())
    }

    /// Writes a text.
    pub fn text(&mut self, field: &'static str, value: &str) -> (result: Result<
        (),
        BytecodeEncodeError,
    >)
        ensures
            encoded(
                result,
                old(self).bytes@,
                final(self).bytes@,
                text_bytes(value@),
                oversized_text(field, value@),
            ),
    {
        let bytes = value.as_bytes();
        self.length(field, bytes.len())?;
        self.raw(bytes);
        assert(self.bytes@ == old(self).bytes@ + text_bytes(value@));
        Ok(())
    }

    /// Writes an optional text.
    pub fn option_text(&mut self, field: &'static str, value: &Option<String>) -> (result: Result<
        (),
        BytecodeEncodeError,
    >)
        ensures
            encoded(
                result,
                old(self).bytes@,
                final(self).bytes@,
                option_text_bytes(option_view(*value)),
                match *value {
                    Some(text) => oversized_text(field, text@),
                    None => None,
                },
            ),
    {
        match value {
            Some(value) => {
                self.byte(1);
                self.text(field, value.as_str())?;
                assert(self.bytes@ == old(self).bytes@ + option_text_bytes(Some(value@)));
            },
            None => self.byte(0),
        }
        Ok(())
    }

    /// Writes a value.
    pub fn value(&mut self, value: Value)
        ensures
            final(self).bytes@ == old(self).bytes@ + value_bytes(value),
    {
        match value {
            Value::Nil => self.byte(0),
            Value::Bool(value) => {
                self.byte(1);
                self.flag(value);
            },
            Value::Int(value) => {
                self.byte(2);
                self.number(value as u64, 8);
            },
            Value::Float(bits) => {
                self.byte(3);
                self.number(bits, 8);
            },
            Value::Obj(reference) => {
                self.byte(4);
                self.number(reference.index as u64, 4);
                self.number(reference.generation as u64, 4);
            },
        }
        assert(self.bytes@ == old(self).bytes@ + value_bytes(value));
    }

    /// Writes an optional span.
    pub fn option_span(&mut self, span: Option<SourceSpan>)
        ensures
            final(self).bytes@ == old(self).bytes@ + option_span_bytes(span),
    {
        match span {
            Some(span) => {
                self.byte(1);
                self.number(span.file_id.0 as u64, 4);
                self.number(span.start as u64, 8);
                self.number(span.end as u64, 8);
            },
            None => self.byte(0),
        }
        assert(self.bytes@ == old(self).bytes@ + option_span_bytes(span));
    }

    /// Writes an operand.
    pub fn operand(&mut self, operand: Operand)
        ensures
            final(self).bytes@ == old(self).bytes@ + operand_bytes(operand),
    {
        match operand {
            Operand::Register(r) => self.number(r.0 as u64, 1),
            Operand::Constant(c) => self.number(c.0 as u64, 2),
            Operand::Text(s) => self.number(s.0 as u64, 2),
            Operand::Function(f) => self.number(f.0 as u64, 2),
            Operand::Target(t) => self.number(t.0 as u64, 4),
            Operand::Capture(c) => self.number(c.0 as u64, 1),
            Operand::Count(n) => self.number(n as u64, 1),
        }
    }

    /// Writes an instruction.
    pub fn instruction(&mut self, instruction: &Instruction)
        ensures
            final(self).bytes@ == old(self).bytes@ + instruction_bytes(instruction@),
    {
        self.byte(instruction.opcode_byte());
        let operands = instruction.operand_list();
        let ghost front = self.bytes@;
        let mut i: usize = 0;
        assert(operands@.take(0) =~= Seq::empty());
        while i < operands.len()
            invariant
                i <= operands@.len(),
                self.bytes@ == front + concat(operands@.take(i as int), operand_encoder()),
            decreases operands.len() - i,
        {
            self.operand(operands[i]);
            proof {
                lemma_concat_push(operands@.take(i as int), operands@[i as int], operand_encoder());
                assert(operands@.take(i + 1) =~= operands@.take(i as int).push(operands@[i as int]));
            }
            i = i + 1;
            assert(self.bytes@ =~= front + concat(operands@.take(i as int), operand_encoder()));
        }
        assert(operands@.take(i as int) =~= operands@);
        assert(self.bytes@ == old(self).bytes@ + instruction_bytes(instruction@));
    }

    /// Writes a list of values.
    fn values(&mut self, values: &Vec<Value>) -> (result: Result<(), BytecodeEncodeError>)
        ensures
            encoded(
                result,
                old(self).bytes@,
                final(self).bytes@,
                list_bytes(values@, value_encoder()),
                too_long("constants", values@.len()),
            ),
    {
        reveal(list_bytes);
        self.length("constants", values.len())?;
        let ghost front = self.bytes@;
        let mut i: usize = 0;
        assert(values@.take(0) =~= Seq::empty());
        while i < values.len()
            invariant
                i <= values@.len(),
                self.bytes@ == front + concat(values@.take(i as int), value_encoder()),
            decreases values.len() - i,
        {
            self.value(values[i]);
            proof {
                lemma_concat_push(values@.take(i as int), values@[i as int], value_encoder());
                assert(values@.take(i + 1) =~= values@.take(i as int).push(values@[i as int]));
            }
            i = i + 1;
            assert(self.bytes@ =~= front + concat(values@.take(i as int), value_encoder()));
        }
        assert(values@.take(i as int) =~= values@);
        assert(self.bytes@ == old(self).bytes@ + list_bytes(values@, value_encoder()));
        Ok(())
    }

    /// Writes a list of texts.
    pub fn texts(
        &mut self,
        list_field: &'static str,
        item_field: &'static str,
        strings: &Vec<String>,
    ) -> (result: Result<(), BytecodeEncodeError>)
        ensures
            encoded(
                result,
                old(self).bytes@,
                final(self).bytes@,
                list_bytes(string_views(strings@), text_encoder()),
                first_of(
                    too_long(list_field, strings@.len()),
                    oversized_texts(item_field, string_views(strings@)),
                ),
            ),
    {
        reveal(list_bytes);
        self.length(list_field, strings.len())?;
        let ghost front = self.bytes@;
        let ghost texts = string_views(strings@);
        let mut i: usize = 0;
        assert(texts.take(0) =~= Seq::empty());
        while i < strings.len()
            invariant
                i <= strings@.len(),
                texts == string_views(strings@),
                too_long(list_field, strings@.len()) is None,
                self.bytes@ == front + concat(texts.take(i as int), text_encoder()),
                forall|k: int| 0 <= k < i ==> oversized_text(item_field, #[trigger] texts[k]) is None,
            decreases strings.len() - i,
        {
            assert(texts[i as int] == strings@[i as int]@);
            self.text(item_field, strings[i].as_str())?;
            proof {
                lemma_concat_push(texts.take(i as int), texts[i as int], text_encoder());
                assert(texts.take(i + 1) =~= texts.take(i as int).push(texts[i as int]));
            }
            i = i + 1;
            assert(self.bytes@ =~= front + concat(texts.take(i as int), text_encoder()));
        }
        assert(texts.take(i as int) =~= texts);
        assert(self.bytes@ == old(self).bytes@ + list_bytes(texts, text_encoder()));
        Ok(())
    }

    /// Writes a list of instructions.
    fn instructions(&mut self, instructions: &Vec<Instruction>) -> (result: Result<
        (),
        BytecodeEncodeError,
    >)
        ensures
            encoded(
                result,
                old(self).bytes@,
                final(self).bytes@,
                list_bytes(
                    instruction_views(instructions@),
                    instruction_encoder(),
                ),
                too_long("instructions", instructions@.len()),
            ),
    {
        reveal(list_bytes);
        self.length("instructions", instructions.len())?;
        let ghost front = self.bytes@;
        let ghost views = instruction_views(instructions@);
        let mut i: usize = 0;
        assert(views.take(0) =~= Seq::empty());
        while i < instructions.len()
            invariant
                i <= instructions@.len(),
                views == instruction_views(instructions@),
                self.bytes@ == front + concat(views.take(i as int), instruction_encoder()),
            decreases instructions.len() - i,
        {
            self.instruction(&instructions[i]);
            proof {
                lemma_concat_push(views.take(i as int), views[i as int], instruction_encoder());
                assert(views.take(i + 1) =~= views.take(i as int).push(views[i as int]));
            }
            i = i + 1;
            assert(self.bytes@ =~= front + concat(views.take(i as int), instruction_encoder()));
        }
        assert(views.take(i as int) =~= views);
        assert(self.bytes@ == old(self).bytes@ + list_bytes(views, instruction_encoder()));
        Ok(())
    }

    /// Writes a source map.
    fn spans(&mut self, spans: &Vec<Option<SourceSpan>>) -> (result: Result<
        (),
        BytecodeEncodeError,
    >)
        ensures
            encoded(
                result,
                old(self).bytes@,
                final(self).bytes@,
                list_bytes(spans@, option_span_encoder()),
                too_long("source_map", spans@.len()),
            ),
    {
        reveal(list_bytes);
        self.length("source_map", spans.len())?;
        let ghost front = self.bytes@;
        let mut i: usize = 0;
        assert(spans@.take(0) =~= Seq::empty());
        while i < spans.len()
            invariant
                i <= spans@.len(),
                self.bytes@ == front + concat(spans@.take(i as int), option_span_encoder()),
            decreases spans.len() - i,
        {
            self.option_span(spans[i]);
            proof {
                lemma_concat_push(spans@.take(i as int), spans@[i as int], option_span_encoder());
                assert(spans@.take(i + 1) =~= spans@.take(i as int).push(spans@[i as int]));
            }
            i = i + 1;
            assert(self.bytes@ =~= front + concat(spans@.take(i as int), option_span_encoder()));
        }
        assert(spans@.take(i as int) =~= spans@);
        assert(self.bytes@ == old(self).bytes@ + list_bytes(spans@, option_span_encoder()));
        Ok(())
    }

    /// Writes the register names.
    fn names(&mut self, names: &Vec<Option<String>>) -> (result: Result<(), BytecodeEncodeError>)
        ensures
            encoded(
                result,
                old(self).bytes@,
                final(self).bytes@,
                list_bytes(option_views(names@), option_text_encoder()),
                first_of(
                    too_long("debug_local_names", names@.len()),
                    oversized_option_texts(
                        "debug_local_name",
                        option_views(names@),
                    ),
                ),
            ),
    {
        reveal(list_bytes);
        self.length("debug_local_names", names.len())?;
        let ghost front = self.bytes@;
        let ghost views = option_views(names@);
        let mut i: usize = 0;
        assert(views.take(0) =~= Seq::empty());
        while i < names.len()
            invariant
                i <= names@.len(),
                views == option_views(names@),
                too_long("debug_local_names", names@.len()) is None,
                self.bytes@ == front + concat(views.take(i as int), option_text_encoder()),
                forall|k: int|
                    0 <= k < i && #[trigger] views[k] is Some ==> oversized_text(
                        "debug_local_name",
                        views[k]->0,
                    ) is None,
            decreases names.len() - i,
        {
            assert(views[i as int] == option_view(names@[i as int]));
            self.option_text("debug_local_name", &names[i])?;
            proof {
                lemma_concat_push(views.take(i as int), views[i as int], option_text_encoder());
                assert(views.take(i + 1) =~= views.take(i as int).push(views[i as int]));
            }
            i = i + 1;
            assert(self.bytes@ =~= front + concat(views.take(i as int), option_text_encoder()));
        }
        assert(views.take(i as int) =~= views);
        assert(self.bytes@ == old(self).bytes@ + list_bytes(views, option_text_encoder()));
        Ok(())
    }

    /// Writes a chunk.
    pub fn chunk(&mut self, chunk: &Chunk) -> (result: Result<(), BytecodeEncodeError>)
        ensures
            encoded(
                result,
                old(self).bytes@,
                final(self).bytes@,
                chunk_bytes(chunk@),
                oversized_chunk(chunk@),
            ),
    {
        reveal(chunk_bytes);
        reveal(oversized_chunk);
        self.text("chunk.name", chunk.name.as_str())?;
        self.byte(chunk.arity);
        self.byte(chunk.register_count);
        self.byte(chunk.capture_count);
        self.values(&chunk.constants)?;
        self.texts("strings", "string", &chunk.strings)?;
        self.instructions(&chunk.instructions)?;
        self.spans(&chunk.source_map)?;
        self.names(&chunk.debug_local_names)?;
        assert(self.bytes@ =~= old(self).bytes@ + chunk_bytes(chunk@));
        Ok(())
    }

    /// Writes a function.
    pub fn function(&mut self, function: &Function) -> (result: Result<(), BytecodeEncodeError>)
        ensures
            encoded(
                result,
                old(self).bytes@,
                final(self).bytes@,
                function_bytes(function@),
                oversized_function(function@),
            ),
    {
        reveal(function_bytes);
        reveal(oversized_function);
        self.text("function.name", function.name.as_str())?;
        self.byte(function.arity);
        self.byte(function.register_count);
        self.byte(function.capture_count);
        match &function.kind {
            FunctionKind::Bytecode(chunk) => {
                self.byte(0);
                self.chunk(chunk)?;
            },
            FunctionKind::Native { name } => {
                self.byte(1);
                self.text("native.name", name.as_str())?;
            },
        }
        assert(self.bytes@ =~= old(self).bytes@ + function_bytes(function@));
        Ok(())
    }

    /// Writes a function table.
    fn functions(&mut self, functions: &Vec<Function>) -> (result: Result<(), BytecodeEncodeError>)
        ensures
            encoded(
                result,
                old(self).bytes@,
                final(self).bytes@,
                list_bytes(
                    function_views(functions@),
                    function_encoder(),
                ),
                first_of(
                    too_long("functions", functions@.len()),
                    oversized_functions(function_views(functions@), 0),
                ),
            ),
    {
        reveal(list_bytes);
        self.length("functions", functions.len())?;
        let ghost front = self.bytes@;
        let ghost views = function_views(functions@);
        let mut i: usize = 0;
        assert(views.take(0) =~= Seq::empty());
        while i < functions.len()
            invariant
                i <= functions@.len(),
                views == function_views(functions@),
                too_long("functions", functions@.len()) is None,
                self.bytes@ == front + concat(views.take(i as int), function_encoder()),
                oversized_functions(views, 0) == oversized_functions(views, i as nat),
            decreases functions.len() - i,
        {
            assert(views[i as int] == functions@[i as int]@);
            self.function(&functions[i])?;
            proof {
                lemma_concat_push(views.take(i as int), views[i as int], function_encoder());
                assert(views.take(i + 1) =~= views.take(i as int).push(views[i as int]));
            }
            i = i + 1;
            assert(self.bytes@ =~= front + concat(views.take(i as int), function_encoder()));
        }
        assert(views.take(i as int) =~= views);
        assert(self.bytes@ == old(self).bytes@ + list_bytes(views, function_encoder()));
        Ok(())
    }

    /// Writes a program.
    pub fn program(&mut self, program: &Program) -> (result: Result<(), BytecodeEncodeError>)
        ensures
            encoded(
                result,
                old(self).bytes@,
                final(self).bytes@,
                program_bytes(program@),
                oversized_program(program@),
            ),
    {
        self.raw(BYTECODE_MAGIC.as_bytes());
        self.number(FORMAT_VERSION as u64, 2);
        self.number(program.format.version as u64, 2);
        self.number(program.format.feature_flags as u64, 4);
        self.number(program.entry.0 as u64, 2);
        self.functions(&program.functions)?;
        assert(self.bytes@ =~= old(self).bytes@ + program_bytes(program@));
        Ok(())
    }
}

} // verus!
