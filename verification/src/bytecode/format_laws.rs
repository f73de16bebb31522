//! The bytes of the binary format.

use vstd::prelude::*;
use vstd::utf8::{encode_utf8, is_ascii_chars_encode_utf8};

use crate::bytecode::chunk::ChunkView;
use crate::bytecode::encoding::{
    chunk_bytes, function_bytes, function_encoder, instruction_bytes, instruction_encoder,
    list_bytes, operand_bytes, operand_encoder, option_span_bytes, option_span_encoder,
    option_text_bytes, option_text_encoder, oversized_chunk, oversized_function,
    oversized_functions, oversized_option_texts, oversized_program, oversized_text, oversized_texts,
    program_bytes, text_bytes, text_encoder, value_bytes, value_encoder,
};
use crate::bytecode::format::BYTECODE_MAGIC;
use crate::bytecode::instruction::{text_operands, Instruction, InstructionView, Operand, StringId};
use crate::bytecode::program::{FunctionKindView, FunctionView, ProgramView};
use crate::bytecode::serialization::{
    container_bytes, metadata_bytes, metadata_head_bytes, metadata_tail_bytes, program_payload,
    section_kind, BytecodeSectionKind, MetadataView, SectionView, BYTECODE_CONTAINER_MAGIC,
};
use crate::bytecode::wire::{concat, le_bytes};
use crate::diagnostics::SourceSpan;
use crate::value::Value;

verus! {

/// The low byte of a two-byte number.
pub open spec fn low(n: u16) -> u8 {
    (n % 256) as u8
}

/// The high byte of a two-byte number.
pub open spec fn high(n: u16) -> u8 {
    (n / 256) as u8
}

/// The four bytes of a number, the lowest first.
pub open spec fn word(n: u32) -> Seq<u8> {
    seq![
        (n % 256) as u8,
        ((n / 256) % 256) as u8,
        ((n / 65536) % 256) as u8,
        (n / 16777216) as u8,
    ]
}

/// The eight bytes of a number, the lowest first.
pub open spec fn long(n: u64) -> Seq<u8> {
    word((n % 4294967296) as u32) + word((n / 4294967296) as u32)
}

/// The bytes of an instruction: its opcode and then its operands, each with the lowest byte first.
pub open spec fn bytes_of(instruction: Instruction) -> Seq<u8> {
    match instruction {
        Instruction::LoadConst { dst, constant } => {
            seq![0u8, dst.0, low(constant.0), high(constant.0)]
        },
        Instruction::LoadString { dst, string } => seq![1u8, dst.0, low(string.0), high(string.0)],
        Instruction::Move { dst, src } => seq![2u8, dst.0, src.0],
        Instruction::Add { dst, lhs, rhs } => seq![3u8, dst.0, lhs.0, rhs.0],
        Instruction::AddInt { dst, lhs, rhs } => seq![39u8, dst.0, lhs.0, rhs.0],
        Instruction::Sub { dst, lhs, rhs } => seq![4u8, dst.0, lhs.0, rhs.0],
        Instruction::SubInt { dst, lhs, rhs } => seq![40u8, dst.0, lhs.0, rhs.0],
        Instruction::Mul { dst, lhs, rhs } => seq![5u8, dst.0, lhs.0, rhs.0],
        Instruction::MulInt { dst, lhs, rhs } => seq![41u8, dst.0, lhs.0, rhs.0],
        Instruction::Div { dst, lhs, rhs } => seq![6u8, dst.0, lhs.0, rhs.0],
        Instruction::DivInt { dst, lhs, rhs } => seq![42u8, dst.0, lhs.0, rhs.0],
        Instruction::Jump { target } => seq![7u8] + word(target.0),
        Instruction::JumpIfFalse { condition, target } => seq![8u8, condition.0] + word(target.0),
        Instruction::JumpIfTrue { condition, target } => seq![9u8, condition.0] + word(target.0),
        Instruction::Equal { dst, lhs, rhs } => seq![10u8, dst.0, lhs.0, rhs.0],
        Instruction::NotEqual { dst, lhs, rhs } => seq![11u8, dst.0, lhs.0, rhs.0],
        Instruction::Less { dst, lhs, rhs } => seq![12u8, dst.0, lhs.0, rhs.0],
        Instruction::LessInt { dst, lhs, rhs } => seq![43u8, dst.0, lhs.0, rhs.0],
        Instruction::LessEqual { dst, lhs, rhs } => seq![13u8, dst.0, lhs.0, rhs.0],
        Instruction::LessEqualInt { dst, lhs, rhs } => seq![44u8, dst.0, lhs.0, rhs.0],
        Instruction::Greater { dst, lhs, rhs } => seq![14u8, dst.0, lhs.0, rhs.0],
        Instruction::GreaterInt { dst, lhs, rhs } => seq![45u8, dst.0, lhs.0, rhs.0],
        Instruction::GreaterEqual { dst, lhs, rhs } => seq![15u8, dst.0, lhs.0, rhs.0],
        Instruction::GreaterEqualInt { dst, lhs, rhs } => seq![46u8, dst.0, lhs.0, rhs.0],
        Instruction::Not { dst, src } => seq![16u8, dst.0, src.0],
        Instruction::CallFunction { dst, function, args_start, arg_count } => {
            seq![17u8, dst.0, low(function.0), high(function.0), args_start.0, arg_count]
        },
        Instruction::MakeUpvalue { dst, src } => seq![28u8, dst.0, src.0],
        Instruction::LoadUpvalue { dst, upvalue } => seq![29u8, dst.0, upvalue.0],
        Instruction::StoreUpvalue { upvalue, src } => seq![30u8, upvalue.0, src.0],
        Instruction::MakeClosure { dst, function, captures_start, capture_count } => {
            seq![25u8, dst.0, low(function.0), high(function.0), captures_start.0, capture_count]
        },
        Instruction::LoadCapture { dst, capture } => seq![26u8, dst.0, capture.0],
        Instruction::LoadCaptureCell { dst, capture } => seq![31u8, dst.0, capture.0],
        Instruction::StoreCapture { capture, src } => seq![32u8, capture.0, src.0],
        Instruction::CallValue { dst, callee, args_start, arg_count } => {
            seq![27u8, dst.0, callee.0, args_start.0, arg_count]
        },
        Instruction::CallExtension { dst, extension, args_start, arg_count } => {
            seq![47u8, dst.0, low(extension.0), high(extension.0), args_start.0, arg_count]
        },
        Instruction::ArrayNew { dst, elements_start, element_count } => {
            seq![18u8, dst.0, elements_start.0, element_count]
        },
        Instruction::MapNew { dst, entries_start, entry_count } => {
            seq![19u8, dst.0, entries_start.0, entry_count]
        },
        Instruction::RecordNew { dst, fields_start, fields } => seq![
            36u8,
            dst.0,
            fields_start.0,
            if fields@.len() < 256 {
                fields@.len() as u8
            } else {
                255
            },
        ] + fields@.map_values(|field: StringId| seq![low(field.0), high(field.0)]).flatten(),
        Instruction::IndexGet { dst, target, index } => seq![20u8, dst.0, target.0, index.0],
        Instruction::IndexSet { target, index, value } => seq![21u8, target.0, index.0, value.0],
        Instruction::ArrayGet { dst, array, index } => seq![22u8, dst.0, array.0, index.0],
        Instruction::ArraySet { array, index, value } => seq![23u8, array.0, index.0, value.0],
        Instruction::FieldGet { dst, target, field } => {
            seq![37u8, dst.0, target.0, low(field.0), high(field.0)]
        },
        Instruction::FieldSet { target, field, value } => {
            seq![38u8, target.0, low(field.0), high(field.0), value.0]
        },
        Instruction::PushHandler { error, target } => seq![33u8, error.0] + word(target.0),
        Instruction::PopHandler => seq![34u8],
        Instruction::Throw { src } => seq![35u8, src.0],
        Instruction::Return { src } => seq![24u8, src.0],
    }
}

/// The bytes of a text: how many there are, and then its UTF-8 encoding.
pub open spec fn bytes_of_text(text: Seq<char>) -> Seq<u8> {
    word(encode_utf8(text).len() as u32) + encode_utf8(text)
}

/// The bytes of a value.
pub open spec fn bytes_of_value(value: Value) -> Seq<u8> {
    match value {
        Value::Nil => seq![0u8],
        Value::Bool(false) => seq![1u8, 0],
        Value::Bool(true) => seq![1u8, 1],
        Value::Int(n) => seq![2u8] + long(n as u64),
        Value::Float(bits) => seq![3u8] + long(bits),
        Value::Obj(reference) => seq![4u8] + word(reference.index) + word(reference.generation),
    }
}

/// The bytes of a span that may be missing.
pub open spec fn bytes_of_span(span: Option<SourceSpan>) -> Seq<u8> {
    match span {
        None => seq![0u8],
        Some(span) => seq![1u8] + word(span.file_id.0) + long(span.start as u64) + long(
            span.end as u64,
        ),
    }
}

/// The bytes of a name that may be missing.
pub open spec fn bytes_of_name(name: Option<Seq<char>>) -> Seq<u8> {
    match name {
        None => seq![0u8],
        Some(name) => seq![1u8] + bytes_of_text(name),
    }
}

/// The bytes of items: how many there are, and then the items in order.
pub open spec fn bytes_of_items<A>(items: Seq<A>, bytes: spec_fn(A) -> Seq<u8>) -> Seq<u8> {
    word(items.len() as u32) + items.map_values(bytes).flatten()
}

proof fn lemma_numbers()
    ensures
        forall|n: u8| #[trigger] le_bytes(n as nat, 1) == seq![n],
        forall|n: u16| #[trigger] le_bytes(n as nat, 2) == seq![low(n), high(n)],
        forall|n: u32| #[trigger] le_bytes(n as nat, 4) == word(n),
        forall|n: u64| #[trigger] le_bytes(n as nat, 8) == long(n),
{
    reveal_with_fuel(le_bytes, 9);
    assert forall|n: u8| #[trigger] le_bytes(n as nat, 1) == seq![n] by {
        assert(le_bytes(n as nat, 1) =~= seq![n]);
    }
    assert forall|n: u16| #[trigger] le_bytes(n as nat, 2) == seq![low(n), high(n)] by {
        assert(le_bytes(n as nat, 2) =~= seq![low(n), high(n)]);
    }
    assert forall|n: u32| #[trigger] le_bytes(n as nat, 4) == word(n) by {
        lemma_word(n as nat);
    }
    assert forall|n: u64| #[trigger] le_bytes(n as nat, 8) == long(n) by {
        lemma_long(n);
    }
}

/// The first four bytes of a number.
proof fn lemma_word(n: nat)
    ensures
        le_bytes(n, 4) == seq![
            (n % 256) as u8,
            ((n / 256) % 256) as u8,
            ((n / 65536) % 256) as u8,
            ((n / 16777216) % 256) as u8,
        ],
{
    reveal_with_fuel(le_bytes, 5);
    assert(n / 256 / 256 == n / 65536);
    assert(n / 65536 / 256 == n / 16777216);
    assert(le_bytes(n, 4) =~= seq![
        (n % 256) as u8,
        ((n / 256) % 256) as u8,
        ((n / 65536) % 256) as u8,
        ((n / 16777216) % 256) as u8,
    ]);
}

proof fn lemma_halves(n: u64)
    by (bit_vector)
    ensures
        n / 256 / 256 / 256 / 256 == n / 4294967296,
        (n % 4294967296) % 256 == n % 256,
        ((n % 4294967296) / 256) % 256 == (n / 256) % 256,
        ((n % 4294967296) / 65536) % 256 == (n / 65536) % 256,
        (n % 4294967296) / 16777216 == (n / 16777216) % 256,
        (n / 4294967296) / 16777216 == ((n / 4294967296) / 16777216) % 256,
        n / 4294967296 <= 0xffff_ffff,
        n % 4294967296 <= 0xffff_ffff,
{
}

proof fn lemma_long(n: u64)
    ensures
        le_bytes(n as nat, 8) == long(n),
{
    let m = n as nat;
    lemma_halves(n);
    lemma_split(m, 4, 4);
    lemma_word(m);
    lemma_word(m / 256 / 256 / 256 / 256);
    let lower = (n % 4294967296) as u32;
    let upper = (n / 4294967296) as u32;
    assert(le_bytes(m, 4) =~= word(lower));
    assert(le_bytes(upper as nat, 4) =~= word(upper));
}

/// The bytes of a number are its lower bytes and then its upper bytes.
proof fn lemma_split(n: nat, lower: nat, upper: nat)
    requires
        lower == 4,
    ensures
        le_bytes(n, lower + upper) == le_bytes(n, lower) + le_bytes(n / 256 / 256 / 256 / 256, upper),
{
    reveal_with_fuel(le_bytes, 5);
    assert(le_bytes(n, lower + upper) =~= le_bytes(n, lower) + le_bytes(
        n / 256 / 256 / 256 / 256,
        upper,
    ));
}

proof fn lemma_four(operands: Seq<Operand>)
    requires
        operands.len() <= 4,
    ensures
        operands.len() == 0 ==> concat(operands, operand_encoder()) == Seq::<u8>::empty(),
        operands.len() == 1 ==> concat(operands, operand_encoder()) == operand_bytes(operands[0]),
        operands.len() == 2 ==> concat(operands, operand_encoder()) == operand_bytes(operands[0])
            + operand_bytes(operands[1]),
        operands.len() == 3 ==> concat(operands, operand_encoder()) == operand_bytes(operands[0])
            + operand_bytes(operands[1]) + operand_bytes(operands[2]),
        operands.len() == 4 ==> concat(operands, operand_encoder()) == operand_bytes(operands[0])
            + operand_bytes(operands[1]) + operand_bytes(operands[2]) + operand_bytes(operands[3]),
{
    reveal_with_fuel(concat, 5);
    let encoder = operand_encoder();
    let one = operands.drop_first();
    let two = one.drop_first();
    let three = two.drop_first();
    if operands.len() == 1 {
        assert(concat(operands, encoder) =~= operand_bytes(operands[0]));
    } else if operands.len() == 2 {
        assert(one[0] == operands[1]);
        assert(concat(operands, encoder) =~= operand_bytes(operands[0]) + operand_bytes(
            operands[1],
        ));
    } else if operands.len() == 3 {
        assert(one[0] == operands[1] && two[0] == operands[2]);
        assert(concat(operands, encoder) =~= operand_bytes(operands[0]) + operand_bytes(operands[1])
            + operand_bytes(operands[2]));
    } else if operands.len() == 4 {
        assert(one[0] == operands[1] && two[0] == operands[2] && three[0] == operands[3]);
        assert(concat(operands, encoder) =~= operand_bytes(operands[0]) + operand_bytes(operands[1])
            + operand_bytes(operands[2]) + operand_bytes(operands[3]));
    }
}

proof fn lemma_concat<A>(items: Seq<A>, encoder: spec_fn(A) -> Seq<u8>)
    ensures
        concat(items, encoder) == items.map_values(encoder).flatten(),
    decreases items.len(),
{
    let mapped = items.map_values(encoder);
    if items.len() > 0 {
        lemma_concat(items.drop_first(), encoder);
        assert(mapped.first() == encoder(items[0]));
        assert(mapped.drop_first() =~= items.drop_first().map_values(encoder));
    }
}

proof fn lemma_fields(front: Seq<Operand>, fields: Seq<StringId>)
    requires
        front.len() == 3,
    ensures
        concat(front + text_operands(fields), operand_encoder()) == operand_bytes(front[0])
            + operand_bytes(front[1]) + operand_bytes(front[2]) + fields.map_values(
            |field: StringId| seq![low(field.0), high(field.0)],
        ).flatten(),
{
    let all = front + text_operands(fields);
    let rest = text_operands(fields);
    let encoder = operand_encoder();
    reveal_with_fuel(concat, 4);
    assert(all.drop_first().drop_first().drop_first() =~= rest);
    assert(all[0] == front[0] && all.drop_first()[0] == front[1]
        && all.drop_first().drop_first()[0] == front[2]);
    lemma_concat(rest, encoder);
    lemma_numbers();
    assert(rest.map_values(encoder) =~= fields.map_values(
        |field: StringId| seq![low(field.0), high(field.0)],
    ));
    let tail = fields.map_values(|field: StringId| seq![low(field.0), high(field.0)]).flatten();
    assert(concat(all, encoder) =~= operand_bytes(front[0]) + operand_bytes(front[1])
        + operand_bytes(front[2]) + tail);
}

/// The bytes of an instruction are its opcode and its operands, in the order and with the numbers
/// of the format.
#[verifier::rlimit(100)]
#[verifier::spinoff_prover]
pub proof fn instructions_have_their_bytes(instruction: Instruction)
    ensures
        instruction_bytes(instruction@) == bytes_of(instruction),
{
    lemma_numbers();
    let operands = instruction@.operands;
    if let Instruction::RecordNew { dst, fields_start, fields } = instruction {
        let front = operands.take(3);
        assert(operands =~= front + text_operands(fields@));
        lemma_fields(front, fields@);
        assert(instruction_bytes(instruction@) =~= bytes_of(instruction));
    } else {
        lemma_four(operands);
        assert(instruction_bytes(instruction@) =~= bytes_of(instruction));
    }
}

proof fn lemma_text(text: Seq<char>)
    requires
        encode_utf8(text).len() <= u32::MAX,
    ensures
        text_bytes(text) == bytes_of_text(text),
{
    lemma_numbers();
    let n = encode_utf8(text).len() as u32;
    assert(le_bytes(n as nat, 4) == word(n));
}

/// The bytes of texts, of values, and of spans and names that may be missing are those of the
/// format.
pub proof fn parts_have_their_bytes(
    text: Seq<char>,
    value: Value,
    span: Option<SourceSpan>,
    name: Option<Seq<char>>,
)
    requires
        encode_utf8(text).len() <= u32::MAX,
        name matches Some(name) ==> encode_utf8(name).len() <= u32::MAX,
    ensures
        text_bytes(text) == bytes_of_text(text),
        value_bytes(value) == bytes_of_value(value),
        option_span_bytes(span) == bytes_of_span(span),
        option_text_bytes(name) == bytes_of_name(name),
{
    lemma_text(text);
    if let Some(name) = name {
        lemma_text(name);
    }
    lemma_numbers();
    assert(value_bytes(value) =~= bytes_of_value(value)) by {
        if let Value::Int(n) = value {
            assert(le_bytes((n as u64) as nat, 8) == long(n as u64));
        }
    }
    if let Some(span) = span {
        let start = span.start as u64;
        let end = span.end as u64;
        assert(le_bytes(start as nat, 8) == long(start));
        assert(le_bytes(end as nat, 8) == long(end));
    }
}

proof fn lemma_items<A>(items: Seq<A>, encoder: spec_fn(A) -> Seq<u8>)
    requires
        items.len() <= u32::MAX,
    ensures
        list_bytes(items, encoder) == bytes_of_items(items, encoder),
{
    reveal(list_bytes);
    lemma_numbers();
    lemma_concat(items, encoder);
    let n = items.len() as u32;
    assert(le_bytes(n as nat, 4) == word(n));
}

/// Whether the parts of a chunk are few enough to be counted.
pub open spec fn countable(c: ChunkView) -> bool {
    &&& encode_utf8(c.name).len() <= u32::MAX
    &&& c.constants.len() <= u32::MAX
    &&& c.strings.len() <= u32::MAX
    &&& c.instructions.len() <= u32::MAX
    &&& c.source_map.len() <= u32::MAX
    &&& c.debug_local_names.len() <= u32::MAX
}

/// The bytes of a chunk are its name, its numbers of parameters, registers and captures, its
/// constants, its strings, its instructions, their spans, and the names of its registers.
pub proof fn chunks_have_their_bytes(c: ChunkView)
    requires
        countable(c),
    ensures
        chunk_bytes(c) == bytes_of_text(c.name) + seq![c.arity, c.register_count, c.capture_count]
            + bytes_of_items(c.constants, |v: Value| value_bytes(v)) + bytes_of_items(
            c.strings,
            |s: Seq<char>| text_bytes(s),
        ) + bytes_of_items(c.instructions, |i: InstructionView| instruction_bytes(i))
            + bytes_of_items(c.source_map, |s: Option<SourceSpan>| option_span_bytes(s))
            + bytes_of_items(c.debug_local_names, |n: Option<Seq<char>>| option_text_bytes(n)),
{
    reveal(chunk_bytes);
    lemma_text(c.name);
    lemma_items(c.constants, value_encoder());
    lemma_items(c.strings, text_encoder());
    lemma_items(c.instructions, instruction_encoder());
    lemma_items(c.source_map, option_span_encoder());
    lemma_items(c.debug_local_names, option_text_encoder());
}

/// The bytes of a function are its name, its numbers of parameters, registers and captures, and
/// then its chunk behind a zero byte, or the name of a native behind a one byte.
pub proof fn functions_have_their_bytes(f: FunctionView)
    requires
        encode_utf8(f.name).len() <= u32::MAX,
        f.kind matches FunctionKindView::Native(name) ==> encode_utf8(name).len() <= u32::MAX,
    ensures
        function_bytes(f) == bytes_of_text(f.name) + seq![f.arity, f.register_count, f.capture_count]
            + match f.kind {
            FunctionKindView::Bytecode(c) => seq![0u8] + chunk_bytes(c),
            FunctionKindView::Native(name) => seq![1u8] + bytes_of_text(name),
        },
{
    reveal(function_bytes);
    lemma_text(f.name);
    if let FunctionKindView::Native(name) = f.kind {
        lemma_text(name);
    }
}

proof fn lemma_magic()
    ensures
        encode_utf8(BYTECODE_MAGIC@) == seq![70u8, 69, 82, 82, 73, 88, 66, 67],
        encode_utf8(BYTECODE_CONTAINER_MAGIC@) == seq![70u8, 69, 82, 82, 73, 88, 67, 78],
{
    reveal_strlit("FERRIXBC");
    reveal_strlit("FERRIXCN");
    is_ascii_chars_encode_utf8(BYTECODE_MAGIC@);
    is_ascii_chars_encode_utf8(BYTECODE_CONTAINER_MAGIC@);
    assert(encode_utf8(BYTECODE_MAGIC@) =~= seq![70u8, 69, 82, 82, 73, 88, 66, 67]);
    assert(encode_utf8(BYTECODE_CONTAINER_MAGIC@) =~= seq![70u8, 69, 82, 82, 73, 88, 67, 78]);
}

/// The bytes of a program are the letters `FERRIXBC`, the version of the format, the version of
/// the program, its feature flags, its entry, and its functions.
pub proof fn programs_have_their_bytes(p: ProgramView)
    requires
        p.functions.len() <= u32::MAX,
    ensures
        program_bytes(p) == seq![70u8, 69, 82, 82, 73, 88, 66, 67, 1, 0] + seq![
            low(p.version),
            high(p.version),
        ] + word(p.feature_flags) + seq![low(p.entry.0), high(p.entry.0)] + bytes_of_items(
            p.functions,
            |f: FunctionView| function_bytes(f),
        ),
{
    lemma_magic();
    lemma_numbers();
    lemma_items(p.functions, function_encoder());
    assert(le_bytes(1u16 as nat, 2) == seq![low(1), high(1)]);
    assert(program_bytes(p) =~= seq![70u8, 69, 82, 82, 73, 88, 66, 67, 1, 0] + seq![
        low(p.version),
        high(p.version),
    ] + word(p.feature_flags) + seq![low(p.entry.0), high(p.entry.0)] + bytes_of_items(
        p.functions,
        |f: FunctionView| function_bytes(f),
    ));
}

/// The byte of a flag.
pub open spec fn bit(flag: bool) -> u8 {
    if flag {
        1
    } else {
        0
    }
}

/// The bytes of container metadata up to the module name.
pub open spec fn bytes_of_head(m: MetadataView) -> Seq<u8> {
    seq![low(m.bytecode_format_version), high(m.bytecode_format_version)] + bytes_of_text(
        m.min_ferrix_version,
    ) + word(m.feature_flags) + bytes_of_items(
        m.required_capabilities,
        |s: Seq<char>| text_bytes(s),
    ) + seq![low(m.entry.0), high(m.entry.0)] + bytes_of_name(m.module_name)
}

/// The bytes of container metadata behind the module name.
pub open spec fn bytes_of_tail(m: MetadataView) -> Seq<u8> {
    seq![bit(m.debug_section_present)] + long(m.checksum) + seq![
        m.optimization_level,
        bit(m.import_table_present),
        bit(m.export_table_present),
        bit(m.interface_metadata_present),
    ]
}

proof fn lemma_head(m: MetadataView)
    requires
        encode_utf8(m.min_ferrix_version).len() <= u32::MAX,
        m.required_capabilities.len() <= u32::MAX,
        m.module_name matches Some(name) ==> encode_utf8(name).len() <= u32::MAX,
    ensures
        metadata_head_bytes(m) == bytes_of_head(m),
{
    lemma_numbers();
    lemma_text(m.min_ferrix_version);
    if let Some(name) = m.module_name {
        lemma_text(name);
    }
    lemma_items(m.required_capabilities, text_encoder());
}

proof fn lemma_tail(m: MetadataView)
    ensures
        metadata_tail_bytes(m) == bytes_of_tail(m),
{
    lemma_numbers();
    assert(metadata_tail_bytes(m) =~= bytes_of_tail(m));
}

/// The bytes of a container are the letters `FERRIXCN`, its version, its metadata, and the bytes
/// of the program as the only section, with their number.
pub proof fn containers_have_their_bytes(p: ProgramView, m: MetadataView)
    requires
        program_bytes(p).len() <= u32::MAX,
        encode_utf8(m.min_ferrix_version).len() <= u32::MAX,
        m.required_capabilities.len() <= u32::MAX,
        m.module_name matches Some(name) ==> encode_utf8(name).len() <= u32::MAX,
    ensures
        container_bytes(p, m) == seq![70u8, 69, 82, 82, 73, 88, 67, 78, 1, 0] + (bytes_of_head(m)
            + bytes_of_tail(m)) + seq![1u8, 0, 0, 0, 0] + word(program_bytes(p).len() as u32)
            + program_bytes(p),
{
    lemma_magic();
    lemma_head(m);
    lemma_tail(m);
    reveal(metadata_bytes);
    lemma_container(p, m);
}

proof fn lemma_container(p: ProgramView, m: MetadataView)
    requires
        program_bytes(p).len() <= u32::MAX,
        encode_utf8(BYTECODE_CONTAINER_MAGIC@) == seq![70u8, 69, 82, 82, 73, 88, 67, 78],
    ensures
        container_bytes(p, m) == seq![70u8, 69, 82, 82, 73, 88, 67, 78, 1, 0] + metadata_bytes(m)
            + seq![1u8, 0, 0, 0, 0] + word(program_bytes(p).len() as u32) + program_bytes(p),
{
    lemma_numbers();
    let payload = program_bytes(p);
    let metadata = metadata_bytes(m);
    let n = payload.len() as u32;
    assert(le_bytes(n as nat, 4) == word(n));
    assert(le_bytes(1u16 as nat, 2) == seq![1u8, 0]);
    assert(le_bytes(1u32 as nat, 4) == seq![1u8, 0, 0, 0]);
    assert(container_bytes(p, m) == seq![70u8, 69, 82, 82, 73, 88, 67, 78] + seq![1u8, 0] + metadata
        + seq![1u8, 0, 0, 0] + seq![0u8] + word(n) + payload);
    lemma_joined(metadata, word(n), payload);
}

proof fn lemma_joined(metadata: Seq<u8>, count: Seq<u8>, payload: Seq<u8>)
    ensures
        seq![70u8, 69, 82, 82, 73, 88, 67, 78] + seq![1u8, 0] + metadata + seq![1u8, 0, 0, 0]
            + seq![0u8] + count + payload == seq![70u8, 69, 82, 82, 73, 88, 67, 78, 1, 0] + metadata
            + seq![1u8, 0, 0, 0, 0] + count + payload,
{
    assert(seq![70u8, 69, 82, 82, 73, 88, 67, 78] + seq![1u8, 0] =~= seq![
        70u8,
        69,
        82,
        82,
        73,
        88,
        67,
        78,
        1,
        0,
    ]);
    let front = seq![70u8, 69, 82, 82, 73, 88, 67, 78, 1, 0] + metadata;
    assert(front + seq![1u8, 0, 0, 0] + seq![0u8] =~= front + seq![1u8, 0, 0, 0, 0]);
}

// ---------------------------------------------------------------------------
// Sizes
// ---------------------------------------------------------------------------

/// Whether a number can be written with four bytes.
pub open spec fn countable_size(n: nat) -> bool {
    n < 4294967296
}

/// Whether every part of a chunk is small enough for the format.
pub open spec fn chunk_fits(c: ChunkView) -> bool {
    &&& countable_size(encode_utf8(c.name).len())
    &&& countable_size(c.constants.len()) && countable_size(c.strings.len())
    &&& countable_size(c.instructions.len()) && countable_size(c.source_map.len())
    &&& countable_size(c.debug_local_names.len())
    &&& forall|i: int|
        0 <= i < c.strings.len() ==> countable_size(encode_utf8(#[trigger] c.strings[i]).len())
    &&& forall|i: int|
        0 <= i < c.debug_local_names.len() ==> (#[trigger] c.debug_local_names[i] matches Some(name)
            ==> countable_size(encode_utf8(name).len()))
}

/// Whether every part of a function is small enough for the format.
pub open spec fn function_fits(f: FunctionView) -> bool {
    countable_size(encode_utf8(f.name).len()) && match f.kind {
        FunctionKindView::Bytecode(c) => chunk_fits(c),
        FunctionKindView::Native(name) => countable_size(encode_utf8(name).len()),
    }
}

proof fn lemma_chunk_fits(c: ChunkView)
    ensures
        oversized_chunk(c) is None <==> chunk_fits(c),
{
    reveal(oversized_chunk);
    if oversized_texts("string", c.strings) is None {
        assert forall|i: int| 0 <= i < c.strings.len() implies countable_size(
            encode_utf8(#[trigger] c.strings[i]).len(),
        ) by {
            assert(oversized_text("string", c.strings[i]) is None);
        }
    }
    if oversized_option_texts("debug_local_name", c.debug_local_names) is None {
        assert forall|i: int|
            0 <= i < c.debug_local_names.len() implies (#[trigger] c.debug_local_names[i] matches
            Some(name) ==> countable_size(encode_utf8(name).len())) by {
            if let Some(name) = c.debug_local_names[i] {
                assert(oversized_text("debug_local_name", c.debug_local_names[i]->0) is None);
            }
        }
    }
}

proof fn lemma_functions_fit(functions: Seq<FunctionView>, from: nat)
    ensures
        oversized_functions(functions, from) is None <==> forall|i: int|
            from <= i < functions.len() ==> function_fits(#[trigger] functions[i]),
    decreases functions.len() - from,
{
    if from < functions.len() {
        reveal(oversized_function);
        let f = functions[from as int];
        if let FunctionKindView::Bytecode(c) = f.kind {
            lemma_chunk_fits(c);
        }
        assert(oversized_function(f) is None <==> function_fits(f));
        lemma_functions_fit(functions, from + 1);
    }
}

/// A program is encoded just where every list and text in it has fewer than two to the power of
/// thirty-two items or bytes.
pub proof fn programs_that_fit_are_encoded(p: ProgramView)
    ensures
        oversized_program(p) is None <==> countable_size(p.functions.len()) && forall|i: int|
            0 <= i < p.functions.len() ==> function_fits(#[trigger] p.functions[i]),
{
    lemma_functions_fit(p.functions, 0);
}

/// The program of a container is the content of the last section that holds a program; a container
/// without such a section holds none.
pub proof fn containers_hold_their_last_program(sections: Seq<SectionView>)
    ensures
        match program_payload(sections) {
            Some(payload) => exists|k: int|
                0 <= k < sections.len() && (#[trigger] sections[k]).entry.kind is ProgramPayload
                    && payload == sections[k].payload && forall|j: int|
                    k < j < sections.len() ==> !((#[trigger] sections[j]).entry.kind
                        is ProgramPayload),
            None => forall|k: int|
                0 <= k < sections.len() ==> !((#[trigger] sections[k]).entry.kind is ProgramPayload),
        },
    decreases sections.len(),
{
    if sections.len() > 0 {
        let n = sections.len() - 1;
        if sections[n].entry.kind is ProgramPayload {
            assert(sections[n].entry.kind is ProgramPayload);
        } else {
            let front = sections.drop_last();
            containers_hold_their_last_program(front);
            match program_payload(sections) {
                Some(payload) => {
                    let k = choose|k: int|
                        0 <= k < front.len() && (#[trigger] front[k]).entry.kind is ProgramPayload
                            && payload == front[k].payload && forall|j: int|
                            k < j < front.len() ==> !((#[trigger] front[j]).entry.kind
                                is ProgramPayload);
                    assert(sections[k] == front[k]);
                    assert forall|j: int| k < j < sections.len() implies !((
                    #[trigger] sections[j]).entry.kind is ProgramPayload) by {
                        if j < front.len() {
                            assert(sections[j] == front[j]);
                        }
                    }
                },
                None => {
                    assert forall|k: int| 0 <= k < sections.len() implies !((
                    #[trigger] sections[k]).entry.kind is ProgramPayload) by {
                        if k < front.len() {
                            assert(sections[k] == front[k]);
                        }
                    }
                },
            }
        }
    }
}

/// The number of a kind of section.
pub open spec fn section_number(kind: BytecodeSectionKind) -> nat {
    match kind {
        BytecodeSectionKind::ProgramPayload => 0,
        BytecodeSectionKind::ImportTable => 1,
        BytecodeSectionKind::ExportTable => 2,
        BytecodeSectionKind::InterfaceMetadata => 3,
        BytecodeSectionKind::Debug => 4,
    }
}

/// A byte stands for the kind of section with its number, and the first five bytes alone do.
pub proof fn sections_have_their_numbers(tag: u8)
    ensures
        match section_kind(tag) {
            Some(kind) => section_number(kind) == tag,
            None => tag >= 5,
        },
{
}

} // verus!
