//! What is written is read back.

use vstd::prelude::*;
use vstd::string::StringSliceAdditionalSpecFns;
use vstd::utf8::{encode_utf8, encode_utf8_decode_utf8, encode_utf8_valid_utf8, is_ascii_chars_encode_utf8};

use crate::bytecode::chunk::{Chunk, ChunkView};
use crate::bytecode::decoding::{
    instruction_reader, option_span_reader, option_text_reader, parsed_program, read_byte,
    read_chunk, read_counted, read_flag, read_function, read_functions, read_header,
    read_instruction, read_magic, read_operand, read_operands, read_option_span, read_option_text,
    read_text, read_value, text_kinds, text_reader, value_reader,
};
use crate::bytecode::encoding::{
    chunk_bytes, flag_bytes, function_bytes, function_encoder, instruction_bytes,
    instruction_encoder, length_bytes, list_bytes, operand_bytes, operand_encoder,
    option_span_bytes, option_span_encoder, option_text_bytes, option_text_encoder, oversized_chunk,
    oversized_function, oversized_functions, oversized_program, oversized_text, program_bytes,
    text_bytes, text_encoder, value_bytes, value_encoder, FORMAT_VERSION,
};
use crate::bytecode::format::BYTECODE_MAGIC;
use crate::bytecode::instruction::{InstructionView, Operand, OP_RECORD_NEW};
use crate::bytecode::layout::{kind_of, kinds_of, lemma_well_laid_out, well_laid_out};
use crate::bytecode::program::{Function, FunctionKind, FunctionKindView, FunctionView, Program, ProgramView};
use crate::bytecode::serialization::{
    container_bytes, container_decodes_to, decodes_to, is_container, metadata_bytes,
    metadata_head_bytes, metadata_tail_bytes, oversized_container, oversized_metadata,
    program_payload, read_container, read_metadata, read_metadata_tail, read_section, read_sections,
    recorded_metadata, section_entries, BytecodeSectionEntry, BytecodeSectionKind, MetadataView,
    SectionView, BYTECODE_CONTAINER_MAGIC, CURRENT_CONTAINER_VERSION,
};
use crate::bytecode::verification::{
    valid_chunk, valid_chunk_operands_in_bounds, valid_program, valid_program_functions_are_valid,
};
use crate::bytecode::wire::{
    concat, le_bytes, le_value, lemma_byte_ranges, lemma_list_round_trip, lemma_number_round_trip,
    read_number, round_trips, BytecodeDecodeError, Parse,
};
use crate::diagnostics::span::SourceSpan;
use crate::value::Value;

verus! {

/// Appending is associative.
pub broadcast proof fn lemma_append_associative<A>(a: Seq<A>, b: Seq<A>, c: Seq<A>)
    ensures
        #[trigger] ((a + b) + c) == a + (b + c),
{
    assert((a + b) + c =~= a + (b + c));
}

proof fn lemma_byte(b: u8, behind: Seq<u8>)
    ensures
        read_byte(seq![b] + behind) == Ok::<(u8, Seq<u8>), BytecodeDecodeError>((b, behind)),
{
    let all = seq![b] + behind;
    assert(all.take(1) =~= seq![b]);
    assert(all.skip(1) =~= behind);
    assert(seq![b].drop_first() =~= Seq::empty());
    reveal_with_fuel(le_value, 2);
}

proof fn lemma_flag(flag: bool, behind: Seq<u8>)
    ensures
        read_flag(flag_bytes(flag) + behind) == Ok::<(bool, Seq<u8>), BytecodeDecodeError>(
            (flag, behind),
        ),
{
    lemma_byte(
        if flag {
            1
        } else {
            0
        },
        behind,
    );
}

proof fn lemma_text(text: Seq<char>, behind: Seq<u8>)
    requires
        encode_utf8(text).len() <= u32::MAX,
    ensures
        read_text(text_bytes(text) + behind) == Ok::<(Seq<char>, Seq<u8>), BytecodeDecodeError>(
            (text, behind),
        ),
{
    let bytes = encode_utf8(text);
    let rest = bytes + behind;
    lemma_byte_ranges();
    lemma_number_round_trip(bytes.len(), 4, rest);
    assert(text_bytes(text) + behind =~= length_bytes(bytes.len()) + rest);
    assert(rest.take(bytes.len() as int) =~= bytes);
    assert(rest.skip(bytes.len() as int) =~= behind);
    encode_utf8_valid_utf8(text);
    encode_utf8_decode_utf8(text);
}

proof fn lemma_option_text(text: Option<Seq<char>>, behind: Seq<u8>)
    requires
        text matches Some(t) ==> encode_utf8(t).len() <= u32::MAX,
    ensures
        read_option_text(option_text_bytes(text) + behind) == Ok::<
            (Option<Seq<char>>, Seq<u8>),
            BytecodeDecodeError,
        >((text, behind)),
{
    match text {
        Some(t) => {
            lemma_text(t, behind);
            lemma_byte(1, text_bytes(t) + behind);
            assert(option_text_bytes(text) + behind =~= seq![1u8] + (text_bytes(t) + behind));
        },
        None => {
            lemma_byte(0, behind);
        },
    }
}

proof fn lemma_value(value: Value, behind: Seq<u8>)
    ensures
        read_value(value_bytes(value) + behind) == Ok::<(Value, Seq<u8>), BytecodeDecodeError>(
            (value, behind),
        ),
{
    let all = value_bytes(value) + behind;
    lemma_byte_ranges();
    match value {
        Value::Nil => {
            lemma_byte(0, behind);
        },
        Value::Bool(b) => {
            lemma_flag(b, behind);
            lemma_byte(1, flag_bytes(b) + behind);
            assert(all =~= seq![1u8] + (flag_bytes(b) + behind));
        },
        Value::Int(n) => {
            let rest = le_bytes((n as u64) as nat, 8) + behind;
            lemma_number_round_trip((n as u64) as nat, 8, behind);
            lemma_byte(2, rest);
            assert(all =~= seq![2u8] + rest);
            assert((n as u64) as i64 == n) by (bit_vector);
        },
        Value::Float(bits) => {
            let rest = le_bytes(bits as nat, 8) + behind;
            lemma_number_round_trip(bits as nat, 8, behind);
            lemma_byte(3, rest);
            assert(all =~= seq![3u8] + rest);
        },
        Value::Obj(reference) => {
            let last = le_bytes(reference.generation as nat, 4) + behind;
            let rest = le_bytes(reference.index as nat, 4) + last;
            lemma_number_round_trip(reference.generation as nat, 4, behind);
            lemma_number_round_trip(reference.index as nat, 4, last);
            lemma_byte(4, rest);
            assert(all =~= seq![4u8] + rest);
        },
    }
}

proof fn lemma_option_span(span: Option<SourceSpan>, behind: Seq<u8>)
    ensures
        read_option_span(option_span_bytes(span) + behind) == Ok::<
            (Option<SourceSpan>, Seq<u8>),
            BytecodeDecodeError,
        >((span, behind)),
{
    lemma_byte_ranges();
    match span {
        Some(s) => {
            let r3 = le_bytes(s.end as nat, 8) + behind;
            let r2 = le_bytes(s.start as nat, 8) + r3;
            let r1 = le_bytes(s.file_id.0 as nat, 4) + r2;
            lemma_number_round_trip(s.end as nat, 8, behind);
            lemma_number_round_trip(s.start as nat, 8, r3);
            lemma_number_round_trip(s.file_id.0 as nat, 4, r2);
            lemma_byte(1, r1);
            assert(option_span_bytes(span) + behind =~= seq![1u8] + r1);
        },
        None => {
            lemma_byte(0, behind);
        },
    }
}

proof fn lemma_operand(operand: Operand, behind: Seq<u8>)
    ensures
        read_operand(kind_of(operand), operand_bytes(operand) + behind) == Ok::<
            (Operand, Seq<u8>),
            BytecodeDecodeError,
        >((operand, behind)),
{
    lemma_byte_ranges();
    match operand {
        Operand::Register(r) => lemma_number_round_trip(r.0 as nat, 1, behind),
        Operand::Constant(c) => lemma_number_round_trip(c.0 as nat, 2, behind),
        Operand::Text(s) => lemma_number_round_trip(s.0 as nat, 2, behind),
        Operand::Function(f) => lemma_number_round_trip(f.0 as nat, 2, behind),
        Operand::Target(t) => lemma_number_round_trip(t.0 as nat, 4, behind),
        Operand::Capture(c) => lemma_number_round_trip(c.0 as nat, 1, behind),
        Operand::Count(n) => lemma_number_round_trip(n as nat, 1, behind),
    }
}

proof fn lemma_operands(operands: Seq<Operand>, behind: Seq<u8>)
    ensures
        read_operands(kinds_of(operands), concat(operands, operand_encoder()) + behind) == Ok::<
            (Seq<Operand>, Seq<u8>),
            BytecodeDecodeError,
        >((operands, behind)),
    decreases operands.len(),
{
    let all = concat(operands, operand_encoder()) + behind;
    if operands.len() == 0 {
        assert(all =~= behind);
        assert(operands =~= Seq::empty());
    } else {
        let tail = operands.drop_first();
        let rest = concat(tail, operand_encoder()) + behind;
        lemma_operands(tail, behind);
        lemma_operand(operands[0], rest);
        assert(all =~= operand_bytes(operands[0]) + rest);
        assert(kinds_of(operands).drop_first() =~= kinds_of(tail));
        assert(kinds_of(operands)[0] == kind_of(operands[0]));
        assert(seq![operands[0]] + tail =~= operands);
    }
}

proof fn lemma_concat_split(front: Seq<Operand>, back: Seq<Operand>)
    ensures
        concat(front + back, operand_encoder()) == concat(front, operand_encoder()) + concat(
            back,
            operand_encoder(),
        ),
    decreases front.len(),
{
    if front.len() == 0 {
        assert(front + back =~= back);
        assert(concat(front, operand_encoder()) + concat(back, operand_encoder()) =~= concat(
            back,
            operand_encoder(),
        ));
    } else {
        lemma_concat_split(front.drop_first(), back);
        assert((front + back).drop_first() =~= front.drop_first() + back);
        assert((front + back)[0] == front[0]);
        assert(concat(front + back, operand_encoder()) =~= concat(front, operand_encoder())
            + concat(back, operand_encoder()));
    }
}

pub(crate) proof fn lemma_instruction(v: InstructionView, behind: Seq<u8>)
    requires
        well_laid_out(v),
    ensures
        read_instruction(instruction_bytes(v) + behind) == Ok::<
            (InstructionView, Seq<u8>),
            BytecodeDecodeError,
        >((v, behind)),
{
    let rest = concat(v.operands, operand_encoder()) + behind;
    lemma_byte(v.opcode, rest);
    assert(instruction_bytes(v) + behind =~= seq![v.opcode] + rest);
    if v.opcode == OP_RECORD_NEW {
        let front = v.operands.take(3);
        let fields = v.operands.skip(3);
        let field_rest = concat(fields, operand_encoder()) + behind;
        assert(v.operands =~= front + fields);
        lemma_concat_split(front, fields);
        assert(rest =~= concat(front, operand_encoder()) + field_rest);
        lemma_operands(front, field_rest);
        lemma_operands(fields, behind);
        assert(kinds_of(fields) =~= text_kinds(fields.len()));
        assert(front[2] == v.operands[2]);
    } else {
        lemma_operands(v.operands, behind);
    }
}

/// Reads back a list behind its length.
proof fn lemma_counted<A>(
    items: Seq<A>,
    item_bytes: spec_fn(A) -> Seq<u8>,
    read_item: spec_fn(Seq<u8>) -> Parse<A>,
    behind: Seq<u8>,
)
    requires
        items.len() <= u32::MAX,
        forall|i: int| 0 <= i < items.len() ==> round_trips(#[trigger] items[i], item_bytes, read_item),
    ensures
        read_counted(list_bytes(items, item_bytes) + behind, read_item) == Ok::<
            (Seq<A>, Seq<u8>),
            BytecodeDecodeError,
        >((items, behind)),
{
    let rest = concat(items, item_bytes) + behind;
    lemma_byte_ranges();
    lemma_number_round_trip(items.len(), 4, rest);
    lemma_list_round_trip(items, item_bytes, read_item, behind);
    reveal(list_bytes);
    reveal(read_counted);
    assert(list_bytes(items, item_bytes) + behind =~= length_bytes(items.len()) + rest);
}

proof fn lemma_texts(texts: Seq<Seq<char>>, behind: Seq<u8>)
    requires
        texts.len() <= u32::MAX,
        forall|i: int| 0 <= i < texts.len() ==> encode_utf8(#[trigger] texts[i]).len() <= u32::MAX,
    ensures
        read_counted(list_bytes(texts, text_encoder()) + behind, text_reader()) == Ok::<
            (Seq<Seq<char>>, Seq<u8>),
            BytecodeDecodeError,
        >((texts, behind)),
{
    assert forall|i: int| 0 <= i < texts.len() implies round_trips(
        #[trigger] texts[i],
        text_encoder(),
        text_reader(),
    ) by {
        assert forall|b: Seq<u8>|
            text_reader()(#[trigger] (text_encoder()(texts[i]) + b)) == Ok::<
                (Seq<char>, Seq<u8>),
                BytecodeDecodeError,
            >((texts[i], b)) by {
            lemma_text(texts[i], b);
        }
    }
    lemma_counted(texts, text_encoder(), text_reader(), behind);
}

proof fn lemma_header(name: Seq<char>, a: u8, b: u8, c: u8, behind: Seq<u8>)
    requires
        encode_utf8(name).len() <= u32::MAX,
    ensures
        read_header(text_bytes(name) + seq![a, b, c] + behind) == Ok::<
            ((Seq<char>, u8, u8, u8), Seq<u8>),
            BytecodeDecodeError,
        >(((name, a, b, c), behind)),
{
    let r3 = seq![c] + behind;
    let r2 = seq![b] + r3;
    let r1 = seq![a] + r2;
    lemma_byte(c, behind);
    lemma_byte(b, r3);
    lemma_byte(a, r2);
    lemma_text(name, r1);
    assert(text_bytes(name) + seq![a, b, c] + behind =~= text_bytes(name) + r1);
}

/// Whether every instruction of a chunk has the operands that its opcode calls for.
pub open spec fn laid_out_chunk(c: ChunkView) -> bool {
    forall|i: int| 0 <= i < c.instructions.len() ==> well_laid_out(#[trigger] c.instructions[i])
}

/// Whether every bytecode function has the operands that its opcodes call for.
pub open spec fn laid_out_function(f: FunctionView) -> bool {
    f.kind matches FunctionKindView::Bytecode(c) ==> laid_out_chunk(c)
}

proof fn lemma_names(items: Seq<Option<Seq<char>>>, behind: Seq<u8>)
    requires
        items.len() <= u32::MAX,
        forall|i: int|
            0 <= i < items.len() && #[trigger] items[i] is Some ==> encode_utf8(items[i]->0).len()
                <= u32::MAX,
    ensures
        read_counted(list_bytes(items, option_text_encoder()) + behind, option_text_reader()) == Ok::<
            (Seq<Option<Seq<char>>>, Seq<u8>),
            BytecodeDecodeError,
        >((items, behind)),
{
    assert forall|i: int| 0 <= i < items.len() implies round_trips(
        #[trigger] items[i],
        option_text_encoder(),
        option_text_reader(),
    ) by {
        assert forall|b: Seq<u8>|
            option_text_reader()(#[trigger] (option_text_encoder()(items[i]) + b)) == Ok::<
                (Option<Seq<char>>, Seq<u8>),
                BytecodeDecodeError,
            >((items[i], b)) by {
            lemma_option_text(items[i], b);
        }
    }
    lemma_counted(items, option_text_encoder(), option_text_reader(), behind);
}

proof fn lemma_spans(items: Seq<Option<SourceSpan>>, behind: Seq<u8>)
    requires
        items.len() <= u32::MAX,
    ensures
        read_counted(list_bytes(items, option_span_encoder()) + behind, option_span_reader()) == Ok::<
            (Seq<Option<SourceSpan>>, Seq<u8>),
            BytecodeDecodeError,
        >((items, behind)),
{
    assert forall|i: int| 0 <= i < items.len() implies round_trips(
        #[trigger] items[i],
        option_span_encoder(),
        option_span_reader(),
    ) by {
        assert forall|b: Seq<u8>|
            option_span_reader()(#[trigger] (option_span_encoder()(items[i]) + b)) == Ok::<
                (Option<SourceSpan>, Seq<u8>),
                BytecodeDecodeError,
            >((items[i], b)) by {
            lemma_option_span(items[i], b);
        }
    }
    lemma_counted(items, option_span_encoder(), option_span_reader(), behind);
}

proof fn lemma_instructions(items: Seq<InstructionView>, behind: Seq<u8>)
    requires
        items.len() <= u32::MAX,
        forall|i: int| 0 <= i < items.len() ==> well_laid_out(#[trigger] items[i]),
    ensures
        read_counted(list_bytes(items, instruction_encoder()) + behind, instruction_reader()) == Ok::<
            (Seq<InstructionView>, Seq<u8>),
            BytecodeDecodeError,
        >((items, behind)),
{
    assert forall|i: int| 0 <= i < items.len() implies round_trips(
        #[trigger] items[i],
        instruction_encoder(),
        instruction_reader(),
    ) by {
        assert forall|b: Seq<u8>|
            instruction_reader()(#[trigger] (instruction_encoder()(items[i]) + b)) == Ok::<
                (InstructionView, Seq<u8>),
                BytecodeDecodeError,
            >((items[i], b)) by {
            lemma_instruction(items[i], b);
        }
    }
    lemma_counted(items, instruction_encoder(), instruction_reader(), behind);
}

proof fn lemma_values(items: Seq<Value>, behind: Seq<u8>)
    requires
        items.len() <= u32::MAX,
    ensures
        read_counted(list_bytes(items, value_encoder()) + behind, value_reader()) == Ok::<
            (Seq<Value>, Seq<u8>),
            BytecodeDecodeError,
        >((items, behind)),
{
    assert forall|i: int| 0 <= i < items.len() implies round_trips(
        #[trigger] items[i],
        value_encoder(),
        value_reader(),
    ) by {
        assert forall|b: Seq<u8>|
            value_reader()(#[trigger] (value_encoder()(items[i]) + b)) == Ok::<
                (Value, Seq<u8>),
                BytecodeDecodeError,
            >((items[i], b)) by {
            lemma_value(items[i], b);
        }
    }
    lemma_counted(items, value_encoder(), value_reader(), behind);
}

proof fn lemma_chunk_sizes(c: ChunkView)
    requires
        oversized_chunk(c) is None,
    ensures
        encode_utf8(c.name).len() <= u32::MAX,
        c.constants.len() <= u32::MAX,
        c.strings.len() <= u32::MAX,
        forall|i: int|
            0 <= i < c.strings.len() ==> encode_utf8(#[trigger] c.strings[i]).len() <= u32::MAX,
        c.instructions.len() <= u32::MAX,
        c.source_map.len() <= u32::MAX,
        c.debug_local_names.len() <= u32::MAX,
        forall|i: int|
            0 <= i < c.debug_local_names.len() && #[trigger] c.debug_local_names[i] is Some
                ==> encode_utf8(c.debug_local_names[i]->0).len() <= u32::MAX,
{
    reveal(oversized_chunk);
    assert forall|i: int| 0 <= i < c.strings.len() implies encode_utf8(#[trigger] c.strings[i]).len()
        <= u32::MAX by {
        assert(oversized_text("string", c.strings[i]) is None);
    }
}

/// Reading the parts of a chunk one behind the other reads the chunk.
proof fn lemma_chunk_parts(
    c: ChunkView,
    r0: Seq<u8>,
    r1: Seq<u8>,
    r2: Seq<u8>,
    r3: Seq<u8>,
    r4: Seq<u8>,
    r5: Seq<u8>,
    r6: Seq<u8>,
)
    requires
        read_header(r0) == Ok::<((Seq<char>, u8, u8, u8), Seq<u8>), BytecodeDecodeError>(
            ((c.name, c.arity, c.register_count, c.capture_count), r1),
        ),
        read_counted(r1, value_reader()) == Ok::<(Seq<Value>, Seq<u8>), BytecodeDecodeError>(
            (c.constants, r2),
        ),
        read_counted(r2, text_reader()) == Ok::<(Seq<Seq<char>>, Seq<u8>), BytecodeDecodeError>(
            (c.strings, r3),
        ),
        read_counted(r3, instruction_reader()) == Ok::<
            (Seq<InstructionView>, Seq<u8>),
            BytecodeDecodeError,
        >((c.instructions, r4)),
        read_counted(r4, option_span_reader()) == Ok::<
            (Seq<Option<SourceSpan>>, Seq<u8>),
            BytecodeDecodeError,
        >((c.source_map, r5)),
        read_counted(r5, option_text_reader()) == Ok::<
            (Seq<Option<Seq<char>>>, Seq<u8>),
            BytecodeDecodeError,
        >((c.debug_local_names, r6)),
    ensures
        read_chunk(r0) == Ok::<(ChunkView, Seq<u8>), BytecodeDecodeError>((c, r6)),
{
    reveal(read_chunk);
}

proof fn lemma_chunk(c: ChunkView, behind: Seq<u8>)
    requires
        oversized_chunk(c) is None,
        laid_out_chunk(c),
    ensures
        read_chunk(chunk_bytes(c) + behind) == Ok::<(ChunkView, Seq<u8>), BytecodeDecodeError>(
            (c, behind),
        ),
{
    let header = text_bytes(c.name) + seq![c.arity, c.register_count, c.capture_count];
    let b1 = list_bytes(c.constants, value_encoder());
    let b2 = list_bytes(c.strings, text_encoder());
    let b3 = list_bytes(c.instructions, instruction_encoder());
    let b4 = list_bytes(c.source_map, option_span_encoder());
    let b5 = list_bytes(c.debug_local_names, option_text_encoder());
    let r5 = b5 + behind;
    let r4 = b4 + r5;
    let r3 = b3 + r4;
    let r2 = b2 + r3;
    let r1 = b1 + r2;
    lemma_chunk_sizes(c);
    lemma_names(c.debug_local_names, behind);
    lemma_spans(c.source_map, r5);
    lemma_instructions(c.instructions, r4);
    lemma_texts(c.strings, r3);
    lemma_values(c.constants, r2);
    lemma_header(c.name, c.arity, c.register_count, c.capture_count, r1);
    assert(chunk_bytes(c) + behind == header + r1) by {
        reveal(chunk_bytes);
        lemma_six(header, b1, b2, b3, b4, b5, behind);
    }
    lemma_chunk_parts(c, header + r1, r1, r2, r3, r4, r5, behind);
}

/// Appending six parts in front of the rest, one after the other or all at once.
proof fn lemma_six(
    a: Seq<u8>,
    b: Seq<u8>,
    c: Seq<u8>,
    d: Seq<u8>,
    e: Seq<u8>,
    f: Seq<u8>,
    rest: Seq<u8>,
)
    ensures
        a + b + c + d + e + f + rest == a + (b + (c + (d + (e + (f + rest))))),
{
    broadcast use lemma_append_associative;

}

proof fn lemma_function(f: FunctionView, behind: Seq<u8>)
    requires
        oversized_function(f) is None,
        laid_out_function(f),
    ensures
        read_function(function_bytes(f) + behind) == Ok::<
            (FunctionView, Seq<u8>),
            BytecodeDecodeError,
        >((f, behind)),
{
    reveal(function_bytes);
    reveal(oversized_function);
    reveal(read_function);
    let header = text_bytes(f.name) + seq![f.arity, f.register_count, f.capture_count];
    match f.kind {
        FunctionKindView::Bytecode(c) => {
            let r2 = chunk_bytes(c) + behind;
            let r1 = seq![0u8] + r2;
            lemma_chunk(c, behind);
            lemma_byte(0, r2);
            lemma_header(f.name, f.arity, f.register_count, f.capture_count, r1);
            lemma_append_associative(header, seq![0u8] + chunk_bytes(c), behind);
            lemma_append_associative(seq![0u8], chunk_bytes(c), behind);
        },
        FunctionKindView::Native(name) => {
            let r2 = text_bytes(name) + behind;
            let r1 = seq![1u8] + r2;
            lemma_text(name, behind);
            lemma_byte(1, r2);
            lemma_header(f.name, f.arity, f.register_count, f.capture_count, r1);
            lemma_append_associative(header, seq![1u8] + text_bytes(name), behind);
            lemma_append_associative(seq![1u8], text_bytes(name), behind);
        },
    }
}

proof fn lemma_no_oversized_function(functions: Seq<FunctionView>, from: nat, index: nat)
    requires
        oversized_functions(functions, from) is None,
        from <= index < functions.len(),
    ensures
        oversized_function(functions[index as int]) is None,
    decreases index - from,
{
    if from < index {
        lemma_no_oversized_function(functions, from + 1, index);
    }
}

proof fn lemma_functions(functions: Seq<FunctionView>, held: nat, behind: Seq<u8>)
    requires
        held + functions.len() <= 0x1_0000,
        forall|i: int|
            0 <= i < functions.len() ==> oversized_function(#[trigger] functions[i]) is None
                && laid_out_function(functions[i]),
    ensures
        read_functions(functions.len(), held, concat(functions, function_encoder()) + behind)
            == Ok::<(Seq<FunctionView>, Seq<u8>), BytecodeDecodeError>((functions, behind)),
    decreases functions.len(),
{
    let all = concat(functions, function_encoder()) + behind;
    if functions.len() == 0 {
        assert(all =~= behind);
        assert(functions =~= Seq::empty());
    } else {
        let tail = functions.drop_first();
        let rest = concat(tail, function_encoder()) + behind;
        assert forall|i: int| 0 <= i < tail.len() implies oversized_function(#[trigger] tail[i]) is None
            && laid_out_function(tail[i]) by {
            assert(tail[i] == functions[i + 1]);
        }
        lemma_functions(tail, held + 1, behind);
        lemma_function(functions[0], rest);
        assert(all =~= function_bytes(functions[0]) + rest);
        assert(seq![functions[0]] + tail =~= functions);
    }
}

proof fn lemma_magic(magic: Seq<u8>, behind: Seq<u8>)
    ensures
        read_magic(magic, magic + behind) == Ok::<((), Seq<u8>), BytecodeDecodeError>(((), behind)),
{
    assert((magic + behind).take(magic.len() as int) =~= magic);
    assert((magic + behind).skip(magic.len() as int) =~= behind);
}

/// Encoding and parsing a program gives the program back, if it carries the magic text, its
/// parts are short enough to encode, its functions can be addressed, and its records have no
/// more fields than one byte can count.
pub proof fn encoded_program_parses_back(p: ProgramView)
    requires
        p.magic == BYTECODE_MAGIC@,
        oversized_program(p) is None,
        p.functions.len() <= 0x1_0000,
        forall|i: int| 0 <= i < p.functions.len() ==> laid_out_function(#[trigger] p.functions[i]),
    ensures
        parsed_program(program_bytes(p)) == Ok::<ProgramView, BytecodeDecodeError>(p),
{
    let none = Seq::<u8>::empty();
    let r6 = concat(p.functions, function_encoder()) + none;
    let r5 = length_bytes(p.functions.len()) + r6;
    let r4 = le_bytes(p.entry.0 as nat, 2) + r5;
    let r3 = le_bytes(p.feature_flags as nat, 4) + r4;
    let r2 = le_bytes(p.version as nat, 2) + r3;
    let r1 = le_bytes(FORMAT_VERSION as nat, 2) + r2;
    assert(program_bytes(p) == encode_utf8(BYTECODE_MAGIC@) + r1) by {
        reveal(list_bytes);
        assert(list_bytes(p.functions, function_encoder()) =~= r5);
        let head = encode_utf8(BYTECODE_MAGIC@) + le_bytes(FORMAT_VERSION as nat, 2);
        lemma_six(
            encode_utf8(BYTECODE_MAGIC@),
            le_bytes(FORMAT_VERSION as nat, 2),
            le_bytes(p.version as nat, 2),
            le_bytes(p.feature_flags as nat, 4),
            le_bytes(p.entry.0 as nat, 2),
            r5,
            none,
        );
        assert(r5 + none =~= r5);
        assert(program_bytes(p) + none =~= program_bytes(p));
    }
    assert forall|i: int| 0 <= i < p.functions.len() implies oversized_function(
        #[trigger] p.functions[i],
    ) is None && laid_out_function(p.functions[i]) by {
        lemma_no_oversized_function(p.functions, 0, i as nat);
    }
    lemma_byte_ranges();
    lemma_functions(p.functions, 0, none);
    lemma_number_round_trip(p.functions.len(), 4, r6);
    lemma_number_round_trip(p.entry.0 as nat, 2, r5);
    lemma_number_round_trip(p.feature_flags as nat, 4, r4);
    lemma_number_round_trip(p.version as nat, 2, r3);
    lemma_number_round_trip(FORMAT_VERSION as nat, 2, r2);
    lemma_magic(encode_utf8(BYTECODE_MAGIC@), r1);
}

proof fn lemma_valid_chunk_laid_out(chunk: Chunk)
    requires
        valid_chunk(chunk@),
    ensures
        laid_out_chunk(chunk@),
{
    let c = chunk@;
    assert forall|i: int| 0 <= i < c.instructions.len() implies well_laid_out(
        #[trigger] c.instructions[i],
    ) by {
        let instruction = chunk.instructions@[i];
        assert(c.instructions[i] == instruction@);
        valid_chunk_operands_in_bounds(c, i);
        if instruction is RecordNew {
            assert(instruction@.operands.len() == 3 + instruction->RecordNew_fields@.len());
        }
        lemma_well_laid_out(instruction);
    }
}

/// A valid program that can be encoded is decoded back: what a read gives is what was written.
pub proof fn encoded_program_decodes_back(program: Program)
    requires
        valid_program(program@),
        oversized_program(program@) is None,
    ensures
        decodes_to(program_bytes(program@), program@),
{
    let p = program@;
    assert forall|i: int| 0 <= i < p.functions.len() implies laid_out_function(
        #[trigger] p.functions[i],
    ) by {
        valid_program_functions_are_valid(p, i);
        let function = program.functions@[i];
        assert(p.functions[i] == function@);
        if let FunctionKind::Bytecode(chunk) = function.kind {
            lemma_valid_chunk_laid_out(chunk);
        }
    }
    encoded_program_parses_back(p);
}

/// Programs with the same encoding are the same.
pub proof fn program_encoding_is_injective(a: Program, b: Program)
    requires
        valid_program(a@),
        valid_program(b@),
        oversized_program(a@) is None,
        oversized_program(b@) is None,
        program_bytes(a@) == program_bytes(b@),
    ensures
        a@ == b@,
{
    encoded_program_decodes_back(a);
    encoded_program_decodes_back(b);
}

// ---------------------------------------------------------------------------
// Containers
// ---------------------------------------------------------------------------

proof fn lemma_metadata_tail(m: MetadataView, behind: Seq<u8>)
    ensures
        read_metadata_tail(metadata_tail_bytes(m) + behind) == Ok::<
            ((bool, u64, u8, bool, bool, bool), Seq<u8>),
            BytecodeDecodeError,
        >(
            (
                (
                    m.debug_section_present,
                    m.checksum,
                    m.optimization_level,
                    m.import_table_present,
                    m.export_table_present,
                    m.interface_metadata_present,
                ),
                behind,
            ),
        ),
{
    let r5 = flag_bytes(m.interface_metadata_present) + behind;
    let r4 = flag_bytes(m.export_table_present) + r5;
    let r3 = flag_bytes(m.import_table_present) + r4;
    let r2 = seq![m.optimization_level] + r3;
    let r1 = le_bytes(m.checksum as nat, 8) + r2;
    lemma_byte_ranges();
    lemma_flag(m.interface_metadata_present, behind);
    lemma_flag(m.export_table_present, r5);
    lemma_flag(m.import_table_present, r4);
    lemma_byte(m.optimization_level, r3);
    lemma_number_round_trip(m.checksum as nat, 8, r2);
    lemma_flag(m.debug_section_present, r1);
    assert(metadata_tail_bytes(m) + behind =~= flag_bytes(m.debug_section_present) + r1);
}

proof fn lemma_metadata_sizes(m: MetadataView)
    requires
        oversized_metadata(m) is None,
    ensures
        encode_utf8(m.min_ferrix_version).len() <= u32::MAX,
        m.required_capabilities.len() <= u32::MAX,
        forall|i: int|
            0 <= i < m.required_capabilities.len() ==> encode_utf8(
                #[trigger] m.required_capabilities[i],
            ).len() <= u32::MAX,
        m.module_name matches Some(name) ==> encode_utf8(name).len() <= u32::MAX,
{
    reveal(oversized_metadata);
    assert forall|i: int| 0 <= i < m.required_capabilities.len() implies encode_utf8(
        #[trigger] m.required_capabilities[i],
    ).len() <= u32::MAX by {
        assert(oversized_text("metadata.required_capability", m.required_capabilities[i]) is None);
    }
}

/// Reading the parts of the metadata one behind the other reads the metadata.
proof fn lemma_metadata_parts(
    m: MetadataView,
    r1: Seq<u8>,
    r2: Seq<u8>,
    r3: Seq<u8>,
    r4: Seq<u8>,
    r5: Seq<u8>,
    r6: Seq<u8>,
    r7: Seq<u8>,
    r8: Seq<u8>,
)
    requires
        read_number(2, r1) == Ok::<(nat, Seq<u8>), BytecodeDecodeError>(
            (m.bytecode_format_version as nat, r2),
        ),
        read_text(r2) == Ok::<(Seq<char>, Seq<u8>), BytecodeDecodeError>(
            (m.min_ferrix_version, r3),
        ),
        read_number(4, r3) == Ok::<(nat, Seq<u8>), BytecodeDecodeError>(
            (m.feature_flags as nat, r4),
        ),
        read_counted(r4, text_reader()) == Ok::<(Seq<Seq<char>>, Seq<u8>), BytecodeDecodeError>(
            (m.required_capabilities, r5),
        ),
        read_number(2, r5) == Ok::<(nat, Seq<u8>), BytecodeDecodeError>((m.entry.0 as nat, r6)),
        read_option_text(r6) == Ok::<(Option<Seq<char>>, Seq<u8>), BytecodeDecodeError>(
            (m.module_name, r7),
        ),
        read_metadata_tail(r7) == Ok::<
            ((bool, u64, u8, bool, bool, bool), Seq<u8>),
            BytecodeDecodeError,
        >(
            (
                (
                    m.debug_section_present,
                    m.checksum,
                    m.optimization_level,
                    m.import_table_present,
                    m.export_table_present,
                    m.interface_metadata_present,
                ),
                r8,
            ),
        ),
    ensures
        read_metadata(r1) == Ok::<(MetadataView, Seq<u8>), BytecodeDecodeError>((m, r8)),
{
    reveal(read_metadata);
}

proof fn lemma_metadata(m: MetadataView, behind: Seq<u8>)
    requires
        oversized_metadata(m) is None,
    ensures
        read_metadata(metadata_bytes(m) + behind) == Ok::<
            (MetadataView, Seq<u8>),
            BytecodeDecodeError,
        >((m, behind)),
{
    let b1 = le_bytes(m.bytecode_format_version as nat, 2);
    let b2 = text_bytes(m.min_ferrix_version);
    let b3 = le_bytes(m.feature_flags as nat, 4);
    let b4 = list_bytes(m.required_capabilities, text_encoder());
    let b5 = le_bytes(m.entry.0 as nat, 2);
    let b6 = option_text_bytes(m.module_name);
    let r7 = metadata_tail_bytes(m) + behind;
    let r6 = b6 + r7;
    let r5 = b5 + r6;
    let r4 = b4 + r5;
    let r3 = b3 + r4;
    let r2 = b2 + r3;
    lemma_byte_ranges();
    lemma_metadata_sizes(m);
    lemma_metadata_tail(m, behind);
    lemma_option_text(m.module_name, r7);
    lemma_number_round_trip(m.entry.0 as nat, 2, r6);
    lemma_texts(m.required_capabilities, r5);
    lemma_number_round_trip(m.feature_flags as nat, 4, r4);
    lemma_text(m.min_ferrix_version, r3);
    lemma_number_round_trip(m.bytecode_format_version as nat, 2, r2);
    assert(metadata_bytes(m) + behind == b1 + r2) by {
        reveal(metadata_bytes);
        lemma_append_associative(metadata_head_bytes(m), metadata_tail_bytes(m), behind);
        lemma_six(b1, b2, b3, b4, b5, b6, r7);
    }
    lemma_metadata_parts(m, b1 + r2, r2, r3, r4, r5, r6, r7, behind);
}

/// The section entry of the program in a container.
pub open spec fn payload_entry(p: ProgramView, m: MetadataView) -> BytecodeSectionEntry {
    BytecodeSectionEntry {
        kind: BytecodeSectionKind::ProgramPayload,
        offset: (container_bytes(p, m).len() - program_bytes(p).len()) as usize,
        len: program_bytes(p).len() as usize,
    }
}

/// The encoding of a container with the given program bytes.
pub open spec fn container_with(m: MetadataView, payload: Seq<u8>) -> Seq<u8> {
    encode_utf8(BYTECODE_CONTAINER_MAGIC@) + le_bytes(CURRENT_CONTAINER_VERSION as nat, 2)
        + metadata_bytes(m) + length_bytes(1) + seq![0u8] + length_bytes(payload.len()) + payload
}

/// The only section of a container with the given program bytes.
pub open spec fn only_section(m: MetadataView, payload: Seq<u8>) -> SectionView {
    SectionView {
        entry: BytecodeSectionEntry {
            kind: BytecodeSectionKind::ProgramPayload,
            offset: (container_with(m, payload).len() - payload.len()) as usize,
            len: payload.len() as usize,
        },
        payload,
    }
}

proof fn lemma_only_section(m: MetadataView, payload: Seq<u8>)
    requires
        payload.len() <= u32::MAX,
    ensures
        read_sections(
            1,
            container_with(m, payload).len(),
            seq![0u8] + (length_bytes(payload.len()) + payload),
        ) == Ok::<(Seq<SectionView>, Seq<u8>), BytecodeDecodeError>(
            (seq![only_section(m, payload)], Seq::empty()),
        ),
{
    let none = Seq::<u8>::empty();
    let total = container_with(m, payload).len();
    let section = only_section(m, payload);
    let r2 = length_bytes(payload.len()) + payload;
    lemma_byte_ranges();
    lemma_byte(0, r2);
    lemma_number_round_trip(payload.len(), 4, payload);
    assert(payload.take(payload.len() as int) =~= payload);
    assert(payload.skip(payload.len() as int) =~= none);
    assert(read_section(total, seq![0u8] + r2) == Ok::<(SectionView, Seq<u8>), BytecodeDecodeError>(
        (section, none),
    ));
    assert(read_sections(0, total, none) == Ok::<(Seq<SectionView>, Seq<u8>), BytecodeDecodeError>(
        (Seq::empty(), none),
    ));
    assert(seq![section] + Seq::<SectionView>::empty() =~= seq![section]);
}

pub(crate) proof fn lemma_container_reads(m: MetadataView, payload: Seq<u8>)
    requires
        oversized_metadata(m) is None,
        payload.len() <= u32::MAX,
    ensures
        read_container(container_with(m, payload)) == Ok::<
            ((MetadataView, Seq<SectionView>), Seq<u8>),
            BytecodeDecodeError,
        >(((m, seq![only_section(m, payload)]), Seq::empty())),
        program_payload(seq![only_section(m, payload)]) == Some(payload),
{
    let b0 = encode_utf8(BYTECODE_CONTAINER_MAGIC@);
    let b1 = le_bytes(CURRENT_CONTAINER_VERSION as nat, 2);
    let b2 = metadata_bytes(m);
    let r4 = length_bytes(payload.len()) + payload;
    let r3 = seq![0u8] + r4;
    let r2 = length_bytes(1) + r3;
    let r1 = b2 + r2;
    let r0 = b1 + r1;
    assert(container_with(m, payload) == b0 + r0) by {
        lemma_six(b0, b1, b2, length_bytes(1), seq![0u8], length_bytes(payload.len()), payload);
    }
    lemma_byte_ranges();
    lemma_magic(b0, r0);
    lemma_number_round_trip(CURRENT_CONTAINER_VERSION as nat, 2, r1);
    lemma_metadata(m, r2);
    lemma_number_round_trip(1, 4, r3);
    lemma_only_section(m, payload);
    assert(seq![only_section(m, payload)].last() == only_section(m, payload));
}

/// A container decodes back to the metadata that it records and the program that it holds, in
/// one section behind the metadata.
pub proof fn encoded_container_decodes_back(program: Program, given: Option<MetadataView>)
    requires
        valid_program(program@),
        oversized_container(program@, recorded_metadata(program@, given)) is None,
    ensures
        ({
            let m = recorded_metadata(program@, given);
            container_decodes_to(
                container_bytes(program@, m),
                m,
                seq![payload_entry(program@, m)],
                program@,
            )
        }),
{
    let p = program@;
    let m = recorded_metadata(p, given);
    let section = only_section(m, program_bytes(p));
    lemma_container_reads(m, program_bytes(p));
    assert(section_entries(seq![section]) =~= seq![payload_entry(p, m)]);
    encoded_program_decodes_back(program);
}

proof fn lemma_magics_differ(rest: Seq<u8>)
    ensures
        !is_container(encode_utf8(BYTECODE_MAGIC@) + rest),
{
    reveal_strlit("FERRIXBC");
    reveal_strlit("FERRIXCN");
    is_ascii_chars_encode_utf8(BYTECODE_MAGIC@);
    is_ascii_chars_encode_utf8(BYTECODE_CONTAINER_MAGIC@);
    let plain = encode_utf8(BYTECODE_MAGIC@);
    let magic = encode_utf8(BYTECODE_CONTAINER_MAGIC@);
    assert(plain[6] == 'B' as u8);
    assert(magic[6] == 'C' as u8);
    if magic.is_prefix_of(plain + rest) {
        assert((plain + rest).subrange(0, magic.len() as int)[6] == plain[6]);
    }
}

/// A plain encoding is not taken for a container and a container is: `decode_bytecode` reads
/// both back.
pub proof fn encodings_are_told_apart(p: ProgramView, m: MetadataView)
    ensures
        !is_container(program_bytes(p)),
        is_container(container_bytes(p, m)),
{
    let magic = encode_utf8(BYTECODE_MAGIC@);
    let rest = program_bytes(p).skip(magic.len() as int);
    assert(program_bytes(p) =~= magic + rest);
    lemma_magics_differ(rest);
    let container_magic = encode_utf8(BYTECODE_CONTAINER_MAGIC@);
    let bytes = container_bytes(p, m);
    assert(bytes.subrange(0, container_magic.len() as int) =~= container_magic);
}

} // verus!
