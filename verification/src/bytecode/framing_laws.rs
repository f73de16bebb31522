//! What decoding says of bytes that were cut short, extended or damaged.

use vstd::arithmetic::div_mod::{
    lemma_mod_multiples_vanish, lemma_mul_mod_noop_left, lemma_small_mod,
};
use vstd::prelude::*;
use vstd::utf8::encode_utf8;

use crate::bytecode::decoding::{
    instruction_reader, operand_width, option_span_reader, option_text_reader, parsed_program,
    read_byte, read_chunk, read_counted, read_flag, read_function, read_functions, read_header,
    read_instruction, read_magic, read_offset, read_operand, read_operands, read_option_span,
    read_option_text, read_program_header, read_text, read_value, text_kinds, text_reader,
    value_reader,
};
use crate::bytecode::encoding::{instruction_bytes, oversized_program, program_bytes};
use crate::bytecode::format::BYTECODE_MAGIC;
use crate::bytecode::instruction::{Instruction, InstructionView, OP_RECORD_NEW};
use crate::bytecode::layout::{layout, lemma_well_laid_out, OperandKind};
use crate::bytecode::program::{Program, ProgramView};
use crate::bytecode::round_trip::{
    container_with, encoded_program_decodes_back, lemma_container_reads, lemma_instruction,
};
use crate::bytecode::serialization::{
    container_bytes, container_fails_with, decode_fails_with, fnv1a, oversized_container,
    recorded_metadata, MetadataView,
};
use crate::bytecode::verification::valid_program;
use crate::bytecode::wire::{
    read_bytes, read_list, read_number, BytecodeDecodeError, Parse,
};

verus! {

// ---------------------------------------------------------------------------
// Bytes that were cut short
// ---------------------------------------------------------------------------

/// How reading the front of some bytes and reading all of them agree, where `more` are the bytes
/// behind the front: unless the front ends too early, the same is read, and `more` is left over.
pub open spec fn agrees<A>(front: Parse<A>, whole: Parse<A>, more: Seq<u8>) -> bool {
    match front {
        Ok((item, rest)) => whole == Ok::<(A, Seq<u8>), BytecodeDecodeError>((item, rest + more)),
        Err(error) => error is UnexpectedEof || whole == Err::<(A, Seq<u8>), BytecodeDecodeError>(
            error,
        ),
    }
}

/// A reader agrees on every front.
pub open spec fn agrees_always<A>(read: spec_fn(Seq<u8>) -> Parse<A>) -> bool {
    forall|front: Seq<u8>, more: Seq<u8>|
        agrees(#[trigger] read(front), #[trigger] read(front + more), more)
}

proof fn lemma_bytes_agree(n: nat, front: Seq<u8>, more: Seq<u8>)
    ensures
        agrees(read_bytes(n, front), read_bytes(n, front + more), more),
{
    if n <= front.len() {
        assert((front + more).take(n as int) =~= front.take(n as int));
        assert((front + more).skip(n as int) =~= front.skip(n as int) + more);
    }
}

proof fn lemma_number_agrees(width: nat, front: Seq<u8>, more: Seq<u8>)
    ensures
        agrees(read_number(width, front), read_number(width, front + more), more),
{
    lemma_bytes_agree(width, front, more);
}

proof fn lemma_byte_agrees(front: Seq<u8>, more: Seq<u8>)
    ensures
        agrees(read_byte(front), read_byte(front + more), more),
{
    lemma_number_agrees(1, front, more);
}

proof fn lemma_flag_agrees(front: Seq<u8>, more: Seq<u8>)
    ensures
        agrees(read_flag(front), read_flag(front + more), more),
{
    lemma_byte_agrees(front, more);
}

proof fn lemma_text_agrees(front: Seq<u8>, more: Seq<u8>)
    ensures
        agrees(read_text(front), read_text(front + more), more),
{
    lemma_number_agrees(4, front, more);
    if let Ok((len, rest)) = read_number(4, front) {
        lemma_bytes_agree(len, rest, more);
    }
}

proof fn lemma_option_text_agrees(front: Seq<u8>, more: Seq<u8>)
    ensures
        agrees(read_option_text(front), read_option_text(front + more), more),
{
    lemma_byte_agrees(front, more);
    if let Ok((_, rest)) = read_byte(front) {
        lemma_text_agrees(rest, more);
    }
}

proof fn lemma_value_agrees(front: Seq<u8>, more: Seq<u8>)
    ensures
        agrees(read_value(front), read_value(front + more), more),
{
    lemma_byte_agrees(front, more);
    if let Ok((_, rest)) = read_byte(front) {
        lemma_flag_agrees(rest, more);
        lemma_number_agrees(8, rest, more);
        lemma_number_agrees(4, rest, more);
        if let Ok((_, rest)) = read_number(4, rest) {
            lemma_number_agrees(4, rest, more);
        }
    }
}

proof fn lemma_offset_agrees(field: &'static str, front: Seq<u8>, more: Seq<u8>)
    ensures
        agrees(read_offset(field, front), read_offset(field, front + more), more),
{
    lemma_number_agrees(8, front, more);
}

proof fn lemma_option_span_agrees(front: Seq<u8>, more: Seq<u8>)
    ensures
        agrees(read_option_span(front), read_option_span(front + more), more),
{
    lemma_byte_agrees(front, more);
    if let Ok((_, rest)) = read_byte(front) {
        lemma_number_agrees(4, rest, more);
        if let Ok((_, rest)) = read_number(4, rest) {
            lemma_offset_agrees("span.start", rest, more);
            if let Ok((_, rest)) = read_offset("span.start", rest) {
                lemma_offset_agrees("span.end", rest, more);
            }
        }
    }
}

proof fn lemma_operands_agree(kinds: Seq<OperandKind>, front: Seq<u8>, more: Seq<u8>)
    ensures
        agrees(read_operands(kinds, front), read_operands(kinds, front + more), more),
    decreases kinds.len(),
{
    if kinds.len() > 0 {
        lemma_number_agrees(operand_width(kinds[0]), front, more);
        if let Ok((_, rest)) = read_operand(kinds[0], front) {
            lemma_operands_agree(kinds.drop_first(), rest, more);
        }
    }
}

proof fn lemma_instruction_agrees(front: Seq<u8>, more: Seq<u8>)
    ensures
        agrees(read_instruction(front), read_instruction(front + more), more),
{
    lemma_byte_agrees(front, more);
    if let Ok((opcode, rest)) = read_byte(front) {
        if let Some(kinds) = layout(opcode) {
            lemma_operands_agree(kinds, rest, more);
            if let Ok((operands, rest)) = read_operands(kinds, rest) {
                if opcode == OP_RECORD_NEW {
                    lemma_operands_agree(
                        text_kinds(operands[2]->Count_0 as nat),
                        rest,
                        more,
                    );
                }
            }
        }
    }
}

proof fn lemma_list_agrees<A>(
    n: nat,
    read_item: spec_fn(Seq<u8>) -> Parse<A>,
    front: Seq<u8>,
    more: Seq<u8>,
)
    requires
        agrees_always(read_item),
    ensures
        agrees(read_list(n, front, read_item), read_list(n, front + more, read_item), more),
    decreases n,
{
    if n > 0 {
        assert(agrees(read_item(front), read_item(front + more), more));
        if let Ok((_, rest)) = read_item(front) {
            lemma_list_agrees((n - 1) as nat, read_item, rest, more);
        }
    }
}

proof fn lemma_counted_agrees<A>(
    read_item: spec_fn(Seq<u8>) -> Parse<A>,
    front: Seq<u8>,
    more: Seq<u8>,
)
    requires
        agrees_always(read_item),
    ensures
        agrees(read_counted(front, read_item), read_counted(front + more, read_item), more),
{
    reveal(read_counted);
    lemma_number_agrees(4, front, more);
    if let Ok((n, rest)) = read_number(4, front) {
        lemma_list_agrees(n, read_item, rest, more);
    }
}

proof fn lemma_readers_agree()
    ensures
        agrees_always(value_reader()),
        agrees_always(text_reader()),
        agrees_always(instruction_reader()),
        agrees_always(option_span_reader()),
        agrees_always(option_text_reader()),
{
    assert forall|front: Seq<u8>, more: Seq<u8>|
        agrees(
            #[trigger] value_reader()(front),
            #[trigger] value_reader()(front + more),
            more,
        ) by {
        lemma_value_agrees(front, more);
    }
    assert forall|front: Seq<u8>, more: Seq<u8>|
        agrees(#[trigger] text_reader()(front), #[trigger] text_reader()(front + more), more) by {
        lemma_text_agrees(front, more);
    }
    assert forall|front: Seq<u8>, more: Seq<u8>|
        agrees(
            #[trigger] instruction_reader()(front),
            #[trigger] instruction_reader()(front + more),
            more,
        ) by {
        lemma_instruction_agrees(front, more);
    }
    assert forall|front: Seq<u8>, more: Seq<u8>|
        agrees(
            #[trigger] option_span_reader()(front),
            #[trigger] option_span_reader()(front + more),
            more,
        ) by {
        lemma_option_span_agrees(front, more);
    }
    assert forall|front: Seq<u8>, more: Seq<u8>|
        agrees(
            #[trigger] option_text_reader()(front),
            #[trigger] option_text_reader()(front + more),
            more,
        ) by {
        lemma_option_text_agrees(front, more);
    }
}

proof fn lemma_header_agrees(front: Seq<u8>, more: Seq<u8>)
    ensures
        agrees(read_header(front), read_header(front + more), more),
{
    lemma_text_agrees(front, more);
    if let Ok((_, r1)) = read_text(front) {
        lemma_byte_agrees(r1, more);
        if let Ok((_, r2)) = read_byte(r1) {
            lemma_byte_agrees(r2, more);
            if let Ok((_, r3)) = read_byte(r2) {
                lemma_byte_agrees(r3, more);
            }
        }
    }
}

proof fn lemma_chunk_agrees(front: Seq<u8>, more: Seq<u8>)
    ensures
        agrees(read_chunk(front), read_chunk(front + more), more),
{
    reveal(read_chunk);
    lemma_readers_agree();
    lemma_header_agrees(front, more);
    if let Ok((_, r1)) = read_header(front) {
        lemma_counted_agrees(value_reader(), r1, more);
        if let Ok((_, r2)) = read_counted(r1, value_reader()) {
            lemma_counted_agrees(text_reader(), r2, more);
            if let Ok((_, r3)) = read_counted(r2, text_reader()) {
                lemma_counted_agrees(instruction_reader(), r3, more);
                if let Ok((_, r4)) = read_counted(r3, instruction_reader()) {
                    lemma_counted_agrees(option_span_reader(), r4, more);
                    if let Ok((_, r5)) = read_counted(r4, option_span_reader()) {
                        lemma_counted_agrees(option_text_reader(), r5, more);
                    }
                }
            }
        }
    }
}

proof fn lemma_function_agrees(front: Seq<u8>, more: Seq<u8>)
    ensures
        agrees(read_function(front), read_function(front + more), more),
{
    reveal(read_function);
    lemma_header_agrees(front, more);
    if let Ok((_, r1)) = read_header(front) {
        lemma_byte_agrees(r1, more);
        if let Ok((_, r2)) = read_byte(r1) {
            lemma_chunk_agrees(r2, more);
            lemma_text_agrees(r2, more);
        }
    }
}

proof fn lemma_functions_agree(n: nat, held: nat, front: Seq<u8>, more: Seq<u8>)
    ensures
        agrees(read_functions(n, held, front), read_functions(n, held, front + more), more),
    decreases n,
{
    if n > 0 {
        lemma_function_agrees(front, more);
        if let Ok((_, rest)) = read_function(front) {
            lemma_functions_agree((n - 1) as nat, held + 1, rest, more);
        }
    }
}

proof fn lemma_program_header_agrees(front: Seq<u8>, more: Seq<u8>)
    ensures
        agrees(read_program_header(front), read_program_header(front + more), more),
{
    let magic = encode_utf8(BYTECODE_MAGIC@);
    lemma_bytes_agree(magic.len(), front, more);
    if let Ok((_, r1)) = read_magic(magic, front) {
        lemma_number_agrees(2, r1, more);
        if let Ok((_, r2)) = read_number(2, r1) {
            lemma_number_agrees(2, r2, more);
            if let Ok((_, r3)) = read_number(2, r2) {
                lemma_number_agrees(4, r3, more);
                if let Ok((_, r4)) = read_number(4, r3) {
                    lemma_number_agrees(2, r4, more);
                    if let Ok((_, r5)) = read_number(2, r4) {
                        lemma_number_agrees(4, r5, more);
                    }
                }
            }
        }
    }
}

/// An encoded instruction is read back, whatever bytes stand behind it, and those are left over.
/// Without its last bytes it ends too early. A record has no more fields than one byte counts.
pub proof fn encoded_instruction_decodes_back(
    instruction: Instruction,
    behind: Seq<u8>,
    n: int,
)
    requires
        instruction is RecordNew ==> instruction->RecordNew_fields@.len() < 256,
        0 <= n < instruction_bytes(instruction@).len(),
    ensures
        read_instruction(instruction_bytes(instruction@) + behind) == Ok::<
            (InstructionView, Seq<u8>),
            BytecodeDecodeError,
        >((instruction@, behind)),
        read_instruction(instruction_bytes(instruction@).take(n)) == Err::<
            (InstructionView, Seq<u8>),
            BytecodeDecodeError,
        >(BytecodeDecodeError::UnexpectedEof),
{
    let bytes = instruction_bytes(instruction@);
    let none = Seq::<u8>::empty();
    lemma_well_laid_out(instruction);
    lemma_instruction(instruction@, behind);
    lemma_instruction(instruction@, none);
    assert(bytes + none =~= bytes);
    assert(bytes.take(n) + bytes.skip(n) =~= bytes);
    lemma_instruction_agrees(bytes.take(n), bytes.skip(n));
    if let Ok((_, rest)) = read_instruction(bytes.take(n)) {
        assert((rest + bytes.skip(n)).len() > 0);
    }
}

/// An encoded program without its last bytes ends too early.
pub proof fn truncated_programs_end_too_early(program: Program, n: int)
    requires
        valid_program(program@),
        oversized_program(program@) is None,
        0 <= n < program_bytes(program@).len(),
    ensures
        parsed_program(program_bytes(program@).take(n)) == Err::<ProgramView, BytecodeDecodeError>(
            BytecodeDecodeError::UnexpectedEof,
        ),
        forall|error: BytecodeDecodeError|
            decode_fails_with(program_bytes(program@).take(n), error) ==> error
                == BytecodeDecodeError::UnexpectedEof,
{
    let bytes = program_bytes(program@);
    let front = bytes.take(n);
    let more = bytes.skip(n);
    encoded_program_decodes_back(program);
    assert(front + more =~= bytes);
    lemma_program_header_agrees(front, more);
    if let Ok(((_, _, _, count), rest)) = read_program_header(front) {
        lemma_functions_agree(count, 0, rest, more);
        if let Ok((_, rest)) = read_functions(count, 0, rest) {
            assert((rest + more).len() > 0);
        }
    }
}

/// Bytes behind an encoded program are counted and refused.
pub proof fn bytes_behind_a_program_are_refused(program: Program, extra: Seq<u8>)
    requires
        valid_program(program@),
        oversized_program(program@) is None,
        0 < extra.len() <= usize::MAX,
    ensures
        parsed_program(program_bytes(program@) + extra) matches Err(error) && error matches
            BytecodeDecodeError::TrailingBytes { count } && count == extra.len(),
{
    let bytes = program_bytes(program@);
    encoded_program_decodes_back(program);
    lemma_program_header_agrees(bytes, extra);
    let ((_, _, _, count), rest) = read_program_header(bytes)->Ok_0;
    lemma_functions_agree(count, 0, rest, extra);
    let (_, left) = read_functions(count, 0, rest)->Ok_0;
    assert(left + extra =~= extra);
}

// ---------------------------------------------------------------------------
// Bytes that were damaged
// ---------------------------------------------------------------------------

/// The factor of the hash has an inverse, so different numbers have different products.
proof fn lemma_factor_invertible(a: u64)
    ensures
        (a.wrapping_mul(0x100000001b3) * 0xce965057aff6957bint) % 0x1_0000_0000_0000_0000int
            == a as int,
{
    let m: int = 0x1_0000_0000_0000_0000;
    let product: int = a * 0x100000001b3;
    lemma_mul_mod_noop_left(product, 0xce965057aff6957b, m);
    assert(product * 0xce965057aff6957b == m * (a * 887285111055) + a);
    lemma_mod_multiples_vanish(a * 887285111055, a as int, m);
    lemma_small_mod(a as nat, m as nat);
}

/// Changing one byte changes the hash.
pub proof fn one_changed_byte_changes_the_checksum(bytes: Seq<u8>, i: int, byte: u8)
    requires
        0 <= i < bytes.len(),
        byte != bytes[i],
    ensures
        fnv1a(bytes.update(i, byte)) != fnv1a(bytes),
    decreases bytes.len(),
{
    let changed = bytes.update(i, byte);
    let h = fnv1a(bytes.drop_last());
    let k = fnv1a(changed.drop_last());
    let x = bytes.last() as u64;
    let y = changed.last() as u64;
    if i == bytes.len() - 1 {
        assert(changed.drop_last() =~= bytes.drop_last());
        assert(h ^ x != h ^ y) by (bit_vector)
            requires
                x != y,
        ;
    } else {
        one_changed_byte_changes_the_checksum(bytes.drop_last(), i, byte);
        assert(changed.drop_last() =~= bytes.drop_last().update(i, byte));
        assert(h ^ x != k ^ x) by (bit_vector)
            requires
                h != k,
        ;
    }
    lemma_factor_invertible(h ^ x);
    lemma_factor_invertible(k ^ y);
}

/// A container with one changed byte in its program is refused: the checksum that it records is
/// not that of the changed program. A recorded checksum of zero stands for none.
pub proof fn damaged_payloads_are_refused(
    program: Program,
    given: Option<MetadataView>,
    i: int,
    byte: u8,
)
    requires
        valid_program(program@),
        oversized_container(program@, recorded_metadata(program@, given)) is None,
        recorded_metadata(program@, given).checksum != 0,
        0 <= i < program_bytes(program@).len(),
        byte != program_bytes(program@)[i],
    ensures
        ({
            let m = recorded_metadata(program@, given);
            let payload = program_bytes(program@);
            let bytes = container_bytes(program@, m);
            let damaged = bytes.update(bytes.len() - payload.len() + i, byte);
            let error = BytecodeDecodeError::ChecksumMismatch {
                expected: fnv1a(payload),
                actual: fnv1a(payload.update(i, byte)),
            };
            &&& fnv1a(payload) != fnv1a(payload.update(i, byte))
            &&& container_fails_with(damaged, error)
            &&& forall|e: BytecodeDecodeError| container_fails_with(damaged, e) ==> e == error
        }),
{
    let m = recorded_metadata(program@, given);
    let payload = program_bytes(program@);
    let changed = payload.update(i, byte);
    let bytes = container_bytes(program@, m);
    let head = bytes.len() - payload.len();
    let damaged = bytes.update(head + i, byte);
    assert(damaged =~= container_with(m, changed));
    lemma_container_reads(m, changed);
    one_changed_byte_changes_the_checksum(payload, i, byte);
}

} // verus!
