//! What optimization preserves.

use vstd::prelude::*;

use crate::bytecode::chunk::{instruction_views, Chunk, ChunkView};
use crate::bytecode::instruction::{
    registers_in, texts_in, ConstId, FunctionId, Instruction, InstructionView, JumpTarget, Operand,
    Register, OP_CALL_FUNCTION, OP_MAKE_CLOSURE,
};
use crate::bytecode::optimizer::{
    after_passes, all_passes, body, chain_end, collapsed, compacted, count_true, fold_first,
    fold_result, fold_step, folded, kept, last_leaving, leaves_function, leaving_reached,
    lemma_count_true_bound, lemma_distinct_positions, lemma_fold_first_shape, lemma_kept_next,
    moved_instruction, moved_instructions, moved_target, needed_positions, negated, nothing_known,
    optimized, padded_source_map, reached, same_frame, shape, some_kept_from, specialized, targeted,
    with_target, without_redundant_moves, Body, FoldState, Pass, Shape,
};
use crate::bytecode::program::{FunctionKindView, FunctionView, ProgramView};
use crate::bytecode::verification::{
    first_function_error, first_instruction_error, first_invalid_register, first_reference_error,
    function_error, instruction_error, lemma_no_function_error, lemma_no_instruction_error,
    lemma_no_invalid_register, lemma_no_reference_error, reference_error, size_error, valid_chunk,
    valid_program,
};
use crate::value::Value;

verus! {

/// The content of a chunk with another body.
pub open spec fn with_body(frame: Chunk, b: Body) -> ChunkView {
    ChunkView {
        constants: b.constants,
        instructions: instruction_views(b.instructions),
        source_map: b.source_map,
        ..frame@
    }
}

/// Whether the sizes and every instruction of a chunk are in order; only a return may be
/// missing.
pub open spec fn sound(frame: Chunk, b: Body) -> bool {
    let c = with_body(frame, b);
    &&& size_error(c) is None
    &&& forall|i: int|
        0 <= i < b.instructions.len() ==> instruction_error(c, (#[trigger] b.instructions[i])@)
            is None
}

proof fn lemma_errors_from(c: ChunkView, from: nat)
    requires
        forall|i: int|
            from <= i < c.instructions.len() ==> instruction_error(c, #[trigger] c.instructions[i])
                is None,
    ensures
        first_instruction_error(c, from) is None,
    decreases c.instructions.len() - from,
{
    if from < c.instructions.len() {
        lemma_errors_from(c, from + 1);
    }
}

pub(crate) proof fn lemma_sound(frame: Chunk, b: Body)
    ensures
        sound(frame, b) <==> size_error(with_body(frame, b)) is None && first_instruction_error(
            with_body(frame, b),
            0,
        ) is None,
{
    let c = with_body(frame, b);
    if sound(frame, b) {
        assert forall|i: int| 0 <= i < c.instructions.len() implies instruction_error(
            c,
            #[trigger] c.instructions[i],
        ) is None by {
            assert(c.instructions[i] == b.instructions[i]@);
        }
        lemma_errors_from(c, 0);
    }
    if size_error(c) is None && first_instruction_error(c, 0) is None {
        assert forall|i: int| 0 <= i < b.instructions.len() implies instruction_error(
            c,
            (#[trigger] b.instructions[i])@,
        ) is None by {
            lemma_no_instruction_error(c, 0, i as nat);
            assert(c.instructions[i] == b.instructions[i]@);
        }
    }
}

// ---------------------------------------------------------------------------
// Folding
// ---------------------------------------------------------------------------

/// More constants break no instruction.
proof fn lemma_more_constants(frame: Chunk, b: Body, constants: Seq<Value>, v: InstructionView)
    requires
        b.constants.len() <= constants.len(),
        instruction_error(with_body(frame, b), v) is None,
    ensures
        instruction_error(with_body(frame, Body { constants, ..b }), v) is None,
{
    assert(instruction_views(b.instructions).len() == b.instructions.len());
}

proof fn lemma_load_is_sound(frame: Chunk, b: Body, dst: Register, constant: ConstId)
    requires
        dst.0 < frame.register_count,
        constant.0 < b.constants.len(),
    ensures
        instruction_error(with_body(frame, b), (Instruction::LoadConst { dst, constant })@) is None,
{
    reveal_with_fuel(registers_in, 3);
    reveal_with_fuel(texts_in, 3);
    reveal_with_fuel(first_invalid_register, 3);
    let v = (Instruction::LoadConst { dst, constant })@;
    assert(v.registers() =~= seq![dst]);
    assert(v.texts() =~= Seq::empty());
}

proof fn lemma_result_register(frame: Chunk, b: Body, instruction: Instruction, dst: Register)
    requires
        instruction_error(with_body(frame, b), instruction@) is None,
        match shape(instruction) {
            Shape::Binary { dst: d, .. } => d == dst,
            Shape::Negate { dst: d, .. } => d == dst,
            _ => false,
        },
    ensures
        dst.0 < frame.register_count,
{
    reveal_with_fuel(registers_in, 4);
    let registers = instruction@.registers();
    assert(registers.len() > 0 && registers[0] == dst);
    lemma_no_invalid_register(registers, 0, frame.register_count, 0);
}

proof fn lemma_fold_first_sound(frame: Chunk, b: Body, n: nat)
    requires
        sound(frame, b),
        n <= b.instructions.len(),
    ensures
        ({
            let s = fold_first(b, frame.register_count as nat, n);
            &&& b.constants.len() <= s.constants.len() <= 0x1_0000
            &&& b.constants == s.constants.take(b.constants.len() as int)
            &&& s.instructions.len() == n
            &&& forall|i: int|
                0 <= i < n ==> instruction_error(
                    with_body(frame, Body { constants: s.constants, ..b }),
                    (#[trigger] s.instructions[i])@,
                ) is None
        }),
    decreases n,
{
    let count = frame.register_count as nat;
    let s = fold_first(b, count, n);
    lemma_fold_first_shape(b, count, n);
    if n == 0 {
        assert(b.constants =~= b.constants.take(b.constants.len() as int));
    } else {
        let before = fold_first(b, count, (n - 1) as nat);
        let instruction = b.instructions[n - 1];
        lemma_fold_first_sound(frame, b, (n - 1) as nat);
        let old_body = Body { constants: before.constants, ..b };
        let new_body = Body { constants: s.constants, ..b };
        assert(instruction_error(with_body(frame, b), instruction@) is None);
        lemma_more_constants(frame, b, s.constants, instruction@);
        assert(before.constants.len() <= s.constants.len());
        assert(b.constants =~= s.constants.take(b.constants.len() as int));
        assert forall|i: int| 0 <= i < n implies instruction_error(
            with_body(frame, new_body),
            (#[trigger] s.instructions[i])@,
        ) is None by {
            if i < n - 1 {
                assert(s.instructions[i] == before.instructions[i]);
                lemma_more_constants(frame, old_body, s.constants, before.instructions[i]@);
                assert(Body { constants: s.constants, ..old_body } == new_body);
            } else if s.instructions[i] != instruction {
                match shape(instruction) {
                    Shape::Binary { dst, .. } => {
                        lemma_result_register(frame, b, instruction, dst);
                        lemma_load_is_sound(
                            frame,
                            new_body,
                            dst,
                            ConstId(before.constants.len() as u16),
                        );
                    },
                    Shape::Negate { dst, .. } => {
                        lemma_result_register(frame, b, instruction, dst);
                        lemma_load_is_sound(
                            frame,
                            new_body,
                            dst,
                            ConstId(before.constants.len() as u16),
                        );
                    },
                    _ => {},
                }
            }
        }
    }
}

proof fn lemma_folded_sound(frame: Chunk, b: Body)
    requires
        sound(frame, b),
    ensures
        sound(frame, folded(b, frame.register_count as nat)),
        b.constants.is_prefix_of(folded(b, frame.register_count as nat).constants),
{
    let count = frame.register_count as nat;
    let out = folded(b, count);
    let s = fold_first(b, count, b.instructions.len());
    lemma_fold_first_sound(frame, b, b.instructions.len());
    let c = with_body(frame, out);
    assert forall|i: int| 0 <= i < out.instructions.len() implies instruction_error(
        c,
        (#[trigger] out.instructions[i])@,
    ) is None by {
        let other = with_body(frame, Body { constants: s.constants, ..b });
        assert(instruction_error(other, s.instructions[i]@) is None);
        assert(other.instructions.len() == c.instructions.len());
    }
    assert(s.constants.subrange(0, b.constants.len() as int) =~= s.constants.take(
        b.constants.len() as int,
    ));
}

// ---------------------------------------------------------------------------
// Specialization and jump chains
// ---------------------------------------------------------------------------

proof fn lemma_specialized_sound(frame: Chunk, b: Body)
    requires
        sound(frame, b),
    ensures
        sound(frame, specialized(b)),
{
    let out = specialized(b);
    let c = with_body(frame, b);
    let d = with_body(frame, out);
    assert forall|i: int| 0 <= i < out.instructions.len() implies instruction_error(
        d,
        (#[trigger] out.instructions[i])@,
    ) is None by {
        let before = b.instructions[i];
        assert(instruction_error(c, before@) is None);
        assert(out.instructions[i]@.operands == before@.operands);
        assert(d.instructions.len() == c.instructions.len());
    }
}

/// A jump with another target inside the instructions is as sound as before.
proof fn lemma_retarget_sound(
    c: ChunkView,
    d: ChunkView,
    instruction: Instruction,
    target: JumpTarget,
)
    requires
        instruction_error(c, instruction@) is None,
        instruction@.target() is Some,
        target.0 < d.instructions.len(),
        d.register_count == c.register_count,
        d.constants.len() == c.constants.len(),
        d.strings.len() == c.strings.len(),
        d.capture_count == c.capture_count,
    ensures
        instruction_error(d, with_target(instruction, target)@) is None,
{
    reveal_with_fuel(registers_in, 3);
    reveal_with_fuel(texts_in, 3);
    let old_view = instruction@;
    let new_view = with_target(instruction, target)@;
    match instruction {
        Instruction::RecordNew { dst, fields_start, fields } => {
            assert(fields@.len() > 0 ==> old_view.operands.last() == Operand::Text(fields@.last()));
            assert(false);
        },
        _ => {},
    }
    assert(new_view.registers() =~= old_view.registers());
    assert(new_view.texts() =~= old_view.texts());
    assert(new_view.target() == Some(target));
}

proof fn lemma_chain_end_in_range(
    instructions: Seq<Instruction>,
    target: JumpTarget,
    visited: Seq<JumpTarget>,
)
    requires
        target.0 < instructions.len(),
        forall|i: int|
            0 <= i < instructions.len() ==> ((#[trigger] instructions[i])@.target() matches Some(t)
                ==> t.0 < instructions.len()),
    ensures
        chain_end(instructions, target, visited).0 < instructions.len(),
    decreases instructions.len() + 1 - visited.len(),
{
    if !visited.contains(target) && visited.len() <= instructions.len() {
        if let Instruction::Jump { target: next } = instructions[target.0 as int] {
            assert(instructions[target.0 as int]@.target() == Some(next));
            lemma_chain_end_in_range(instructions, next, visited.push(target));
        }
    }
}

pub(crate) proof fn lemma_targets_in_range(frame: Chunk, b: Body)
    requires
        sound(frame, b),
    ensures
        forall|i: int|
            0 <= i < b.instructions.len() ==> ((#[trigger] b.instructions[i])@.target() matches Some(
                t,
            ) ==> t.0 < b.instructions.len()),
{
    let c = with_body(frame, b);
    assert forall|i: int| 0 <= i < b.instructions.len() implies ((
    #[trigger] b.instructions[i])@.target() matches Some(t) ==> t.0 < b.instructions.len()) by {
        assert(instruction_error(c, b.instructions[i]@) is None);
        assert(c.instructions.len() == b.instructions.len());
    }
}

proof fn lemma_collapsed_sound(frame: Chunk, b: Body)
    requires
        sound(frame, b),
    ensures
        sound(frame, collapsed(b)),
{
    let out = collapsed(b);
    let c = with_body(frame, b);
    let d = with_body(frame, out);
    lemma_targets_in_range(frame, b);
    assert forall|i: int| 0 <= i < out.instructions.len() implies instruction_error(
        d,
        (#[trigger] out.instructions[i])@,
    ) is None by {
        let before = b.instructions[i];
        assert(instruction_error(c, before@) is None);
        assert(d.instructions.len() == c.instructions.len());
        if let Some(target) = before@.target() {
            lemma_chain_end_in_range(b.instructions, target, Seq::empty());
            lemma_retarget_sound(
                c,
                d,
                before,
                chain_end(b.instructions, target, Seq::empty()),
            );
        }
    }
}

// ---------------------------------------------------------------------------
// Compaction
// ---------------------------------------------------------------------------

pub(crate) proof fn lemma_kept_comes_from<A>(items: Seq<A>, keep: Seq<bool>)
    requires
        items.len() == keep.len(),
    ensures
        kept(items, keep).len() == count_true(keep),
        forall|i: int|
            0 <= i < kept(items, keep).len() ==> exists|j: int|
                0 <= j < items.len() && keep[j] && items[j] == #[trigger] kept(items, keep)[i],
    decreases keep.len(),
{
    if keep.len() > 0 {
        let front = kept(items.drop_last(), keep.drop_last());
        lemma_kept_comes_from(items.drop_last(), keep.drop_last());
        assert forall|i: int| 0 <= i < kept(items, keep).len() implies exists|j: int|
            0 <= j < items.len() && keep[j] && items[j] == #[trigger] kept(items, keep)[i] by {
            if i < front.len() {
                assert(front[i] == kept(items, keep)[i]);
                let j = choose|j: int|
                    0 <= j < items.drop_last().len() && keep.drop_last()[j] && items.drop_last()[j]
                        == front[i];
                assert(keep[j] && items[j] == kept(items, keep)[i]);
            } else {
                let j = items.len() - 1;
                assert(keep[j] && items[j] == kept(items, keep)[i]);
            }
        }
    }
}

proof fn lemma_count_true_grows(keep: Seq<bool>, a: int, b: int)
    requires
        0 <= a <= b <= keep.len(),
    ensures
        count_true(keep.take(a)) <= count_true(keep.take(b)),
    decreases b - a,
{
    if a < b {
        lemma_count_true_grows(keep, a, b - 1);
        lemma_kept_next(keep, keep, b - 1);
    }
}

/// Removing positions that no jump goes to leaves the rest sound.
proof fn lemma_compacted_sound(frame: Chunk, b: Body, keep: Seq<bool>)
    requires
        sound(frame, b),
        keep.len() == b.instructions.len(),
        forall|i: int| 0 <= i < keep.len() && #[trigger] targeted(b.instructions, i) ==> keep[i],
    ensures
        sound(frame, compacted(b, keep)),
{
    let out = compacted(b, keep);
    if count_true(keep) != keep.len() {
        let c = with_body(frame, b);
        let d = with_body(frame, out);
        let moved = moved_instructions(keep, b.instructions);
        let spans = padded_source_map(b.source_map, keep.len());
        lemma_kept_comes_from(moved, keep);
        lemma_kept_comes_from(spans, keep);
        lemma_count_true_bound(keep);
        lemma_targets_in_range(frame, b);
        assert(d.instructions.len() == count_true(keep));
        assert forall|i: int| 0 <= i < out.instructions.len() implies instruction_error(
            d,
            (#[trigger] out.instructions[i])@,
        ) is None by {
            let j = choose|j: int|
                0 <= j < moved.len() && keep[j] && moved[j] == kept(moved, keep)[i];
            let before = b.instructions[j];
            assert(instruction_error(c, before@) is None);
            assert(c.instructions.len() == b.instructions.len());
            assert(out.instructions[i] == moved_instruction(keep, before));
            if let Some(target) = before@.target() {
                let t = target.0 as int;
                assert(t < keep.len());
                assert(targeted(b.instructions, t));
                assert(keep[t]);
                assert(some_kept_from(keep, t));
                lemma_kept_next(keep, keep, t);
                lemma_count_true_grows(keep, t + 1, keep.len() as int);
                assert(keep.take(keep.len() as int) =~= keep);
                lemma_count_true_bound(keep.take(t));
                lemma_retarget_sound(c, d, before, moved_target(keep, target));
            }
        }
    }
}

pub(crate) proof fn lemma_pass_sound(frame: Chunk, b: Body, pass: Pass)
    requires
        sound(frame, b),
    ensures
        sound(frame, pass.after(b, frame.register_count as nat)),
        b.constants.is_prefix_of(pass.after(b, frame.register_count as nat).constants),
{
    assert(b.constants.subrange(0, b.constants.len() as int) =~= b.constants);
    match pass {
        Pass::FoldConstants => lemma_folded_sound(frame, b),
        Pass::SpecializeIntegers => lemma_specialized_sound(frame, b),
        Pass::CollapseJumpChains => lemma_collapsed_sound(frame, b),
        Pass::CollapseJumpChainsAgain => lemma_collapsed_sound(frame, b),
        Pass::RemoveRedundantMoves => {
            lemma_compacted_sound(frame, b, without_redundant_moves(b.instructions));
        },
        Pass::RemoveUnreachable => {
            lemma_compacted_sound(frame, b, needed_positions(b.instructions));
        },
    }
}

pub(crate) proof fn lemma_passes_sound(frame: Chunk, b: Body, n: nat)
    requires
        sound(frame, b),
        n <= all_passes().len(),
    ensures
        sound(frame, after_passes(b, frame.register_count as nat, n)),
        b.constants.is_prefix_of(after_passes(b, frame.register_count as nat, n).constants),
    decreases n,
{
    let count = frame.register_count as nat;
    if n == 0 {
        assert(b.constants.subrange(0, b.constants.len() as int) =~= b.constants);
    } else {
        lemma_passes_sound(frame, b, (n - 1) as nat);
        let before = after_passes(b, count, (n - 1) as nat);
        let after = after_passes(b, count, n);
        lemma_pass_sound(frame, before, all_passes()[n - 1]);
        assert(after.constants.subrange(0, b.constants.len() as int) =~= before.constants.subrange(
            0,
            b.constants.len() as int,
        )) by {
            assert(before.constants == after.constants.subrange(0, before.constants.len() as int));
        }
    }
}

// ---------------------------------------------------------------------------
// Leaving the function
// ---------------------------------------------------------------------------

/// Some instruction leaves the function.
pub open spec fn leaves_somewhere(instructions: Seq<Instruction>) -> bool {
    exists|i: int| 0 <= i < instructions.len() && leaves_function(#[trigger] instructions[i])
}

pub(crate) proof fn lemma_last_leaving(instructions: Seq<Instruction>, n: nat)
    requires
        n <= instructions.len(),
    ensures
        -1 <= last_leaving(instructions, n) < n,
        last_leaving(instructions, n) >= 0 ==> leaves_function(
            instructions[last_leaving(instructions, n)],
        ),
        forall|i: int|
            0 <= i < n && leaves_function(#[trigger] instructions[i]) ==> i <= last_leaving(
                instructions,
                n,
            ),
    decreases n,
{
    if n > 0 {
        lemma_last_leaving(instructions, (n - 1) as nat);
    }
}

proof fn lemma_kept_holds<A>(items: Seq<A>, keep: Seq<bool>, j: int)
    requires
        items.len() == keep.len(),
        0 <= j < keep.len(),
        keep[j],
    ensures
        exists|i: int| 0 <= i < kept(items, keep).len() && #[trigger] kept(items, keep)[i] == items[j],
    decreases keep.len(),
{
    let front = kept(items.drop_last(), keep.drop_last());
    if j == keep.len() - 1 {
        assert(kept(items, keep)[front.len() as int] == items[j]);
    } else {
        lemma_kept_holds(items.drop_last(), keep.drop_last(), j);
        let i = choose|i: int| 0 <= i < front.len() && #[trigger] front[i] == items.drop_last()[j];
        assert(kept(items, keep)[i] == items[j]);
    }
}

proof fn lemma_compacted_leaves(b: Body, keep: Seq<bool>, j: int)
    requires
        keep.len() == b.instructions.len(),
        0 <= j < keep.len(),
        keep[j],
        leaves_function(b.instructions[j]),
    ensures
        leaves_somewhere(compacted(b, keep).instructions),
{
    if count_true(keep) == keep.len() {
        assert(leaves_function(b.instructions[j]));
    } else {
        let moved = moved_instructions(keep, b.instructions);
        let out = kept(moved, keep);
        lemma_kept_holds(moved, keep, j);
        let i = choose|i: int| 0 <= i < out.len() && #[trigger] out[i] == moved[j];
        assert(leaves_function(out[i]));
    }
}

proof fn lemma_fold_leaves(b: Body, count: nat, n: nat, j: int)
    requires
        0 <= j < n <= b.instructions.len(),
        leaves_function(b.instructions[j]),
    ensures
        fold_first(b, count, n).instructions.len() == n,
        fold_first(b, count, n).instructions[j] == b.instructions[j],
    decreases n,
{
    lemma_fold_first_shape(b, count, (n - 1) as nat);
    if j < n - 1 {
        lemma_fold_leaves(b, count, (n - 1) as nat, j);
    }
}

proof fn lemma_pass_leaves(b: Body, count: nat, pass: Pass)
    requires
        leaves_somewhere(b.instructions),
    ensures
        leaves_somewhere(pass.after(b, count).instructions),
{
    let n = b.instructions.len();
    let j = choose|j: int| 0 <= j < n && leaves_function(#[trigger] b.instructions[j]);
    let after = pass.after(b, count);
    match pass {
        Pass::FoldConstants => {
            lemma_fold_leaves(b, count, n, j);
            assert(leaves_function(after.instructions[j]));
        },
        Pass::SpecializeIntegers | Pass::CollapseJumpChains | Pass::CollapseJumpChainsAgain => {
            assert(leaves_function(after.instructions[j]));
        },
        Pass::RemoveRedundantMoves => {
            lemma_compacted_leaves(b, without_redundant_moves(b.instructions), j);
        },
        Pass::RemoveUnreachable => {
            lemma_last_leaving(b.instructions, n);
            let i = if leaving_reached(b.instructions) {
                choose|i: int|
                    0 <= i < n && leaves_function(#[trigger] b.instructions[i]) && reached(
                        b.instructions,
                        i,
                    )
            } else {
                last_leaving(b.instructions, n)
            };
            lemma_compacted_leaves(b, needed_positions(b.instructions), i);
        },
    }
}

proof fn lemma_passes_leave(b: Body, count: nat, n: nat)
    requires
        leaves_somewhere(b.instructions),
        n <= all_passes().len(),
    ensures
        leaves_somewhere(after_passes(b, count, n).instructions),
    decreases n,
{
    if n > 0 {
        lemma_passes_leave(b, count, (n - 1) as nat);
        lemma_pass_leaves(after_passes(b, count, (n - 1) as nat), count, all_passes()[n - 1]);
    }
}

/// Optimization keeps a chunk valid: the result passes structural verification. The name, arity,
/// registers, captures, strings and register names stay, and constants are only added.
pub proof fn optimization_preserves_validity(before: Chunk, after: Chunk)
    requires
        valid_chunk(before@),
        same_frame(after, before),
        body(after) == optimized(body(before), before.register_count as nat),
    ensures
        valid_chunk(after@),
        before@.constants.is_prefix_of(after@.constants),
        after@.name == before@.name,
        after@.arity == before@.arity,
        after@.register_count == before@.register_count,
        after@.capture_count == before@.capture_count,
        after@.strings == before@.strings,
        after@.debug_local_names == before@.debug_local_names,
{
    let b = body(before);
    assert(with_body(before, b) == before@);
    lemma_sound(before, b);
    lemma_passes_sound(before, b, all_passes().len());
    let out = body(after);
    assert(with_body(before, out) =~= after@);
    lemma_sound(before, out);
    let j = choose|j: int|
        0 <= j < before@.instructions.len() && (#[trigger] before@.instructions[j]).leaves();
    assert(leaves_function(b.instructions[j]));
    lemma_passes_leave(b, before.register_count as nat, all_passes().len());
    let i = choose|i: int|
        0 <= i < out.instructions.len() && leaves_function(#[trigger] out.instructions[i]);
    assert(after@.instructions[i].leaves());
}

// ---------------------------------------------------------------------------
// References
// ---------------------------------------------------------------------------

/// Whether the instructions have no errors against a function table.
pub open spec fn resolved(p: ProgramView, instructions: Seq<Instruction>) -> bool {
    forall|i: int|
        0 <= i < instructions.len() ==> reference_error(p, (#[trigger] instructions[i])@) is None
}

proof fn lemma_fold_resolved(p: ProgramView, b: Body, count: nat, n: nat)
    requires
        resolved(p, b.instructions),
        n <= b.instructions.len(),
    ensures
        resolved(p, fold_first(b, count, n).instructions),
    decreases n,
{
    if n > 0 {
        lemma_fold_resolved(p, b, count, (n - 1) as nat);
        lemma_fold_first_shape(b, count, (n - 1) as nat);
        let before = fold_first(b, count, (n - 1) as nat);
        let s = fold_first(b, count, n);
        assert(reference_error(p, b.instructions[n - 1]@) is None);
        assert forall|i: int| 0 <= i < s.instructions.len() implies reference_error(
            p,
            (#[trigger] s.instructions[i])@,
        ) is None by {
            if i < n - 1 {
                assert(s.instructions[i] == before.instructions[i]);
            }
        }
    }
}

proof fn lemma_pass_resolved(p: ProgramView, b: Body, count: nat, pass: Pass)
    requires
        resolved(p, b.instructions),
    ensures
        resolved(p, pass.after(b, count).instructions),
{
    match pass {
        Pass::FoldConstants => lemma_fold_resolved(p, b, count, b.instructions.len()),
        Pass::SpecializeIntegers => {
            assert forall|i: int| 0 <= i < b.instructions.len() implies reference_error(
                p,
                (#[trigger] specialized(b).instructions[i])@,
            ) is None by {
                assert(reference_error(p, b.instructions[i]@) is None);
            }
        },
        Pass::CollapseJumpChains | Pass::CollapseJumpChainsAgain => {
            assert forall|i: int| 0 <= i < b.instructions.len() implies reference_error(
                p,
                (#[trigger] collapsed(b).instructions[i])@,
            ) is None by {
                assert(reference_error(p, b.instructions[i]@) is None);
            }
        },
        Pass::RemoveRedundantMoves => {
            lemma_compacted_resolved(p, b, without_redundant_moves(b.instructions));
        },
        Pass::RemoveUnreachable => {
            lemma_compacted_resolved(p, b, needed_positions(b.instructions));
        },
    }
}

proof fn lemma_compacted_resolved(p: ProgramView, b: Body, keep: Seq<bool>)
    requires
        resolved(p, b.instructions),
        keep.len() == b.instructions.len(),
    ensures
        resolved(p, compacted(b, keep).instructions),
{
    if count_true(keep) != keep.len() {
        let moved = moved_instructions(keep, b.instructions);
        lemma_kept_comes_from(moved, keep);
        let out = compacted(b, keep);
        assert forall|i: int| 0 <= i < out.instructions.len() implies reference_error(
            p,
            (#[trigger] out.instructions[i])@,
        ) is None by {
            let j = choose|j: int|
                0 <= j < moved.len() && keep[j] && moved[j] == kept(moved, keep)[i];
            assert(reference_error(p, b.instructions[j]@) is None);
        }
    }
}

proof fn lemma_passes_resolved(p: ProgramView, b: Body, count: nat, n: nat)
    requires
        resolved(p, b.instructions),
        n <= all_passes().len(),
    ensures
        resolved(p, after_passes(b, count, n).instructions),
    decreases n,
{
    if n > 0 {
        lemma_passes_resolved(p, b, count, (n - 1) as nat);
        lemma_pass_resolved(
            p,
            after_passes(b, count, (n - 1) as nat),
            count,
            all_passes()[n - 1],
        );
    }
}

proof fn lemma_references_from(p: ProgramView, id: FunctionId, c: ChunkView, from: nat)
    requires
        forall|i: int|
            from <= i < c.instructions.len() ==> reference_error(p, #[trigger] c.instructions[i])
                is None,
    ensures
        first_reference_error(p, id, c, from) is None,
    decreases c.instructions.len() - from,
{
    if from < c.instructions.len() {
        lemma_references_from(p, id, c, from + 1);
    }
}

proof fn lemma_functions_from(p: ProgramView, from: nat)
    requires
        forall|i: int|
            from <= i < p.functions.len() ==> #[trigger] function_error(p, FunctionId(i as u16))
                is None,
    ensures
        first_function_error(p, from) is None,
    decreases p.functions.len() - from,
{
    if from < p.functions.len() {
        assert(function_error(p, FunctionId(from as u16)) is None);
        lemma_functions_from(p, from + 1);
    }
}

/// The same references have the same errors against function tables with the same metadata.
proof fn lemma_same_table(p: ProgramView, q: ProgramView, v: InstructionView)
    requires
        p.functions.len() == q.functions.len(),
        forall|i: int|
            0 <= i < p.functions.len() ==> (#[trigger] p.functions[i]).arity == q.functions[i].arity
                && p.functions[i].capture_count == q.functions[i].capture_count,
    ensures
        reference_error(p, v) == reference_error(q, v),
{
    if v.opcode == OP_CALL_FUNCTION || v.opcode == OP_MAKE_CLOSURE {
        let id = v.function()->0;
        if id.0 < p.functions.len() {
            assert(p.functions[id.0 as int].arity == q.functions[id.0 as int].arity);
        }
    }
}

/// A valid program stays valid when the chunk of one of its functions is optimized.
pub proof fn optimization_preserves_program_validity(
    p: ProgramView,
    index: int,
    before: Chunk,
    after: Chunk,
)
    requires
        valid_program(p),
        0 <= index < p.functions.len(),
        p.functions[index].kind == FunctionKindView::Bytecode(before@),
        same_frame(after, before),
        body(after) == optimized(body(before), before.register_count as nat),
    ensures
        valid_program(
            ProgramView {
                functions: p.functions.update(
                    index,
                    FunctionView {
                        kind: FunctionKindView::Bytecode(after@),
                        ..p.functions[index]
                    },
                ),
                ..p
            },
        ),
{
    let f = FunctionView { kind: FunctionKindView::Bytecode(after@), ..p.functions[index] };
    let q = ProgramView { functions: p.functions.update(index, f), ..p };
    lemma_no_function_error(p, 0, index as nat);
    optimization_preserves_validity(before, after);
    assert(resolved(p, before.instructions@)) by {
        assert forall|i: int| 0 <= i < before.instructions@.len() implies reference_error(
            p,
            (#[trigger] before.instructions@[i])@,
        ) is None by {
            lemma_no_reference_error(p, FunctionId(index as u16), before@, 0, i as nat);
            assert(before@.instructions[i] == before.instructions@[i]@);
        }
    }
    lemma_passes_resolved(p, body(before), before.register_count as nat, all_passes().len());
    assert forall|i: int| 0 <= i < q.functions.len() implies #[trigger] function_error(
        q,
        FunctionId(i as u16),
    ) is None by {
        lemma_no_function_error(p, 0, i as nat);
        if i == index {
            assert forall|ip: int| 0 <= ip < after@.instructions.len() implies reference_error(
                q,
                #[trigger] after@.instructions[ip],
            ) is None by {
                lemma_same_table(p, q, after@.instructions[ip]);
                assert(after@.instructions[ip] == body(after).instructions[ip]@);
            }
            lemma_references_from(q, FunctionId(i as u16), after@, 0);
        } else if let FunctionKindView::Bytecode(c) = p.functions[i].kind {
            assert forall|ip: int| 0 <= ip < c.instructions.len() implies reference_error(
                q,
                #[trigger] c.instructions[ip],
            ) is None by {
                lemma_no_reference_error(p, FunctionId(i as u16), c, 0, ip as nat);
                lemma_same_table(p, q, c.instructions[ip]);
            }
            lemma_references_from(q, FunctionId(i as u16), c, 0);
        }
    }
    lemma_functions_from(q, 0);
}

// ---------------------------------------------------------------------------
// Execution
// ---------------------------------------------------------------------------

/// Whether the known contents hold in the registers.
pub open spec fn holds_in(known: Seq<Option<Value>>, registers: Seq<Value>) -> bool {
    known.len() == registers.len() && forall|i: int|
        0 <= i < known.len() ==> (#[trigger] known[i] matches Some(value) ==> registers[i] == value)
}

/// Registers that agree but for one.
pub open spec fn agree_but(a: Seq<Value>, b: Seq<Value>, register: Register) -> bool {
    a.len() == b.len() && forall|i: int| 0 <= i < a.len() && i != register.0 ==> a[i] == b[i]
}

/// Whether executing an instruction can lead from some register contents to others. An
/// operation gives its folded result where it has one, and something else otherwise.
pub open spec fn executes(
    instruction: Instruction,
    constants: Seq<Value>,
    before: Seq<Value>,
    after: Seq<Value>,
) -> bool {
    match shape(instruction) {
        Shape::Load { dst, constant } => {
            &&& agree_but(before, after, dst)
            &&& constant.0 < constants.len() && dst.0 < after.len() ==> after[dst.0 as int]
                == constants[constant.0 as int]
        },
        Shape::Copy { dst, src } => {
            &&& agree_but(before, after, dst)
            &&& src.0 < before.len() && dst.0 < after.len() ==> after[dst.0 as int]
                == before[src.0 as int]
        },
        Shape::Binary { op, dst, lhs, rhs } => {
            &&& agree_but(before, after, dst)
            &&& lhs.0 < before.len() && rhs.0 < before.len() && dst.0 < after.len() ==> (
            fold_result(op, before[lhs.0 as int], before[rhs.0 as int]) matches Some(value)
                ==> after[dst.0 as int] == value)
        },
        Shape::Negate { dst, src } => {
            &&& agree_but(before, after, dst)
            &&& src.0 < before.len() && dst.0 < after.len() ==> (negated(
                Some(before[src.0 as int]),
            ) matches Some(value) ==> after[dst.0 as int] == value)
        },
        Shape::Opaque { written, resets } => {
            &&& before.len() == after.len()
            &&& !resets ==> match written {
                Some(register) => agree_but(before, after, register),
                None => after == before,
            }
        },
    }
}

/// Constant folding preserves execution: where the known contents hold, the instruction that
/// folding puts in place leads to the same registers, and what is known afterwards holds in
/// them.
pub proof fn folding_preserves_execution(
    s: FoldState,
    instruction: Instruction,
    is_target: bool,
    before: Seq<Value>,
    after: Seq<Value>,
)
    requires
        s.known.len() == before.len(),
        !is_target ==> holds_in(s.known, before),
        executes(instruction, s.constants, before, after),
    ensures
        ({
            let t = fold_step(s, instruction, is_target);
            &&& executes(t.instructions.last(), t.constants, before, after)
            &&& holds_in(t.known, after)
        }),
{
    let known = if is_target {
        nothing_known(s.known.len())
    } else {
        s.known
    };
    let t = fold_step(s, instruction, is_target);
    assert(holds_in(known, before));
    assert forall|i: int| 0 <= i < t.known.len() implies (#[trigger] t.known[i] matches Some(value)
        ==> after[i] == value) by {
        assert(i < known.len());
        assert(known[i] matches Some(value) ==> before[i] == value);
    }
}

// ---------------------------------------------------------------------------
// Jump chains
// ---------------------------------------------------------------------------

/// Whether an unconditional jump stands at a target.
pub open spec fn jumps_on(instructions: Seq<Instruction>, target: JumpTarget) -> bool {
    target.0 < instructions.len() && instructions[target.0 as int] is Jump
}

/// The target behind `n` unconditional jumps.
pub open spec fn after_jumps(
    instructions: Seq<Instruction>,
    target: JumpTarget,
    n: nat,
) -> JumpTarget
    decreases n,
{
    if n == 0 {
        target
    } else {
        instructions[after_jumps(instructions, target, (n - 1) as nat).0 as int]->Jump_target
    }
}

/// Whether the first `n` targets of a chain are jumps, each of them another.
pub open spec fn distinct_jumps(
    instructions: Seq<Instruction>,
    target: JumpTarget,
    n: nat,
) -> bool {
    &&& forall|k: nat| k < n ==> jumps_on(instructions, #[trigger] after_jumps(instructions, target, k))
    &&& forall|j: nat, k: nat|
        j < k < n ==> #[trigger] after_jumps(instructions, target, j) != #[trigger] after_jumps(
            instructions,
            target,
            k,
        )
}

/// Whether the target behind `n` jumps is one of those before it.
pub open spec fn comes_again(instructions: Seq<Instruction>, target: JumpTarget, n: nat) -> bool {
    exists|k: nat|
        k < n && #[trigger] after_jumps(instructions, target, k) == after_jumps(
            instructions,
            target,
            n,
        )
}

proof fn lemma_chain(
    instructions: Seq<Instruction>,
    target: JumpTarget,
    current: JumpTarget,
    visited: Seq<JumpTarget>,
) -> (n: nat)
    requires
        current == after_jumps(instructions, target, visited.len()),
        forall|k: nat|
            k < visited.len() ==> visited[k as int] == #[trigger] after_jumps(
                instructions,
                target,
                k,
            ),
        distinct_jumps(instructions, target, visited.len()),
    ensures
        chain_end(instructions, current, visited) == after_jumps(instructions, target, n),
        distinct_jumps(instructions, target, n),
        !jumps_on(instructions, after_jumps(instructions, target, n)) || comes_again(
            instructions,
            target,
            n,
        ),
    decreases instructions.len() + 1 - visited.len(),
{
    let m = visited.len();
    assert forall|i: int| 0 <= i < m implies visited[i] == after_jumps(
        instructions,
        target,
        i as nat,
    ) && jumps_on(instructions, #[trigger] visited[i]) by {
        assert(visited[i as nat as int] == after_jumps(instructions, target, i as nat));
    }
    assert(visited.no_duplicates()) by {
        assert forall|i: int, j: int| 0 <= i < m && 0 <= j < m && i != j implies visited[i]
            != visited[j] by {
            assert(after_jumps(instructions, target, i as nat) != after_jumps(
                instructions,
                target,
                j as nat,
            ));
        }
    }
    lemma_distinct_positions(visited, instructions.len());
    if visited.contains(current) {
        let i = visited.index_of(current);
        assert(visited[i] == after_jumps(instructions, target, i as nat));
        assert(comes_again(instructions, target, m));
        m
    } else if jumps_on(instructions, current) {
        let next = instructions[current.0 as int]->Jump_target;
        let longer = visited.push(current);
        assert forall|k: nat| k < longer.len() implies longer[k as int] == #[trigger] after_jumps(
            instructions,
            target,
            k,
        ) by {}
        assert forall|j: nat, k: nat| j < k < longer.len() implies #[trigger] after_jumps(
            instructions,
            target,
            j,
        ) != #[trigger] after_jumps(instructions, target, k) by {
            assert(visited.contains(visited[j as int]));
        }
        lemma_chain(instructions, target, next, longer)
    } else {
        m
    }
}

/// Where collapsing jump chains lets a jump go: behind the unconditional jumps that it would go
/// through, or, where they go in a circle, to the first of them that comes again. A target that
/// is no jump stays, and so does the end of a chain that ends.
pub proof fn jump_chains_end(instructions: Seq<Instruction>, target: JumpTarget)
    ensures
        ({
            let end = chain_end(instructions, target, Seq::empty());
            &&& exists|n: nat|
                {
                    &&& end == #[trigger] after_jumps(instructions, target, n)
                    &&& distinct_jumps(instructions, target, n)
                    &&& !jumps_on(instructions, end) || comes_again(instructions, target, n)
                }
            &&& !jumps_on(instructions, target) ==> end == target
            &&& !jumps_on(instructions, end) ==> chain_end(instructions, end, Seq::empty()) == end
        }),
{
    let end = chain_end(instructions, target, Seq::empty());
    let n = lemma_chain(instructions, target, target, Seq::empty());
    assert(end == after_jumps(instructions, target, n));
}

} // verus!
