//! What the optimizer gets done.

use vstd::prelude::*;

use crate::bytecode::instruction::{ConstId, Instruction, JumpTarget, Register};
use crate::bytecode::optimizer::{
    after_passes, all_passes, collapsed, collapsed_at, compacted, count_true, describes_pass,
    ends_block, flags_below, fold_first, fold_result, folded, kept, last_leaving, leaves_function,
    leaving_reached, lemma_flags_below_next, lemma_fold_first_shape, moved_instruction,
    moved_instructions, needed_positions, optimized, padded_source_map, reached, shape, specialized,
    specialized_at, targeted, with_target, without_redundant_moves, Body, OptimizationPassReport,
    Pass, Shape,
};
use crate::value::Value;

verus! {

/// Whether an instruction computes a value from the values of two registers.
pub open spec fn computes(
    instruction: Instruction,
    dst: Register,
    lhs: Register,
    rhs: Register,
    x: i64,
    y: i64,
    result: Value,
) -> bool {
    ||| instruction == (Instruction::Add { dst, lhs, rhs }) && i64::MIN <= x + y <= i64::MAX
        && result == Value::Int((x + y) as i64)
    ||| instruction == (Instruction::Sub { dst, lhs, rhs }) && i64::MIN <= x - y <= i64::MAX
        && result == Value::Int((x - y) as i64)
    ||| instruction == (Instruction::Mul { dst, lhs, rhs }) && i64::MIN <= x * y <= i64::MAX
        && result == Value::Int((x * y) as i64)
    ||| instruction == (Instruction::Div { dst, lhs, rhs }) && x >= 0 && y > 0 && result
        == Value::Int((x as int / y as int) as i64)
    ||| instruction == (Instruction::Less { dst, lhs, rhs }) && result == Value::Bool(x < y)
    ||| instruction == (Instruction::LessEqual { dst, lhs, rhs }) && result == Value::Bool(x <= y)
    ||| instruction == (Instruction::Greater { dst, lhs, rhs }) && result == Value::Bool(x > y)
    ||| instruction == (Instruction::GreaterEqual { dst, lhs, rhs }) && result == Value::Bool(x >= y)
    ||| instruction == (Instruction::Equal { dst, lhs, rhs }) && result == Value::Bool(x == y)
    ||| instruction == (Instruction::NotEqual { dst, lhs, rhs }) && result == Value::Bool(x != y)
}

/// Folding only puts constants behind the others, and keeps what it has written.
proof fn lemma_grows(b: Body, register_count: nat, n: nat, m: nat)
    requires
        n <= m <= b.instructions.len(),
    ensures
        fold_first(b, register_count, n).constants.is_prefix_of(
            fold_first(b, register_count, m).constants,
        ),
        fold_first(b, register_count, n).instructions.is_prefix_of(
            fold_first(b, register_count, m).instructions,
        ),
    decreases m - n,
{
    if n < m {
        lemma_grows(b, register_count, n, (m - 1) as nat);
        let s = fold_first(b, register_count, (m - 1) as nat);
        let t = fold_first(b, register_count, m);
        assert(s.constants.is_prefix_of(t.constants));
        assert(s.instructions.is_prefix_of(t.instructions));
        let a = fold_first(b, register_count, n);
        assert(a.constants =~= t.constants.take(a.constants.len() as int));
        assert(a.instructions =~= t.instructions.take(a.instructions.len() as int));
    }
}

/// An operation whose operands have just been loaded as constants is replaced by the load of its
/// result, if no jump comes in between and the pool has room for the result.
pub proof fn constant_operations_are_folded(
    b: Body,
    register_count: nat,
    i: int,
    dst: Register,
    lhs: Register,
    rhs: Register,
    first: ConstId,
    second: ConstId,
    x: i64,
    y: i64,
    result: Value,
) -> (place: ConstId)
    requires
        0 <= i && i + 2 < b.instructions.len(),
        b.instructions[i] == (Instruction::LoadConst { dst: lhs, constant: first }),
        b.instructions[i + 1] == (Instruction::LoadConst { dst: rhs, constant: second }),
        lhs != rhs,
        lhs.0 < register_count,
        rhs.0 < register_count,
        first.0 < b.constants.len(),
        second.0 < b.constants.len(),
        b.constants[first.0 as int] == Value::Int(x),
        b.constants[second.0 as int] == Value::Int(y),
        computes(b.instructions[i + 2], dst, lhs, rhs, x, y, result),
        !targeted(b.instructions, i + 1),
        !targeted(b.instructions, i + 2),
        b.constants.len() + b.instructions.len() <= 65536,
    ensures
        folded(b, register_count).instructions[i + 2] == (Instruction::LoadConst {
            dst,
            constant: place,
        }),
        place.0 < folded(b, register_count).constants.len(),
        folded(b, register_count).constants[place.0 as int] == result,
        b.constants.is_prefix_of(folded(b, register_count).constants),
{
    let n = b.instructions.len();
    let s0 = fold_first(b, register_count, i as nat);
    let s1 = fold_first(b, register_count, (i + 1) as nat);
    let s2 = fold_first(b, register_count, (i + 2) as nat);
    let s3 = fold_first(b, register_count, (i + 3) as nat);
    let s = fold_first(b, register_count, n);
    lemma_fold_first_shape(b, register_count, i as nat);
    lemma_fold_first_shape(b, register_count, (i + 1) as nat);
    lemma_fold_first_shape(b, register_count, (i + 2) as nat);
    lemma_grows(b, register_count, 0, i as nat);
    lemma_grows(b, register_count, 0, n);
    lemma_grows(b, register_count, (i + 3) as nat, n);
    lemma_room(b, register_count, (i + 2) as nat);
    assert(s0.constants[first.0 as int] == b.constants[first.0 as int]) by {
        assert(b.constants == s0.constants.take(b.constants.len() as int));
    }
    assert(s0.constants[second.0 as int] == b.constants[second.0 as int]) by {
        assert(b.constants == s0.constants.take(b.constants.len() as int));
    }
    assert(s1.constants == s0.constants && s2.constants == s0.constants);
    assert(s1.known[lhs.0 as int] == Some(Value::Int(x)));
    assert(s2.known[lhs.0 as int] == Some(Value::Int(x)));
    assert(s2.known[rhs.0 as int] == Some(Value::Int(y)));
    let place = ConstId(s2.constants.len() as u16);
    lemma_result(b.instructions[i + 2], dst, lhs, rhs, x, y, result);
    assert(s3.constants == s2.constants.push(result));
    assert(s3.instructions == s2.instructions.push(
        Instruction::LoadConst { dst, constant: place },
    ));
    assert(s3.instructions == s.instructions.take(s3.instructions.len() as int));
    assert(s3.constants == s.constants.take(s3.constants.len() as int));
    assert(s3.instructions[i + 2] == s.instructions[i + 2]);
    assert(s3.constants[place.0 as int] == s.constants[place.0 as int]);
    place
}

proof fn lemma_result(
    instruction: Instruction,
    dst: Register,
    lhs: Register,
    rhs: Register,
    x: i64,
    y: i64,
    result: Value,
)
    requires
        computes(instruction, dst, lhs, rhs, x, y, result),
    ensures
        shape(instruction) matches Shape::Binary { op, dst: d, lhs: l, rhs: r } && d == dst && l
            == lhs && r == rhs && fold_result(op, Value::Int(x), Value::Int(y)) == Some(result),
{
}

proof fn lemma_room(b: Body, register_count: nat, n: nat)
    requires
        n <= b.instructions.len(),
    ensures
        fold_first(b, register_count, n).constants.len() <= b.constants.len() + n,
    decreases n,
{
    if n > 0 {
        lemma_room(b, register_count, (n - 1) as nat);
    }
}

/// Whether an instruction is arithmetic or a comparison of order on values of any type.
pub open spec fn generic(instruction: Instruction) -> bool {
    instruction is Add || instruction is Sub || instruction is Mul || instruction is Div
        || instruction is Less || instruction is LessEqual || instruction is Greater
        || instruction is GreaterEqual
}

/// After specialization no instruction is generic, those that were not are as before, and all
/// registers stay.
pub proof fn no_generic_instruction_is_left(b: Body, i: int)
    requires
        0 <= i < b.instructions.len(),
    ensures
        specialized(b).instructions.len() == b.instructions.len(),
        !generic(specialized(b).instructions[i]),
        !generic(b.instructions[i]) ==> specialized(b).instructions[i] == b.instructions[i],
        specialized(b).instructions[i]@.operands == b.instructions[i]@.operands,
        specialized(b).constants == b.constants,
        specialized(b).source_map == b.source_map,
{
}

/// The positions whose flags are set, in order.
pub open spec fn set_positions(keep: Seq<bool>) -> Seq<int> {
    Seq::new(keep.len(), |i: int| i).filter(|i: int| keep[i])
}

proof fn lemma_kept<A>(items: Seq<A>, keep: Seq<bool>)
    requires
        items.len() == keep.len(),
    ensures
        kept(items, keep) == set_positions(keep).map_values(|i: int| items[i]),
    decreases keep.len(),
{
    reveal(Seq::filter);
    let all = Seq::new(keep.len(), |i: int| i);
    let chosen = |i: int| keep[i];
    if keep.len() > 0 {
        let front = keep.drop_last();
        let fewer = Seq::new(front.len(), |i: int| i);
        lemma_kept(items.drop_last(), front);
        assert(all.drop_last() =~= fewer);
        lemma_same_filter(fewer, chosen, |i: int| front[i]);
        let last = keep.len() - 1;
        assert(all.last() == last);
        lemma_below(fewer, |i: int| front[i], front.len() as int);
        let before = fewer.filter(chosen);
        assert(before.map_values(|i: int| items.drop_last()[i]) =~= before.map_values(
            |i: int| items[i],
        ));
        if keep.last() {
            assert(set_positions(keep) == before.push(last));
            assert(before.push(last).map_values(|i: int| items[i]) =~= before.map_values(
                |i: int| items[i],
            ).push(items.last()));
        } else {
            assert(set_positions(keep) == before);
        }
    } else {
        assert(set_positions(keep).map_values(|i: int| items[i]) =~= Seq::empty());
    }
}

proof fn lemma_same_filter(s: Seq<int>, f: spec_fn(int) -> bool, g: spec_fn(int) -> bool)
    requires
        forall|k: int| 0 <= k < s.len() ==> f(#[trigger] s[k]) == g(s[k]),
    ensures
        s.filter(f) == s.filter(g),
    decreases s.len(),
{
    reveal(Seq::filter);
    if s.len() > 0 {
        lemma_same_filter(s.drop_last(), f, g);
        assert(f(s[s.len() - 1]) == g(s[s.len() - 1]));
    }
}

proof fn lemma_below(s: Seq<int>, f: spec_fn(int) -> bool, n: int)
    requires
        forall|k: int| 0 <= k < s.len() ==> 0 <= #[trigger] s[k] < n,
    ensures
        forall|k: int| 0 <= k < s.filter(f).len() ==> 0 <= #[trigger] s.filter(f)[k] < n,
    decreases s.len(),
{
    reveal(Seq::filter);
    if s.len() > 0 {
        let before = s.drop_last().filter(f);
        assert forall|k: int| 0 <= k < s.drop_last().len() implies 0 <= #[trigger] s.drop_last()[k]
            < n by {
            assert(s.drop_last()[k] == s[k]);
        }
        lemma_below(s.drop_last(), f, n);
        assert(0 <= s[s.len() - 1] < n);
        assert forall|k: int| 0 <= k < s.filter(f).len() implies 0 <= #[trigger] s.filter(f)[k]
            < n by {
            if k < before.len() {
                assert(s.filter(f)[k] == before[k]);
            } else {
                assert(s.filter(f)[k] == s.last());
            }
        }
    }
}

/// Removing positions keeps the instructions at the others, in order, with their jump targets
/// moved, and the spans of the instructions with them.
pub proof fn compaction_keeps_the_others(b: Body, keep: Seq<bool>)
    requires
        keep.len() == b.instructions.len(),
        count_true(keep) < keep.len(),
    ensures
        compacted(b, keep).instructions == set_positions(keep).map_values(
            |i: int| moved_instruction(keep, b.instructions[i]),
        ),
        compacted(b, keep).source_map == set_positions(keep).map_values(
            |i: int|
                if i < b.source_map.len() {
                    b.source_map[i]
                } else {
                    None
                },
        ),
        compacted(b, keep).constants == b.constants,
{
    let moved = moved_instructions(keep, b.instructions);
    let places = padded_source_map(b.source_map, keep.len());
    lemma_kept(moved, keep);
    lemma_kept(places, keep);
    lemma_below(Seq::new(keep.len(), |i: int| i), |i: int| keep[i], keep.len() as int);
    let positions = set_positions(keep);
    assert(positions.map_values(|i: int| moved[i]) =~= positions.map_values(
        |i: int| moved_instruction(keep, b.instructions[i]),
    ));
    assert(positions.map_values(|i: int| places[i]) =~= positions.map_values(
        |i: int|
            if i < b.source_map.len() {
                b.source_map[i]
            } else {
                None
            },
    ));
}

/// A move is removed just where it moves a register to itself and no jump goes to it.
pub proof fn moves_to_themselves_are_removed(instructions: Seq<Instruction>, i: int)
    requires
        0 <= i < instructions.len(),
    ensures
        !without_redundant_moves(instructions)[i] <==> exists|register: Register|
            instructions[i] == (#[trigger] self_move(register)) && !targeted(instructions, i),
{
    if let Instruction::Move { dst, src } = instructions[i] {
        if dst == src {
            assert(instructions[i] == self_move(dst));
        }
    }
}

/// The move of a register to itself.
pub open spec fn self_move(register: Register) -> Instruction {
    Instruction::Move { dst: register, src: register }
}

/// Whether control can come to a position: from the beginning or from a jump, past instructions
/// that let it run on.
pub open spec fn comes_to(instructions: Seq<Instruction>, i: int) -> bool {
    exists|j: int|
        j <= i && (j == 0 || targeted(instructions, j)) && #[trigger] runs_on(instructions, j, i)
}

/// Whether control runs on from one position to another.
pub open spec fn runs_on(instructions: Seq<Instruction>, j: int, i: int) -> bool {
    0 <= j <= i && forall|k: int|
        j <= k < i ==> !((#[trigger] instructions[k]) is Jump) && !(instructions[k] is Throw) && !(
        instructions[k] is Return)
}

proof fn lemma_reached(instructions: Seq<Instruction>, i: int)
    requires
        0 <= i < instructions.len(),
    ensures
        reached(instructions, i) <==> comes_to(instructions, i),
    decreases i,
{
    if i == 0 || targeted(instructions, i) {
        assert(runs_on(instructions, i, i));
    } else {
        lemma_reached(instructions, i - 1);
        if comes_to(instructions, i - 1) && !ends_block(instructions[i - 1]) {
            let j = choose|j: int|
                j <= i - 1 && (j == 0 || targeted(instructions, j)) && #[trigger] runs_on(
                    instructions,
                    j,
                    i - 1,
                );
            assert(runs_on(instructions, j, i));
        }
        if comes_to(instructions, i) {
            let j = choose|j: int|
                j <= i && (j == 0 || targeted(instructions, j)) && #[trigger] runs_on(
                    instructions,
                    j,
                    i,
                );
            assert(j < i);
            assert(!ends_block(instructions[i - 1]));
            assert(runs_on(instructions, j, i - 1));
        }
    }
}

proof fn lemma_last(instructions: Seq<Instruction>, n: nat)
    requires
        n <= instructions.len(),
    ensures
        match last_leaving(instructions, n) {
            k => if k < 0 {
                forall|j: int| 0 <= j < n ==> !leaves(#[trigger] instructions[j])
            } else {
                k < n && leaves(instructions[k]) && forall|j: int|
                    k < j < n ==> !leaves(#[trigger] instructions[j])
            },
        },
    decreases n,
{
    if n > 0 && !leaves(instructions[n - 1]) {
        lemma_last(instructions, (n - 1) as nat);
    }
}

/// Whether an instruction leaves its function.
pub open spec fn leaves(instruction: Instruction) -> bool {
    instruction is Throw || instruction is Return
}

/// Whether control can come to an instruction that leaves its function.
pub open spec fn can_leave(instructions: Seq<Instruction>) -> bool {
    exists|i: int|
        0 <= i < instructions.len() && leaves(#[trigger] instructions[i]) && comes_to(
            instructions,
            i,
        )
}

/// An instruction is removed as unreachable just where control cannot come to it, unless it is the
/// last one that leaves its function and control can come to no such instruction.
pub proof fn unreachable_instructions_are_removed(instructions: Seq<Instruction>, i: int)
    requires
        0 <= i < instructions.len(),
    ensures
        needed_positions(instructions)[i] <==> comes_to(instructions, i) || (!can_leave(
            instructions,
        ) && leaves(instructions[i]) && forall|j: int|
            i < j < instructions.len() ==> !leaves(#[trigger] instructions[j])),
{
    lemma_reached(instructions, i);
    lemma_last(instructions, instructions.len());
    assert(leaving_reached(instructions) == can_leave(instructions)) by {
        if leaving_reached(instructions) {
            let k = choose|k: int|
                0 <= k < instructions.len() && leaves_function(#[trigger] instructions[k])
                    && reached(instructions, k);
            lemma_reached(instructions, k);
            assert(leaves(instructions[k]));
        }
        if can_leave(instructions) {
            let k = choose|k: int|
                0 <= k < instructions.len() && leaves(#[trigger] instructions[k]) && comes_to(
                    instructions,
                    k,
                );
            lemma_reached(instructions, k);
            assert(leaves_function(instructions[k]));
        }
    }
}

/// Optimization folds constants, specializes instructions, follows jumps, removes moves and
/// unreachable instructions, and follows jumps once more.
pub proof fn optimization_runs_every_pass(b: Body, register_count: nat)
    ensures
        ({
            let one = collapsed(specialized(folded(b, register_count)));
            let two = compacted(one, without_redundant_moves(one.instructions));
            let three = compacted(two, needed_positions(two.instructions));
            optimized(b, register_count) == collapsed(three)
        }),
{
    reveal_with_fuel(after_passes, 7);
    let passes = all_passes();
    assert(passes.len() == 6);
}

/// How many of the first `n` instructions differ.
pub open spec fn differences(a: Seq<Instruction>, b: Seq<Instruction>, n: nat) -> nat
    decreases n,
{
    if n == 0 {
        0
    } else if a[n - 1] != b[n - 1] {
        differences(a, b, (n - 1) as nat) + 1
    } else {
        differences(a, b, (n - 1) as nat)
    }
}

proof fn lemma_differences(
    a: Seq<Instruction>,
    b: Seq<Instruction>,
    n: nat,
    condition: spec_fn(int) -> bool,
)
    requires
        forall|i: int| 0 <= i < n ==> (condition(i) <==> #[trigger] a[i] != b[i]),
    ensures
        count_true(flags_below(n, condition)) == differences(a, b, n),
    decreases n,
{
    if n == 0 {
        assert(flags_below(0, condition) =~= Seq::empty());
    } else {
        lemma_differences(a, b, (n - 1) as nat, condition);
        lemma_flags_below_next((n - 1) as nat, condition);
        assert(condition(n - 1) <==> a[n - 1] != b[n - 1]);
    }
}

proof fn lemma_rewrites(b: Body, register_count: nat, n: nat)
    requires
        n <= b.instructions.len(),
    ensures
        fold_first(b, register_count, n).rewrites == differences(
            b.instructions,
            fold_first(b, register_count, n).instructions,
            n,
        ),
    decreases n,
{
    if n > 0 {
        let m = (n - 1) as nat;
        let s = fold_first(b, register_count, m);
        let t = fold_first(b, register_count, n);
        lemma_rewrites(b, register_count, m);
        lemma_fold_first_shape(b, register_count, m);
        lemma_fold_first_shape(b, register_count, n);
        lemma_grows(b, register_count, m, n);
        assert forall|i: int| 0 <= i < m implies #[trigger] s.instructions[i] == t.instructions[i] by {
            assert(s.instructions == t.instructions.take(m as int));
        }
        lemma_same_differences(b.instructions, s.instructions, t.instructions, m);
    }
}

proof fn lemma_same_differences(
    a: Seq<Instruction>,
    b: Seq<Instruction>,
    c: Seq<Instruction>,
    n: nat,
)
    requires
        forall|i: int| 0 <= i < n ==> #[trigger] b[i] == c[i],
    ensures
        differences(a, b, n) == differences(a, c, n),
    decreases n,
{
    if n > 0 {
        lemma_same_differences(a, b, c, (n - 1) as nat);
        assert(b[n - 1] == c[n - 1]);
    }
}

/// A pass that rewrites instructions reports how many it has changed.
pub proof fn rewrites_are_counted(b: Body, register_count: nat)
    ensures
        Pass::FoldConstants.transformations(b, register_count) == differences(
            b.instructions,
            folded(b, register_count).instructions,
            b.instructions.len(),
        ),
        Pass::SpecializeIntegers.transformations(b, register_count) == differences(
            b.instructions,
            specialized(b).instructions,
            b.instructions.len(),
        ),
        Pass::CollapseJumpChains.transformations(b, register_count) == differences(
            b.instructions,
            collapsed(b).instructions,
            b.instructions.len(),
        ),
{
    let n = b.instructions.len();
    lemma_rewrites(b, register_count, n);
    lemma_differences(b.instructions, specialized(b).instructions, n, specialized_at(b));
    assert forall|i: int| 0 <= i < n implies (collapsed_at(b)(i) <==> #[trigger] b.instructions[i]
        != collapsed(b).instructions[i]) by {
        lemma_target(b.instructions[i]);
    }
    lemma_differences(b.instructions, collapsed(b).instructions, n, collapsed_at(b));
}

/// A jump with another target is another jump.
proof fn lemma_target(instruction: Instruction)
    ensures
        instruction@.target() matches Some(target) ==> forall|other: JumpTarget|
            other == target <==> #[trigger] with_target(instruction, other) == instruction,
{
}

/// A pass that removes instructions reports how many there are less.
pub proof fn removals_are_counted(b: Body, register_count: nat)
    ensures
        Pass::RemoveRedundantMoves.transformations(b, register_count) == b.instructions.len()
            - Pass::RemoveRedundantMoves.after(b, register_count).instructions.len(),
        Pass::RemoveUnreachable.transformations(b, register_count) == b.instructions.len()
            - Pass::RemoveUnreachable.after(b, register_count).instructions.len(),
{
    lemma_kept_count(
        moved_instructions(without_redundant_moves(b.instructions), b.instructions),
        without_redundant_moves(b.instructions),
    );
    lemma_kept_count(
        moved_instructions(needed_positions(b.instructions), b.instructions),
        needed_positions(b.instructions),
    );
}

proof fn lemma_kept_count<A>(items: Seq<A>, keep: Seq<bool>)
    requires
        items.len() == keep.len(),
    ensures
        kept(items, keep).len() == count_true(keep),
        count_true(keep) <= keep.len(),
    decreases keep.len(),
{
    if keep.len() > 0 {
        lemma_kept_count(items.drop_last(), keep.drop_last());
    }
}

proof fn lemma_same(a: Seq<Instruction>, b: Seq<Instruction>, n: nat)
    ensures
        differences(a, b, n) == 0 <==> forall|i: int| 0 <= i < n ==> #[trigger] a[i] == b[i],
    decreases n,
{
    if n > 0 {
        lemma_same(a, b, (n - 1) as nat);
        if forall|i: int| 0 <= i < n ==> #[trigger] a[i] == b[i] {
            assert(a[n - 1] == b[n - 1]);
        }
    }
}

/// The report of a pass says that it changed its chunk just where the instructions are not what
/// they were, and how many instructions there were before.
pub proof fn reports_tell_what_changed(
    report: OptimizationPassReport,
    pass: Pass,
    b: Body,
    register_count: nat,
)
    requires
        describes_pass(report, pass, b, register_count),
    ensures
        report.changed <==> pass.after(b, register_count).instructions != b.instructions,
        report.instructions_inspected == b.instructions.len(),
{
    let after = pass.after(b, register_count);
    let n = b.instructions.len();
    rewrites_are_counted(b, register_count);
    removals_are_counted(b, register_count);
    lemma_fold_first_shape(b, register_count, n);
    if after.instructions.len() == n {
        lemma_same(b.instructions, after.instructions, n);
        if forall|i: int| 0 <= i < n ==> #[trigger] b.instructions[i] == after.instructions[i] {
            assert(after.instructions =~= b.instructions);
        }
    }
    match pass {
        Pass::RemoveRedundantMoves => {
            lemma_all_kept(b, without_redundant_moves(b.instructions));
        },
        Pass::RemoveUnreachable => {
            lemma_all_kept(b, needed_positions(b.instructions));
        },
        _ => {},
    }
}

proof fn lemma_all_kept(b: Body, keep: Seq<bool>)
    requires
        keep.len() == b.instructions.len(),
    ensures
        compacted(b, keep).instructions.len() == b.instructions.len() ==> compacted(
            b,
            keep,
        ).instructions == b.instructions,
{
    lemma_kept_count(moved_instructions(keep, b.instructions), keep);
}

} // verus!
