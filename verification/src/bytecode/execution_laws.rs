//! Optimization preserves execution: a chunk that ends, ends in the same way after every pass.

use vstd::prelude::*;

use crate::bytecode::chunk::Chunk;
use crate::bytecode::execution::{
    branches, combined, content, does, ends_with, entered, next, opposite, raised, run, takes,
    written, Effect, Effects, Ending, Handler, State, Step, Test,
};
use crate::bytecode::instruction::{ConstId, Instruction, JumpTarget, Register};
use crate::bytecode::optimizer::{
    after_passes, after_result, all_passes, assigned, body, chain_end, collapsed,
    collapsed_instruction, compacted, count_true, fold_first, fold_result, fold_step, folded, kept,
    known_value, lemma_count_true_bound, lemma_fold_first_shape, lemma_kept_next, moved_instruction,
    moved_instructions, moved_target, needed_positions, negated, nothing_known, optimized,
    same_frame, shape, some_kept_from, specialized, specialized_instruction, targeted,
    without_redundant_moves, Body, FoldState, Pass, Shape,
};
use crate::bytecode::optimizer_laws::{
    holds_in, lemma_kept_comes_from, lemma_last_leaving, lemma_passes_sound, lemma_sound,
    lemma_targets_in_range, sound, with_body,
};
use crate::bytecode::verification::{instruction_error, valid_chunk};
use crate::value::Value;

verus! {

// ---------------------------------------------------------------------------
// Integer specialization
// ---------------------------------------------------------------------------

proof fn lemma_specialized_run<W>(b: Body, s: State<W>, e: Effects<W>, n: nat)
    ensures
        run(specialized(b), s, e, n) == run(b, s, e, n),
    decreases n,
{
    if n > 0 {
        if 0 <= s.ip < b.instructions.len() {
            let instruction = b.instructions[s.ip];
            assert(specialized(b).instructions[s.ip] == specialized_instruction(instruction));
            assert(shape(specialized_instruction(instruction)) == shape(instruction));
            assert(next(specialized(b), s, e) == next(b, s, e));
        }
        if let Step::Goes { state } = next(b, s, e) {
            lemma_specialized_run(b, state, e, (n - 1) as nat);
        }
    }
}

// ---------------------------------------------------------------------------
// Constant folding
// ---------------------------------------------------------------------------

/// Constant loads take constants that exist.
pub open spec fn constants_exist(b: Body) -> bool {
    forall|i: int|
        0 <= i < b.instructions.len() ==> (#[trigger] b.instructions[i]
            matches Instruction::LoadConst { constant, .. } ==> constant.0 < b.constants.len())
}

/// What is known before the instruction at a position.
pub open spec fn known_at(b: Body, register_count: nat, ip: int) -> Seq<Option<Value>> {
    if targeted(b.instructions, ip) {
        nothing_known(register_count)
    } else {
        fold_first(b, register_count, ip as nat).known
    }
}

/// What folding knows holds in a state.
pub open spec fn known_holds<W>(b: Body, register_count: nat, s: State<W>) -> bool {
    &&& s.registers.len() == register_count
    &&& 0 <= s.ip < b.instructions.len() ==> holds_in(
        known_at(b, register_count, s.ip),
        s.registers,
    )
    &&& forall|i: int|
        0 <= i < s.handlers.len() ==> targeted(b.instructions, (#[trigger] s.handlers[i]).target)
}

/// Later folding leaves the instructions and constants so far.
proof fn lemma_fold_prefix(b: Body, register_count: nat, m: nat, n: nat)
    requires
        m <= n <= b.instructions.len(),
    ensures
        fold_first(b, register_count, m).instructions.is_prefix_of(
            fold_first(b, register_count, n).instructions,
        ),
        fold_first(b, register_count, m).constants.is_prefix_of(
            fold_first(b, register_count, n).constants,
        ),
    decreases n - m,
{
    if m < n {
        lemma_fold_prefix(b, register_count, m, (n - 1) as nat);
        let s = fold_first(b, register_count, (n - 1) as nat);
        let t = fold_first(b, register_count, n);
        assert(s.instructions.is_prefix_of(t.instructions));
        assert(s.constants.is_prefix_of(t.constants));
    }
}

proof fn lemma_targeted(b: Body, ip: int)
    requires
        0 <= ip < b.instructions.len(),
    ensures
        b.instructions[ip]@.target() matches Some(target) ==> targeted(
            b.instructions,
            target.0 as int,
        ),
{
    if let Some(target) = b.instructions[ip]@.target() {
        assert(crate::bytecode::optimizer::jumps_to(b.instructions[ip], target.0 as int));
    }
}

/// A raised value goes to a place where nothing is known.
proof fn lemma_raised_known<W>(
    b: Body,
    register_count: nat,
    s: State<W>,
    value: Value,
    world: W,
)
    requires
        known_holds(b, register_count, s),
    ensures
        raised(s, value, world) matches Step::Goes { state } ==> known_holds(
            b,
            register_count,
            state,
        ),
{
    if s.handlers.len() > 0 {
        let handler = s.handlers[s.handlers.len() - 1];
        assert(targeted(b.instructions, handler.target));
        if let Step::Goes { state } = raised(s, value, world) {
            assert forall|i: int| 0 <= i < state.handlers.len() implies targeted(
                b.instructions,
                (#[trigger] state.handlers[i]).target,
            ) by {
                assert(state.handlers[i] == s.handlers[i]);
            }
        }
    }
}

/// What is known behind an instruction that writes a register.
proof fn lemma_taken_known<W>(
    b: Body,
    register_count: nat,
    s: State<W>,
    dst: Option<Register>,
    effect: Effect<W>,
)
    requires
        known_holds(b, register_count, s),
        0 <= s.ip < b.instructions.len(),
        effect matches Effect::Gives { value, .. } ==> {
            let registers = match dst {
                Some(dst) => written(s.registers, dst, value),
                None => s.registers,
            };
            holds_in(fold_first(b, register_count, (s.ip + 1) as nat).known, registers)
        },
    ensures
        takes(s, dst, effect) matches Step::Goes { state } ==> known_holds(
            b,
            register_count,
            state,
        ),
{
    match effect {
        Effect::Gives { value, world } => {
            lemma_fold_first_shape(b, register_count, (s.ip + 1) as nat);
        },
        Effect::Raises { value, world } => {
            lemma_raised_known(b, register_count, s, value, world);
        },
    }
}

/// The instruction that folding puts into a place, and the constants that it finds there.
proof fn lemma_folded_at(b: Body, register_count: nat, ip: int)
    requires
        0 <= ip < b.instructions.len(),
    ensures
        ({
            let before = fold_first(b, register_count, ip as nat);
            let after = fold_first(b, register_count, (ip + 1) as nat);
            let all = folded(b, register_count);
            &&& after == fold_step(before, b.instructions[ip], targeted(b.instructions, ip))
            &&& all.instructions.len() == b.instructions.len()
            &&& all.instructions[ip] == after.instructions.last()
            &&& before.known.len() == register_count
            &&& after.known.len() == register_count
            &&& b.constants.is_prefix_of(before.constants)
            &&& after.constants.is_prefix_of(all.constants)
            &&& before.constants.is_prefix_of(all.constants)
        }),
{
    let n = b.instructions.len();
    lemma_fold_first_shape(b, register_count, ip as nat);
    lemma_fold_first_shape(b, register_count, (ip + 1) as nat);
    lemma_fold_first_shape(b, register_count, n);
    lemma_fold_prefix(b, register_count, (ip + 1) as nat, n);
    lemma_fold_prefix(b, register_count, ip as nat, n);
    lemma_fold_prefix(b, register_count, 0, ip as nat);
}

/// What is known before an instruction holds in a state.
proof fn lemma_entry_known<W>(b: Body, register_count: nat, s: State<W>) -> (entry: FoldState)
    requires
        known_holds(b, register_count, s),
        0 <= s.ip < b.instructions.len(),
    ensures
        entry.known == known_at(b, register_count, s.ip),
        entry.constants == fold_first(b, register_count, s.ip as nat).constants,
        holds_in(entry.known, s.registers),
        entry.known.len() == register_count,
{
    lemma_folded_at(b, register_count, s.ip);
    FoldState {
        known: known_at(b, register_count, s.ip),
        ..fold_first(b, register_count, s.ip as nat)
    }
}

/// Written registers hold what is known of them.
proof fn lemma_written_known(
    known: Seq<Option<Value>>,
    registers: Seq<Value>,
    dst: Register,
    value: Value,
    result: Option<Value>,
)
    requires
        holds_in(known, registers),
        result matches Some(v) ==> v == value,
    ensures
        holds_in(assigned(known, dst, result), written(registers, dst, value)),
{
    let after = assigned(known, dst, result);
    let now = written(registers, dst, value);
    assert forall|i: int| 0 <= i < after.len() implies (#[trigger] after[i] matches Some(v)
        ==> now[i] == v) by {
        assert(known[i] matches Some(v) ==> registers[i] == v);
    }
}

/// A value that folding has computed is what the instruction computes.
proof fn lemma_result_step<W>(
    b: Body,
    register_count: nat,
    s: State<W>,
    e: Effects<W>,
    dst: Register,
    result: Option<Value>,
    effect: Effect<W>,
)
    requires
        known_holds(b, register_count, s),
        0 <= s.ip < b.instructions.len(),
        does(b.instructions[s.ip], b.constants, s, e) == takes(s, Some(dst), effect),
        does(b.instructions[s.ip], folded(b, register_count).constants, s, e) == takes(
            s,
            Some(dst),
            effect,
        ),
        fold_first(b, register_count, (s.ip + 1) as nat) == after_result(
            (FoldState {
                known: known_at(b, register_count, s.ip),
                ..fold_first(b, register_count, s.ip as nat)
            }),
            b.instructions[s.ip],
            dst,
            result,
        ),
        result matches Some(value) ==> effect == (Effect::Gives { value, world: s.world }),
    ensures
        next(folded(b, register_count), s, e) == next(b, s, e),
        next(b, s, e) matches Step::Goes { state } ==> known_holds(b, register_count, state),
{
    lemma_folded_at(b, register_count, s.ip);
    let entry = lemma_entry_known(b, register_count, s);
    let before = fold_first(b, register_count, s.ip as nat);
    let after = fold_first(b, register_count, (s.ip + 1) as nat);
    let all = folded(b, register_count);
    if result is Some && before.constants.len() <= u16::MAX {
        let value = result->0;
        let constant = ConstId(before.constants.len() as u16);
        assert(all.instructions[s.ip] == (Instruction::LoadConst { dst, constant }));
        assert(all.constants[constant.0 as int] == value) by {
            assert(after.constants[constant.0 as int] == value);
        }
        lemma_written_known(entry.known, s.registers, dst, value, result);
    } else {
        assert(all.instructions[s.ip] == b.instructions[s.ip]);
        if let Effect::Gives { value, .. } = effect {
            lemma_written_known(entry.known, s.registers, dst, value, None);
        }
    }
    lemma_taken_known(b, register_count, s, Some(dst), effect);
}

/// Folding changes nothing in one step, and what it knows holds behind the step.
#[verifier::rlimit(40)]
proof fn lemma_folded_step<W>(b: Body, register_count: nat, s: State<W>, e: Effects<W>)
    requires
        constants_exist(b),
        known_holds(b, register_count, s),
        0 <= s.ip < b.instructions.len(),
    ensures
        next(folded(b, register_count), s, e) == next(b, s, e),
        next(b, s, e) matches Step::Goes { state } ==> known_holds(b, register_count, state),
{
    lemma_folded_at(b, register_count, s.ip);
    lemma_targeted(b, s.ip);
    let entry = lemma_entry_known(b, register_count, s);
    let instruction = b.instructions[s.ip];
    let all = folded(b, register_count);
    let after = fold_first(b, register_count, (s.ip + 1) as nat);
    match shape(instruction) {
        Shape::Load { dst, constant } => {
            assert(all.instructions[s.ip] == instruction);
            let value = b.constants[constant.0 as int];
            assert(constant.0 < b.constants.len());
            assert(all.constants[constant.0 as int] == value);
            assert(entry.constants[constant.0 as int] == value);
            lemma_written_known(entry.known, s.registers, dst, value, Some(value));
            lemma_taken_known(
                b,
                register_count,
                s,
                Some(dst),
                Effect::Gives { value, world: s.world },
            );
        },
        Shape::Copy { dst, src } => {
            assert(all.instructions[s.ip] == instruction);
            let value = content(s.registers, src);
            let known = known_value(entry.known, src);
            if known is Some {
                assert(entry.known[src.0 as int] matches Some(v) ==> s.registers[src.0 as int] == v);
            }
            lemma_written_known(entry.known, s.registers, dst, value, known);
            lemma_taken_known(
                b,
                register_count,
                s,
                Some(dst),
                Effect::Gives { value, world: s.world },
            );
        },
        Shape::Binary { op, dst, lhs, rhs } => {
            let x = content(s.registers, lhs);
            let y = content(s.registers, rhs);
            let a = known_value(entry.known, lhs);
            let c = known_value(entry.known, rhs);
            if a is Some {
                assert(entry.known[lhs.0 as int] matches Some(v) ==> s.registers[lhs.0 as int] == v);
            }
            if c is Some {
                assert(entry.known[rhs.0 as int] matches Some(v) ==> s.registers[rhs.0 as int] == v);
            }
            let result = match (a, c) {
                (Some(a), Some(c)) => fold_result(op, a, c),
                _ => None,
            };
            lemma_result_step(
                b,
                register_count,
                s,
                e,
                dst,
                result,
                combined(op, x, y, s.world, e),
            );
        },
        Shape::Negate { dst, src } => {
            let x = content(s.registers, src);
            let a = known_value(entry.known, src);
            if a is Some {
                assert(entry.known[src.0 as int] matches Some(v) ==> s.registers[src.0 as int] == v);
            }
            lemma_result_step(
                b,
                register_count,
                s,
                e,
                dst,
                negated(a),
                opposite(x, s.world, e),
            );
        },
        Shape::Opaque { written: register, resets } => {
            assert(all.instructions[s.ip] == instruction);
            lemma_opaque_step(b, register_count, s, e);
        },
    }
}

/// Behind an instruction that folding does not evaluate, what it knows holds.
proof fn lemma_opaque_step<W>(b: Body, register_count: nat, s: State<W>, e: Effects<W>)
    requires
        known_holds(b, register_count, s),
        0 <= s.ip < b.instructions.len(),
        shape(b.instructions[s.ip]) is Opaque,
        folded(b, register_count).instructions[s.ip] == b.instructions[s.ip],
        folded(b, register_count).instructions.len() == b.instructions.len(),
    ensures
        next(folded(b, register_count), s, e) == next(b, s, e),
        next(b, s, e) matches Step::Goes { state } ==> known_holds(b, register_count, state),
{
    lemma_folded_at(b, register_count, s.ip);
    lemma_targeted(b, s.ip);
    let entry = lemma_entry_known(b, register_count, s);
    let instruction = b.instructions[s.ip];
    let after = fold_first(b, register_count, (s.ip + 1) as nat);
    match instruction {
        Instruction::Jump { .. } => {},
        Instruction::JumpIfFalse { condition, .. } => {
            lemma_branch_known(b, register_count, s, e, content(s.registers, condition), false);
        },
        Instruction::JumpIfTrue { condition, .. } => {
            lemma_branch_known(b, register_count, s, e, content(s.registers, condition), true);
        },
        Instruction::PushHandler { error, target } => {
            if let Step::Goes { state } = next(b, s, e) {
                assert forall|i: int| 0 <= i < state.handlers.len() implies targeted(
                    b.instructions,
                    (#[trigger] state.handlers[i]).target,
                ) by {
                    if i < s.handlers.len() {
                        assert(state.handlers[i] == s.handlers[i]);
                    }
                }
            }
        },
        Instruction::PopHandler => {
            if let Step::Goes { state } = next(b, s, e) {
                assert forall|i: int| 0 <= i < state.handlers.len() implies targeted(
                    b.instructions,
                    (#[trigger] state.handlers[i]).target,
                ) by {
                    assert(state.handlers[i] == s.handlers[i]);
                }
            }
        },
        Instruction::Throw { src } => {
            lemma_raised_known(b, register_count, s, content(s.registers, src), s.world);
        },
        Instruction::Return { .. } => {},
        _ => {
            if let Shape::Opaque { written: register, resets } = shape(instruction) {
                let effect = (e.other)(instruction@, s.registers, s.world);
                if let Effect::Gives { value, .. } = effect {
                    if let Some(dst) = register {
                        lemma_written_known(entry.known, s.registers, dst, value, None);
                    }
                }
                lemma_taken_known(b, register_count, s, register, effect);
            }
        },
    }
}

proof fn lemma_branch_known<W>(
    b: Body,
    register_count: nat,
    s: State<W>,
    e: Effects<W>,
    condition: Value,
    wanted: bool,
)
    requires
        known_holds(b, register_count, s),
        0 <= s.ip < b.instructions.len(),
        b.instructions[s.ip]@.target() is Some,
        fold_first(b, register_count, (s.ip + 1) as nat).known == nothing_known(register_count),
    ensures
        branches(s, condition, wanted, (b.instructions[s.ip]@.target()->0).0 as int, e)
            matches Step::Goes { state } ==> known_holds(b, register_count, state),
{
    lemma_targeted(b, s.ip);
    if let Test::Raises { value, world } = (e.test)(condition, s.world) {
        lemma_raised_known(b, register_count, s, value, world);
    }
}

proof fn lemma_folded_run<W>(b: Body, register_count: nat, s: State<W>, e: Effects<W>, n: nat)
    requires
        constants_exist(b),
        known_holds(b, register_count, s),
    ensures
        run(folded(b, register_count), s, e, n) == run(b, s, e, n),
    decreases n,
{
    lemma_fold_first_shape(b, register_count, b.instructions.len());
    if n > 0 {
        if 0 <= s.ip < b.instructions.len() {
            lemma_folded_step(b, register_count, s, e);
        }
        if let Step::Goes { state } = next(b, s, e) {
            lemma_folded_run(b, register_count, state, e, (n - 1) as nat);
        }
    }
}

// ---------------------------------------------------------------------------
// Jump chains
// ---------------------------------------------------------------------------

/// Where control arrives when it goes to a position.
pub open spec fn arrives(b: Body, target: int) -> int {
    chain_end(b.instructions, JumpTarget(target as u32), Seq::empty()).0 as int
}

/// The handlers with their targets behind unconditional jumps.
pub open spec fn handlers_behind(b: Body, handlers: Seq<Handler>) -> Seq<Handler> {
    Seq::new(
        handlers.len(),
        |i: int|
            Handler { register: handlers[i].register, target: arrives(b, handlers[i].target) },
    )
}

/// The state of the collapsed code at the same place.
pub open spec fn behind<W>(b: Body, s: State<W>) -> State<W> {
    State { handlers: handlers_behind(b, s.handlers), ..s }
}

/// Handlers go to positions that jump targets can name.
pub open spec fn handlers_fit<W>(s: State<W>) -> bool {
    forall|i: int|
        0 <= i < s.handlers.len() ==> 0 <= (#[trigger] s.handlers[i]).target <= u32::MAX
}

/// A state of the collapsed code is at the same place, or at the end of the jumps that begin there.
pub open spec fn follows<W>(b: Body, s: State<W>, t: State<W>) -> bool {
    &&& handlers_fit(s)
    &&& t == behind(b, s) || (0 <= s.ip <= u32::MAX && t == behind(
        b,
        State { ip: arrives(b, s.ip), ..s },
    ))
}

/// Execution that ends from a place ends in the same way from the end of the jumps that begin
/// there.
proof fn lemma_chain_run<W>(
    b: Body,
    s: State<W>,
    e: Effects<W>,
    n: nat,
    ending: Ending<W>,
    target: JumpTarget,
    visited: Seq<JumpTarget>,
) -> (k: nat)
    requires
        s.ip == target.0,
        run(b, s, e, n) == Some(ending),
    ensures
        k <= n,
        run(
            b,
            (State { ip: chain_end(b.instructions, target, visited).0 as int, ..s }),
            e,
            k,
        ) == Some(ending),
    decreases b.instructions.len() + 1 - visited.len(),
{
    if visited.contains(target) || target.0 >= b.instructions.len() || visited.len()
        > b.instructions.len() {
        assert(State { ip: target.0 as int, ..s } == s);
        n
    } else {
        match b.instructions[target.0 as int] {
            Instruction::Jump { target: further } => {
                let after = State { ip: further.0 as int, ..s };
                assert(next(b, s, e) == (Step::Goes { state: after }));
                lemma_chain_run(
                    b,
                    after,
                    e,
                    (n - 1) as nat,
                    ending,
                    further,
                    visited.push(target),
                )
            },
            _ => {
                assert(State { ip: target.0 as int, ..s } == s);
                n
            },
        }
    }
}

proof fn lemma_raised_follows<W>(b: Body, s: State<W>, value: Value, world: W)
    requires
        handlers_fit(s),
    ensures
        match raised(s, value, world) {
            Step::Goes { state } => raised(behind(b, s), value, world) matches Step::Goes {
                state: other,
            } && follows(b, state, other),
            Step::Ends { ending } => raised(behind(b, s), value, world) == (Step::Ends { ending }),
        },
{
    if s.handlers.len() > 0 {
        let last = s.handlers.len() - 1;
        assert(0 <= s.handlers[last].target <= u32::MAX);
        let rest = s.handlers.drop_last();
        assert(handlers_behind(b, s.handlers).drop_last() =~= handlers_behind(b, rest));
        if let Step::Goes { state } = raised(s, value, world) {
            assert forall|i: int| 0 <= i < state.handlers.len() implies 0 <= (
            #[trigger] state.handlers[i]).target <= u32::MAX by {
                assert(state.handlers[i] == s.handlers[i]);
            }
        }
    }
}

/// One step of the collapsed code follows one step of the code.
#[verifier::rlimit(40)]
proof fn lemma_collapsed_step<W>(b: Body, s: State<W>, e: Effects<W>)
    requires
        handlers_fit(s),
    ensures
        match next(b, s, e) {
            Step::Goes { state } => next(collapsed(b), behind(b, s), e) matches Step::Goes {
                state: other,
            } && follows(b, state, other),
            Step::Ends { ending } => next(collapsed(b), behind(b, s), e) == (Step::Ends { ending }),
        },
{
    let t = behind(b, s);
    if 0 <= s.ip < b.instructions.len() {
        let instruction = b.instructions[s.ip];
        assert(collapsed(b).instructions[s.ip] == collapsed_instruction(
            b.instructions,
            instruction,
        ));
        match instruction {
            Instruction::Jump { target } => {},
            Instruction::JumpIfFalse { condition, target } => {
                if let Test::Raises { value, world } = (e.test)(
                    content(s.registers, condition),
                    s.world,
                ) {
                    lemma_raised_follows(b, s, value, world);
                }
            },
            Instruction::JumpIfTrue { condition, target } => {
                if let Test::Raises { value, world } = (e.test)(
                    content(s.registers, condition),
                    s.world,
                ) {
                    lemma_raised_follows(b, s, value, world);
                }
            },
            Instruction::PushHandler { error, target } => {
                let handler = Handler { register: error, target: target.0 as int };
                let ahead = Handler { register: error, target: arrives(b, target.0 as int) };
                assert(handlers_behind(b, s.handlers.push(handler)) =~= handlers_behind(
                    b,
                    s.handlers,
                ).push(ahead));
                if let Step::Goes { state } = next(b, s, e) {
                    assert forall|i: int| 0 <= i < state.handlers.len() implies 0 <= (
                    #[trigger] state.handlers[i]).target <= u32::MAX by {
                        if i < s.handlers.len() {
                            assert(state.handlers[i] == s.handlers[i]);
                        }
                    }
                }
            },
            Instruction::PopHandler => {
                if s.handlers.len() > 0 {
                    assert(handlers_behind(b, s.handlers).drop_last() =~= handlers_behind(
                        b,
                        s.handlers.drop_last(),
                    ));
                }
                if let Step::Goes { state } = next(b, s, e) {
                    assert forall|i: int| 0 <= i < state.handlers.len() implies 0 <= (
                    #[trigger] state.handlers[i]).target <= u32::MAX by {
                        assert(state.handlers[i] == s.handlers[i]);
                    }
                }
            },
            Instruction::Throw { src } => {
                lemma_raised_follows(b, s, content(s.registers, src), s.world);
            },
            Instruction::Return { .. } => {},
            _ => {
                assert(instruction@.target() is None);
                lemma_plain_follows(b, s, e, instruction);
            },
        }
    }
}

/// An instruction without a target does the same in both.
proof fn lemma_plain_follows<W>(b: Body, s: State<W>, e: Effects<W>, instruction: Instruction)
    requires
        handlers_fit(s),
        instruction@.target() is None,
        !(instruction is Jump || instruction is JumpIfFalse || instruction is JumpIfTrue
            || instruction is PushHandler || instruction is PopHandler || instruction is Throw
            || instruction is Return),
    ensures
        match does(instruction, b.constants, s, e) {
            Step::Goes { state } => does(instruction, b.constants, behind(b, s), e)
                matches Step::Goes { state: other } && follows(b, state, other),
            Step::Ends { ending } => does(instruction, b.constants, behind(b, s), e) == (
            Step::Ends { ending }),
        },
{
    let effect = match shape(instruction) {
        Shape::Load { dst, constant } => Effect::Gives {
            value: b.constants[constant.0 as int],
            world: s.world,
        },
        Shape::Copy { dst, src } => Effect::Gives {
            value: content(s.registers, src),
            world: s.world,
        },
        Shape::Binary { op, dst, lhs, rhs } => combined(
            op,
            content(s.registers, lhs),
            content(s.registers, rhs),
            s.world,
            e,
        ),
        Shape::Negate { dst, src } => opposite(content(s.registers, src), s.world, e),
        Shape::Opaque { written, .. } => (e.other)(instruction@, s.registers, s.world),
    };
    if let Effect::Raises { value, world } = effect {
        lemma_raised_follows(b, s, value, world);
    }
}

proof fn lemma_collapsed_run<W>(
    b: Body,
    s: State<W>,
    e: Effects<W>,
    n: nat,
    ending: Ending<W>,
) -> (m: nat)
    requires
        handlers_fit(s),
        run(b, s, e, n) == Some(ending),
    ensures
        run(collapsed(b), behind(b, s), e, m) == Some(ending),
    decreases n,
{
    let t = behind(b, s);
    lemma_collapsed_step(b, s, e);
    match next(b, s, e) {
        Step::Ends { .. } => {
            assert(run(collapsed(b), t, e, 1) == Some(ending));
            1
        },
        Step::Goes { state } => {
            if let Step::Goes { state: other } = next(collapsed(b), t, e) {
                let m = if other == behind(b, state) {
                    lemma_collapsed_run(b, state, e, (n - 1) as nat, ending)
                } else {
                    let k = lemma_chain_run(
                        b,
                        state,
                        e,
                        (n - 1) as nat,
                        ending,
                        JumpTarget(state.ip as u32),
                        Seq::empty(),
                    );
                    let ahead = State { ip: arrives(b, state.ip), ..state };
                    assert(handlers_fit(ahead));
                    lemma_collapsed_run(b, ahead, e, k, ending)
                };
                assert(run(collapsed(b), t, e, m + 1) == run(collapsed(b), other, e, m));
                m + 1
            } else {
                0
            }
        },
    }
}

/// Execution that ends from the end of some jumps ends in the same way from their beginning.
proof fn lemma_chain_back<W>(
    b: Body,
    s: State<W>,
    e: Effects<W>,
    n: nat,
    ending: Ending<W>,
    target: JumpTarget,
    visited: Seq<JumpTarget>,
) -> (k: nat)
    requires
        s.ip == target.0,
        run(
            b,
            (State { ip: chain_end(b.instructions, target, visited).0 as int, ..s }),
            e,
            n,
        ) == Some(ending),
    ensures
        run(b, s, e, k) == Some(ending),
    decreases b.instructions.len() + 1 - visited.len(),
{
    if visited.contains(target) || target.0 >= b.instructions.len() || visited.len()
        > b.instructions.len() {
        assert(State { ip: target.0 as int, ..s } == s);
        n
    } else {
        match b.instructions[target.0 as int] {
            Instruction::Jump { target: further } => {
                let after = State { ip: further.0 as int, ..s };
                let k = lemma_chain_back(b, after, e, n, ending, further, visited.push(target));
                lemma_run_after(b, s, after, e, k);
                k + 1
            },
            _ => {
                assert(State { ip: target.0 as int, ..s } == s);
                n
            },
        }
    }
}

proof fn lemma_collapsed_back<W>(
    b: Body,
    s: State<W>,
    e: Effects<W>,
    m: nat,
    ending: Ending<W>,
) -> (n: nat)
    requires
        handlers_fit(s),
        run(collapsed(b), behind(b, s), e, m) == Some(ending),
    ensures
        run(b, s, e, n) == Some(ending),
    decreases m,
{
    let t = behind(b, s);
    lemma_collapsed_step(b, s, e);
    match next(b, s, e) {
        Step::Ends { .. } => {
            assert(run(b, s, e, 1) == Some(ending));
            1
        },
        Step::Goes { state } => {
            if let Step::Goes { state: other } = next(collapsed(b), t, e) {
                let n = if other == behind(b, state) {
                    lemma_collapsed_back(b, state, e, (m - 1) as nat, ending)
                } else {
                    let ahead = State { ip: arrives(b, state.ip), ..state };
                    assert(handlers_fit(ahead));
                    let k = lemma_collapsed_back(b, ahead, e, (m - 1) as nat, ending);
                    lemma_chain_back(
                        b,
                        state,
                        e,
                        k,
                        ending,
                        JumpTarget(state.ip as u32),
                        Seq::empty(),
                    )
                };
                lemma_run_after(b, s, state, e, n);
                n + 1
            } else {
                0
            }
        },
    }
}

// ---------------------------------------------------------------------------
// Compaction
// ---------------------------------------------------------------------------

/// A move of a register to itself.
pub open spec fn moves_to_itself(instruction: Instruction) -> bool {
    instruction matches Instruction::Move { dst, src } && dst == src
}

/// Positions that may be removed: control never comes to them, or they are moves of a register to
/// itself. The positions in `skipped` are removed, and control may run through them.
pub open spec fn removable(b: Body, keep: Seq<bool>, skipped: Seq<bool>) -> bool {
    let n = b.instructions.len();
    &&& keep.len() == n
    &&& skipped.len() == n
    &&& forall|i: int|
        0 <= i < n && #[trigger] skipped[i] ==> !keep[i] && moves_to_itself(b.instructions[i])
    &&& forall|i: int|
        0 <= i < n && (#[trigger] b.instructions[i])@.target() is Some ==> {
            let t = (b.instructions[i]@.target()->0).0;
            t < n && keep[t as int]
        }
    &&& n > 0 ==> keep[0] || skipped[0]
    &&& forall|i: int|
        0 < i < n && (keep[i - 1] || skipped[i - 1]) && !ends(b.instructions[i - 1]) ==> (
        #[trigger] keep[i] || skipped[i])
}

/// Control does not run on to the next instruction.
pub open spec fn ends(instruction: Instruction) -> bool {
    instruction is Jump || instruction is Throw || instruction is Return
}

/// Where a position goes when others are removed.
pub open spec fn shifted(keep: Seq<bool>, ip: int) -> int {
    count_true(keep.take(ip)) as int
}

/// The handlers with their targets shifted.
pub open spec fn handlers_shifted(keep: Seq<bool>, handlers: Seq<Handler>) -> Seq<Handler> {
    Seq::new(
        handlers.len(),
        |i: int|
            Handler { register: handlers[i].register, target: shifted(keep, handlers[i].target) },
    )
}

/// The state of the compacted code at the same place.
pub open spec fn moved<W>(keep: Seq<bool>, s: State<W>) -> State<W> {
    State {
        ip: shifted(keep, s.ip),
        handlers: handlers_shifted(keep, s.handlers),
        ..s
    }
}

/// A state that control can come to.
pub open spec fn live<W>(b: Body, keep: Seq<bool>, skipped: Seq<bool>, s: State<W>) -> bool {
    let n = b.instructions.len();
    &&& 0 <= s.ip <= n
    &&& s.ip < n ==> keep[s.ip] || skipped[s.ip]
    &&& forall|i: int|
        0 <= i < s.handlers.len() ==> 0 <= (#[trigger] s.handlers[i]).target < n
            && keep[s.handlers[i].target]
}

/// A kept item stands at its shifted position.
proof fn lemma_kept_at<A>(items: Seq<A>, keep: Seq<bool>, i: int)
    requires
        items.len() == keep.len(),
        0 <= i < keep.len(),
        keep[i],
    ensures
        0 <= shifted(keep, i) < kept(items, keep).len(),
        kept(items, keep)[shifted(keep, i)] == items[i],
        kept(items, keep).len() == count_true(keep),
    decreases keep.len(),
{
    lemma_kept_comes_from(items, keep);
    let last = keep.len() - 1;
    let front = keep.drop_last();
    assert(keep.take(i) =~= front.take(i));
    if i < last {
        lemma_kept_at(items.drop_last(), front, i);
    } else {
        assert(keep.take(i) =~= front);
        lemma_kept_comes_from(items.drop_last(), front);
    }
}

/// The next position is shifted by one behind a kept one, and not at all behind another one.
proof fn lemma_shifted_next(keep: Seq<bool>, i: int)
    requires
        0 <= i < keep.len(),
    ensures
        shifted(keep, i + 1) == shifted(keep, i) + if keep[i] {
            1int
        } else {
            0int
        },
        shifted(keep, i) <= i,
{
    lemma_kept_next(keep, keep, i);
}

proof fn lemma_moved_target(keep: Seq<bool>, target: JumpTarget)
    requires
        target.0 < keep.len(),
        keep[target.0 as int],
    ensures
        moved_target(keep, target).0 == shifted(keep, target.0 as int),
{
    assert(some_kept_from(keep, target.0 as int));
    lemma_count_true_bound(keep.take(target.0 as int));
}

proof fn lemma_raised_moved<W>(
    b: Body,
    keep: Seq<bool>,
    skipped: Seq<bool>,
    s: State<W>,
    value: Value,
    world: W,
)
    requires
        live(b, keep, skipped, s),
    ensures
        match raised(s, value, world) {
            Step::Goes { state } => live(b, keep, skipped, state) && raised(
                moved(keep, s),
                value,
                world,
            ) == (Step::Goes { state: moved(keep, state) }),
            Step::Ends { ending } => raised(moved(keep, s), value, world) == (Step::Ends { ending }),
        },
{
    if s.handlers.len() > 0 {
        let last = s.handlers.len() - 1;
        assert(0 <= s.handlers[last].target < b.instructions.len());
        let rest = s.handlers.drop_last();
        assert(handlers_shifted(keep, s.handlers).drop_last() =~= handlers_shifted(keep, rest));
        if let Step::Goes { state } = raised(s, value, world) {
            assert forall|i: int| 0 <= i < state.handlers.len() implies 0 <= (
            #[trigger] state.handlers[i]).target < b.instructions.len()
                && keep[state.handlers[i].target] by {
                assert(state.handlers[i] == s.handlers[i]);
            }
        }
    }
}

/// What is known of a kept position in the compacted code.
spec fn in_place<W>(b: Body, keep: Seq<bool>, skipped: Seq<bool>, s: State<W>) -> bool {
    let n = b.instructions.len();
    let instruction = b.instructions[s.ip];
    let out = compacted(b, keep);
    &&& keep.len() == n
    &&& 0 <= s.ip < n
    &&& keep[s.ip]
    &&& out.constants == b.constants
    &&& 0 <= shifted(keep, s.ip) < out.instructions.len()
    &&& out.instructions[shifted(keep, s.ip)] == moved_instruction(keep, instruction)
    &&& shifted(keep, s.ip + 1) == shifted(keep, s.ip) + 1
    &&& !ends(instruction) && s.ip + 1 < n ==> keep[s.ip + 1] || skipped[s.ip + 1]
    &&& instruction@.target() matches Some(target) ==> {
        &&& target.0 < n
        &&& keep[target.0 as int]
        &&& moved_target(keep, target).0 == shifted(keep, target.0 as int)
    }
}

proof fn lemma_in_place<W>(b: Body, keep: Seq<bool>, skipped: Seq<bool>, s: State<W>)
    requires
        removable(b, keep, skipped),
        0 <= s.ip < b.instructions.len(),
        keep[s.ip],
        count_true(keep) != keep.len(),
    ensures
        in_place(b, keep, skipped, s),
{
    let instruction = b.instructions[s.ip];
    lemma_kept_at(moved_instructions(keep, b.instructions), keep, s.ip);
    lemma_shifted_next(keep, s.ip);
    if !ends(instruction) && s.ip + 1 < b.instructions.len() {
        assert(keep[s.ip + 1] || skipped[s.ip + 1]);
    }
    if let Some(target) = instruction@.target() {
        lemma_moved_target(keep, target);
    }
}

/// A step of the compacted code goes with a step of the code.
spec fn steps_along<W>(
    b: Body,
    keep: Seq<bool>,
    skipped: Seq<bool>,
    step: Step<W>,
    other: Step<W>,
) -> bool {
    match step {
        Step::Goes { state } => live(b, keep, skipped, state) && other == (Step::Goes {
            state: moved(keep, state),
        }),
        Step::Ends { ending } => other == (Step::Ends { ending }),
    }
}

proof fn lemma_branch_moved<W>(
    b: Body,
    keep: Seq<bool>,
    skipped: Seq<bool>,
    s: State<W>,
    e: Effects<W>,
    condition: Value,
    wanted: bool,
    target: JumpTarget,
)
    requires
        live(b, keep, skipped, s),
        in_place(b, keep, skipped, s),
        b.instructions[s.ip]@.target() == Some(target),
        !ends(b.instructions[s.ip]),
    ensures
        steps_along(
            b,
            keep,
            skipped,
            branches(s, condition, wanted, target.0 as int, e),
            branches(moved(keep, s), condition, wanted, moved_target(keep, target).0 as int, e),
        ),
{
    if let Test::Raises { value, world } = (e.test)(condition, s.world) {
        lemma_raised_moved(b, keep, skipped, s, value, world);
    }
}

proof fn lemma_push_moved<W>(
    b: Body,
    keep: Seq<bool>,
    skipped: Seq<bool>,
    s: State<W>,
    e: Effects<W>,
)
    requires
        live(b, keep, skipped, s),
        in_place(b, keep, skipped, s),
        b.instructions[s.ip] is PushHandler,
    ensures
        steps_along(
            b,
            keep,
            skipped,
            next(b, s, e),
            next(compacted(b, keep), moved(keep, s), e),
        ),
{
    if let Instruction::PushHandler { error, target } = b.instructions[s.ip] {
        let handler = Handler { register: error, target: target.0 as int };
        let ahead = Handler { register: error, target: shifted(keep, target.0 as int) };
        assert(handlers_shifted(keep, s.handlers.push(handler)) =~= handlers_shifted(
            keep,
            s.handlers,
        ).push(ahead));
        if let Step::Goes { state } = next(b, s, e) {
            assert forall|i: int| 0 <= i < state.handlers.len() implies 0 <= (
            #[trigger] state.handlers[i]).target < b.instructions.len()
                && keep[state.handlers[i].target] by {
                if i < s.handlers.len() {
                    assert(state.handlers[i] == s.handlers[i]);
                }
            }
        }
    }
}

proof fn lemma_pop_moved<W>(
    b: Body,
    keep: Seq<bool>,
    skipped: Seq<bool>,
    s: State<W>,
    e: Effects<W>,
)
    requires
        live(b, keep, skipped, s),
        in_place(b, keep, skipped, s),
        b.instructions[s.ip] is PopHandler,
    ensures
        steps_along(
            b,
            keep,
            skipped,
            next(b, s, e),
            next(compacted(b, keep), moved(keep, s), e),
        ),
{
    if s.handlers.len() > 0 {
        assert(handlers_shifted(keep, s.handlers).drop_last() =~= handlers_shifted(
            keep,
            s.handlers.drop_last(),
        ));
    }
    if let Step::Goes { state } = next(b, s, e) {
        assert forall|i: int| 0 <= i < state.handlers.len() implies 0 <= (
        #[trigger] state.handlers[i]).target < b.instructions.len()
            && keep[state.handlers[i].target] by {
            assert(state.handlers[i] == s.handlers[i]);
        }
    }
}

/// One step of the compacted code from a kept position.
proof fn lemma_compacted_step<W>(
    b: Body,
    keep: Seq<bool>,
    skipped: Seq<bool>,
    s: State<W>,
    e: Effects<W>,
)
    requires
        live(b, keep, skipped, s),
        in_place(b, keep, skipped, s),
    ensures
        steps_along(
            b,
            keep,
            skipped,
            next(b, s, e),
            next(compacted(b, keep), moved(keep, s), e),
        ),
{
    let instruction = b.instructions[s.ip];
    match instruction {
        Instruction::Jump { target } => {
            assert(instruction@.target() == Some(target));
        },
        Instruction::JumpIfFalse { condition, target } => {
            assert(instruction@.target() == Some(target));
            let value = content(s.registers, condition);
            lemma_branch_moved(b, keep, skipped, s, e, value, false, target);
        },
        Instruction::JumpIfTrue { condition, target } => {
            assert(instruction@.target() == Some(target));
            let value = content(s.registers, condition);
            lemma_branch_moved(b, keep, skipped, s, e, value, true, target);
        },
        Instruction::PushHandler { .. } => lemma_push_moved(b, keep, skipped, s, e),
        Instruction::PopHandler => lemma_pop_moved(b, keep, skipped, s, e),
        Instruction::Throw { src } => {
            lemma_raised_moved(b, keep, skipped, s, content(s.registers, src), s.world);
        },
        Instruction::Return { .. } => {},
        _ => {
            assert(instruction@.target() is None);
            lemma_plain_moved(b, keep, skipped, s, e, instruction);
        },
    }
}

/// An instruction without a target does the same in the compacted code.
proof fn lemma_plain_moved<W>(
    b: Body,
    keep: Seq<bool>,
    skipped: Seq<bool>,
    s: State<W>,
    e: Effects<W>,
    instruction: Instruction,
)
    requires
        live(b, keep, skipped, s),
        s.ip < b.instructions.len(),
        keep.len() == b.instructions.len(),
        keep[s.ip],
        s.ip + 1 < b.instructions.len() ==> keep[s.ip + 1] || skipped[s.ip + 1],
        instruction@.target() is None,
        !(instruction is Jump || instruction is JumpIfFalse || instruction is JumpIfTrue
            || instruction is PushHandler || instruction is PopHandler || instruction is Throw
            || instruction is Return),
    ensures
        match does(instruction, b.constants, s, e) {
            Step::Goes { state } => live(b, keep, skipped, state) && does(
                instruction,
                b.constants,
                moved(keep, s),
                e,
            ) == (Step::Goes { state: moved(keep, state) }),
            Step::Ends { ending } => does(instruction, b.constants, moved(keep, s), e) == (
            Step::Ends { ending }),
        },
{
    lemma_shifted_next(keep, s.ip);
    let effect = match shape(instruction) {
        Shape::Load { dst, constant } => Effect::Gives {
            value: b.constants[constant.0 as int],
            world: s.world,
        },
        Shape::Copy { dst, src } => Effect::Gives {
            value: content(s.registers, src),
            world: s.world,
        },
        Shape::Binary { op, dst, lhs, rhs } => combined(
            op,
            content(s.registers, lhs),
            content(s.registers, rhs),
            s.world,
            e,
        ),
        Shape::Negate { dst, src } => opposite(content(s.registers, src), s.world, e),
        Shape::Opaque { written, .. } => (e.other)(instruction@, s.registers, s.world),
    };
    if let Effect::Raises { value, world } = effect {
        lemma_raised_moved(b, keep, skipped, s, value, world);
    }
}

/// Control runs through a skipped position without an effect.
proof fn lemma_skipped_step<W>(
    b: Body,
    keep: Seq<bool>,
    skipped: Seq<bool>,
    s: State<W>,
    e: Effects<W>,
)
    requires
        removable(b, keep, skipped),
        live(b, keep, skipped, s),
        s.ip < b.instructions.len(),
        !keep[s.ip],
    ensures
        ({
            let after = State { ip: s.ip + 1, ..s };
            &&& next(b, s, e) == (Step::Goes { state: after })
            &&& live(b, keep, skipped, after)
            &&& moved(keep, after) == moved(keep, s)
        }),
{
    assert(skipped[s.ip]);
    lemma_shifted_next(keep, s.ip);
    if let Instruction::Move { dst, .. } = b.instructions[s.ip] {
        assert(written(s.registers, dst, content(s.registers, dst)) =~= s.registers);
        if s.ip + 1 < b.instructions.len() {
            assert(keep[s.ip + 1] || skipped[s.ip + 1]);
        }
    }
}

/// At the end of the code, the compacted code has ended too.
proof fn lemma_compacted_end<W>(b: Body, keep: Seq<bool>, s: State<W>, e: Effects<W>)
    requires
        keep.len() == b.instructions.len(),
        s.ip == b.instructions.len(),
        count_true(keep) != keep.len(),
    ensures
        next(compacted(b, keep), moved(keep, s), e) == (Step::Ends {
            ending: Ending::FellOff { world: s.world },
        }),
        next(b, s, e) == (Step::Ends { ending: Ending::FellOff { world: s.world } }),
{
    lemma_kept_comes_from(moved_instructions(keep, b.instructions), keep);
    assert(keep.take(s.ip) =~= keep);
}

/// One more step in front of an execution.
proof fn lemma_run_after<W>(b: Body, s: State<W>, t: State<W>, e: Effects<W>, m: nat)
    requires
        next(b, s, e) == (Step::Goes { state: t }),
    ensures
        run(b, s, e, m + 1) == run(b, t, e, m),
{
}

proof fn lemma_compacted_run<W>(
    b: Body,
    keep: Seq<bool>,
    skipped: Seq<bool>,
    s: State<W>,
    e: Effects<W>,
    n: nat,
    ending: Ending<W>,
) -> (m: nat)
    requires
        removable(b, keep, skipped),
        live(b, keep, skipped, s),
        count_true(keep) != keep.len(),
        run(b, s, e, n) == Some(ending),
    ensures
        run(compacted(b, keep), moved(keep, s), e, m) == Some(ending),
    decreases n,
{
    let t = moved(keep, s);
    let out = compacted(b, keep);
    if s.ip == b.instructions.len() {
        lemma_compacted_end(b, keep, s, e);
        assert(run(out, t, e, 1) == Some(ending));
        1
    } else if keep[s.ip] {
        lemma_in_place(b, keep, skipped, s);
        lemma_compacted_step(b, keep, skipped, s, e);
        match next(b, s, e) {
            Step::Ends { .. } => {
                assert(run(out, t, e, 1) == Some(ending));
                1
            },
            Step::Goes { state } => {
                let m = lemma_compacted_run(
                    b,
                    keep,
                    skipped,
                    state,
                    e,
                    (n - 1) as nat,
                    ending,
                );
                lemma_run_after(out, t, moved(keep, state), e, m);
                m + 1
            },
        }
    } else {
        lemma_skipped_step(b, keep, skipped, s, e);
        let after = State { ip: s.ip + 1, ..s };
        lemma_compacted_run(b, keep, skipped, after, e, (n - 1) as nat, ending)
    }
}

proof fn lemma_compacted_back<W>(
    b: Body,
    keep: Seq<bool>,
    skipped: Seq<bool>,
    s: State<W>,
    e: Effects<W>,
    m: nat,
    ending: Ending<W>,
) -> (n: nat)
    requires
        removable(b, keep, skipped),
        live(b, keep, skipped, s),
        count_true(keep) != keep.len(),
        run(compacted(b, keep), moved(keep, s), e, m) == Some(ending),
    ensures
        run(b, s, e, n) == Some(ending),
    decreases m, b.instructions.len() - s.ip,
{
    if s.ip == b.instructions.len() {
        lemma_compacted_end(b, keep, s, e);
        assert(run(b, s, e, 1) == Some(ending));
        1
    } else if keep[s.ip] {
        lemma_in_place(b, keep, skipped, s);
        lemma_compacted_step(b, keep, skipped, s, e);
        match next(b, s, e) {
            Step::Ends { .. } => {
                assert(run(b, s, e, 1) == Some(ending));
                1
            },
            Step::Goes { state } => {
                let n = lemma_compacted_back(
                    b,
                    keep,
                    skipped,
                    state,
                    e,
                    (m - 1) as nat,
                    ending,
                );
                lemma_run_after(b, s, state, e, n);
                n + 1
            },
        }
    } else {
        lemma_skipped_step(b, keep, skipped, s, e);
        let after = State { ip: s.ip + 1, ..s };
        let n = lemma_compacted_back(b, keep, skipped, after, e, m, ending);
        lemma_run_after(b, s, after, e, n);
        n + 1
    }
}

// ---------------------------------------------------------------------------
// All passes
// ---------------------------------------------------------------------------

/// All jumps stay inside the code.
pub open spec fn jumps_inside(b: Body) -> bool {
    forall|i: int|
        0 <= i < b.instructions.len() ==> ((#[trigger] b.instructions[i])@.target() matches Some(t)
            ==> t.0 < b.instructions.len())
}

proof fn lemma_moves_removable(b: Body)
    requires
        jumps_inside(b),
    ensures
        ({
            let keep = without_redundant_moves(b.instructions);
            removable(b, keep, Seq::new(keep.len(), |i: int| !keep[i]))
        }),
{
    let keep = without_redundant_moves(b.instructions);
    let skipped = Seq::new(keep.len(), |i: int| !keep[i]);
    assert forall|i: int|
        0 <= i < b.instructions.len() && (#[trigger] b.instructions[i])@.target() is Some implies {
        let t = (b.instructions[i]@.target()->0).0;
        t < b.instructions.len() && keep[t as int]
    } by {
        lemma_targeted(b, i);
    }
}

proof fn lemma_unreached_removable(b: Body)
    requires
        jumps_inside(b),
    ensures
        ({
            let keep = needed_positions(b.instructions);
            removable(b, keep, Seq::new(keep.len(), |i: int| false))
        }),
{
    let keep = needed_positions(b.instructions);
    lemma_last_leaving(b.instructions, b.instructions.len());
    assert forall|i: int|
        0 <= i < b.instructions.len() && (#[trigger] b.instructions[i])@.target() is Some implies {
        let t = (b.instructions[i]@.target()->0).0;
        t < b.instructions.len() && keep[t as int]
    } by {
        lemma_targeted(b, i);
    }
}

proof fn lemma_compacted_ends<W>(
    b: Body,
    keep: Seq<bool>,
    skipped: Seq<bool>,
    registers: Seq<Value>,
    world: W,
    e: Effects<W>,
    ending: Ending<W>,
)
    requires
        removable(b, keep, skipped),
    ensures
        ends_with(b, entered(registers, world), e, ending) <==> ends_with(
            compacted(b, keep),
            entered(registers, world),
            e,
            ending,
        ),
{
    let s = entered(registers, world);
    let out = compacted(b, keep);
    if count_true(keep) != keep.len() {
        assert(keep.take(0) =~= Seq::empty());
        assert(handlers_shifted(keep, s.handlers) =~= s.handlers);
        assert(moved(keep, s) == s);
        if ends_with(b, s, e, ending) {
            let n = choose|n: nat| #[trigger] run(b, s, e, n) == Some(ending);
            let m = lemma_compacted_run(b, keep, skipped, s, e, n, ending);
            assert(run(out, s, e, m) == Some(ending));
        }
        if ends_with(out, s, e, ending) {
            let m = choose|m: nat| #[trigger] run(out, s, e, m) == Some(ending);
            let n = lemma_compacted_back(b, keep, skipped, s, e, m, ending);
            assert(run(b, s, e, n) == Some(ending));
        }
    }
}

/// A pass preserves how a chunk ends.
proof fn lemma_pass_ends<W>(
    b: Body,
    register_count: nat,
    pass: Pass,
    registers: Seq<Value>,
    world: W,
    e: Effects<W>,
    ending: Ending<W>,
)
    requires
        constants_exist(b),
        jumps_inside(b),
        registers.len() == register_count,
    ensures
        ends_with(b, entered(registers, world), e, ending) <==> ends_with(
            pass.after(b, register_count),
            entered(registers, world),
            e,
            ending,
        ),
{
    let s = entered(registers, world);
    let out = pass.after(b, register_count);
    match pass {
        Pass::FoldConstants => {
            if b.instructions.len() > 0 {
                assert(holds_in(known_at(b, register_count, 0), registers));
            }
            assert forall|n: nat| #[trigger] run(out, s, e, n) == run(b, s, e, n) by {
                lemma_folded_run(b, register_count, s, e, n);
            }
            lemma_same_runs(b, out, s, e, ending);
        },
        Pass::SpecializeIntegers => {
            assert forall|n: nat| #[trigger] run(out, s, e, n) == run(b, s, e, n) by {
                lemma_specialized_run(b, s, e, n);
            }
            lemma_same_runs(b, out, s, e, ending);
        },
        Pass::RemoveRedundantMoves => {
            lemma_moves_removable(b);
            let keep = without_redundant_moves(b.instructions);
            let skipped = Seq::new(keep.len(), |i: int| !keep[i]);
            lemma_compacted_ends(b, keep, skipped, registers, world, e, ending);
        },
        Pass::RemoveUnreachable => {
            lemma_unreached_removable(b);
            let keep = needed_positions(b.instructions);
            let skipped = Seq::new(keep.len(), |i: int| false);
            lemma_compacted_ends(b, keep, skipped, registers, world, e, ending);
        },
        Pass::CollapseJumpChains | Pass::CollapseJumpChainsAgain => {
            assert(behind(b, s).handlers =~= s.handlers);
            assert(behind(b, s) == s);
            if ends_with(b, s, e, ending) {
                let n = choose|n: nat| #[trigger] run(b, s, e, n) == Some(ending);
                let m = lemma_collapsed_run(b, s, e, n, ending);
                assert(run(out, s, e, m) == Some(ending));
            }
            if ends_with(out, s, e, ending) {
                let m = choose|m: nat| #[trigger] run(out, s, e, m) == Some(ending);
                let n = lemma_collapsed_back(b, s, e, m, ending);
                assert(run(b, s, e, n) == Some(ending));
            }
        },
    }
}

proof fn lemma_same_runs<W>(b: Body, out: Body, s: State<W>, e: Effects<W>, ending: Ending<W>)
    requires
        forall|n: nat| #[trigger] run(out, s, e, n) == run(b, s, e, n),
    ensures
        ends_with(b, s, e, ending) <==> ends_with(out, s, e, ending),
{
    if ends_with(b, s, e, ending) {
        let n = choose|n: nat| #[trigger] run(b, s, e, n) == Some(ending);
        assert(run(out, s, e, n) == Some(ending));
    }
    if ends_with(out, s, e, ending) {
        let n = choose|n: nat| #[trigger] run(out, s, e, n) == Some(ending);
        assert(run(b, s, e, n) == Some(ending));
    }
}

/// Sound code has its constants, and its jumps stay inside.
proof fn lemma_sound_code(frame: Chunk, b: Body)
    requires
        sound(frame, b),
    ensures
        constants_exist(b),
        jumps_inside(b),
{
    lemma_targets_in_range(frame, b);
    let c = with_body(frame, b);
    assert forall|i: int| 0 <= i < b.instructions.len() implies (#[trigger] b.instructions[i]
        matches Instruction::LoadConst { constant, .. } ==> constant.0 < b.constants.len()) by {
        assert(instruction_error(c, b.instructions[i]@) is None);
        if let Instruction::LoadConst { dst, constant } = b.instructions[i] {
            assert(b.instructions[i]@.constant() == Some(constant));
        }
    }
}

proof fn lemma_passes_end<W>(
    frame: Chunk,
    b: Body,
    n: nat,
    registers: Seq<Value>,
    world: W,
    e: Effects<W>,
    ending: Ending<W>,
)
    requires
        sound(frame, b),
        n <= all_passes().len(),
        registers.len() == frame.register_count,
    ensures
        ends_with(b, entered(registers, world), e, ending) <==> ends_with(
            after_passes(b, frame.register_count as nat, n),
            entered(registers, world),
            e,
            ending,
        ),
    decreases n,
{
    if n > 0 {
        let before = after_passes(b, frame.register_count as nat, (n - 1) as nat);
        lemma_passes_end(frame, b, (n - 1) as nat, registers, world, e, ending);
        lemma_passes_sound(frame, b, (n - 1) as nat);
        lemma_sound_code(frame, before);
        lemma_pass_ends(
            before,
            frame.register_count as nat,
            all_passes()[n - 1],
            registers,
            world,
            e,
            ending,
        );
    }
}

/// Optimization preserves execution. Whatever calls, heap objects and captures do: a valid chunk
/// returns a value, leaves with a raised one or runs behind its end if and only if the optimized
/// chunk does the same, with the same value and the same effects on the world.
pub proof fn optimization_preserves_execution<W>(
    before: Chunk,
    after: Chunk,
    registers: Seq<Value>,
    world: W,
    e: Effects<W>,
    ending: Ending<W>,
)
    requires
        valid_chunk(before@),
        same_frame(after, before),
        body(after) == optimized(body(before), before.register_count as nat),
        registers.len() == before.register_count,
    ensures
        ends_with(body(before), entered(registers, world), e, ending) <==> ends_with(
            body(after),
            entered(registers, world),
            e,
            ending,
        ),
{
    let b = body(before);
    assert(with_body(before, b) == before@);
    lemma_sound(before, b);
    lemma_passes_end(before, b, all_passes().len(), registers, world, e, ending);
}

} // verus!
