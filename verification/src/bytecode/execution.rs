//! What executing a chunk means. Calls, heap objects and captures are left open: whatever they do
//! is a parameter of the meaning.

use vstd::prelude::*;

use crate::bytecode::instruction::{Instruction, InstructionView, Register};
use crate::bytecode::optimizer::{fold_result, negated, shape, BinaryOp, Body, Shape};
use crate::value::Value;

verus! {

/// What an open operation does: it gives a value, or it raises one.
pub enum Effect<W> {
    Gives { value: Value, world: W },
    Raises { value: Value, world: W },
}

/// Whether a condition that is no boolean counts as true, or what it raises.
pub enum Test<W> {
    Truth { holds: bool },
    Raises { value: Value, world: W },
}

/// The open operations: on values that folding does not evaluate, on conditions that are no
/// booleans, and for all other instructions.
#[verifier::reject_recursive_types(W)]
pub struct Effects<W> {
    pub binary: spec_fn(BinaryOp, Value, Value, W) -> Effect<W>,
    pub negate: spec_fn(Value, W) -> Effect<W>,
    pub test: spec_fn(Value, W) -> Test<W>,
    pub other: spec_fn(InstructionView, Seq<Value>, W) -> Effect<W>,
}

/// A place that control goes to when a value is raised, and the register that takes the value.
pub struct Handler {
    pub register: Register,
    pub target: int,
}

/// The state of a function while it executes. The world is all that lies outside of its registers.
pub struct State<W> {
    pub ip: int,
    pub registers: Seq<Value>,
    pub handlers: Seq<Handler>,
    pub world: W,
}

/// How a function ends.
pub enum Ending<W> {
    Returned { value: Value, world: W },
    Uncaught { value: Value, world: W },
    /// Control ran behind the last instruction.
    FellOff { world: W },
}

/// What follows one instruction.
pub enum Step<W> {
    Goes { state: State<W> },
    Ends { ending: Ending<W> },
}

/// The content of a register.
pub open spec fn content(registers: Seq<Value>, register: Register) -> Value {
    if register.0 < registers.len() {
        registers[register.0 as int]
    } else {
        Value::Nil
    }
}

/// The registers after one has been written.
pub open spec fn written(registers: Seq<Value>, register: Register, value: Value) -> Seq<Value> {
    if register.0 < registers.len() {
        registers.update(register.0 as int, value)
    } else {
        registers
    }
}

/// A raised value goes to the innermost handler, or leaves the function.
pub open spec fn raised<W>(s: State<W>, value: Value, world: W) -> Step<W> {
    if s.handlers.len() == 0 {
        Step::Ends { ending: Ending::Uncaught { value, world } }
    } else {
        let handler = s.handlers.last();
        Step::Goes {
            state: State {
                ip: handler.target,
                registers: written(s.registers, handler.register, value),
                handlers: s.handlers.drop_last(),
                world,
            },
        }
    }
}

/// The next instruction follows, with other registers and another world.
pub open spec fn goes_on<W>(s: State<W>, registers: Seq<Value>, world: W) -> Step<W> {
    Step::Goes { state: State { ip: s.ip + 1, registers, world, ..s } }
}

/// Control goes elsewhere.
pub open spec fn goes_to<W>(s: State<W>, target: int) -> Step<W> {
    Step::Goes { state: State { ip: target, ..s } }
}

/// A register takes the value of an operation.
pub open spec fn takes<W>(s: State<W>, dst: Option<Register>, effect: Effect<W>) -> Step<W> {
    match effect {
        Effect::Gives { value, world } => goes_on(
            s,
            match dst {
                Some(dst) => written(s.registers, dst, value),
                None => s.registers,
            },
            world,
        ),
        Effect::Raises { value, world } => raised(s, value, world),
    }
}

/// The value of an operation on two values.
pub open spec fn combined<W>(op: BinaryOp, a: Value, b: Value, world: W, e: Effects<W>) -> Effect<
    W,
> {
    match fold_result(op, a, b) {
        Some(value) => Effect::Gives { value, world },
        None => (e.binary)(op, a, b, world),
    }
}

/// The negation of a value.
pub open spec fn opposite<W>(a: Value, world: W, e: Effects<W>) -> Effect<W> {
    match negated(Some(a)) {
        Some(value) => Effect::Gives { value, world },
        None => (e.negate)(a, world),
    }
}

/// A jump that is taken where a condition is `wanted`.
pub open spec fn branches<W>(
    s: State<W>,
    condition: Value,
    wanted: bool,
    target: int,
    e: Effects<W>,
) -> Step<W> {
    let test = match condition {
        Value::Bool(holds) => Test::Truth { holds },
        _ => (e.test)(condition, s.world),
    };
    match test {
        Test::Truth { holds } => if holds == wanted {
            goes_to(s, target)
        } else {
            goes_to(s, s.ip + 1)
        },
        Test::Raises { value, world } => raised(s, value, world),
    }
}

/// What one instruction does.
pub open spec fn does<W>(
    instruction: Instruction,
    constants: Seq<Value>,
    s: State<W>,
    e: Effects<W>,
) -> Step<W> {
    match instruction {
        Instruction::Jump { target } => goes_to(s, target.0 as int),
        Instruction::JumpIfFalse { condition, target } => branches(
            s,
            content(s.registers, condition),
            false,
            target.0 as int,
            e,
        ),
        Instruction::JumpIfTrue { condition, target } => branches(
            s,
            content(s.registers, condition),
            true,
            target.0 as int,
            e,
        ),
        Instruction::PushHandler { error, target } => Step::Goes {
            state: State {
                ip: s.ip + 1,
                handlers: s.handlers.push(Handler { register: error, target: target.0 as int }),
                ..s
            },
        },
        Instruction::PopHandler => Step::Goes {
            state: State {
                ip: s.ip + 1,
                handlers: if s.handlers.len() == 0 {
                    s.handlers
                } else {
                    s.handlers.drop_last()
                },
                ..s
            },
        },
        Instruction::Throw { src } => raised(s, content(s.registers, src), s.world),
        Instruction::Return { src } => Step::Ends {
            ending: Ending::Returned { value: content(s.registers, src), world: s.world },
        },
        _ => match shape(instruction) {
            Shape::Load { dst, constant } => takes(
                s,
                Some(dst),
                Effect::Gives { value: constants[constant.0 as int], world: s.world },
            ),
            Shape::Copy { dst, src } => takes(
                s,
                Some(dst),
                Effect::Gives { value: content(s.registers, src), world: s.world },
            ),
            Shape::Binary { op, dst, lhs, rhs } => takes(
                s,
                Some(dst),
                combined(op, content(s.registers, lhs), content(s.registers, rhs), s.world, e),
            ),
            Shape::Negate { dst, src } => takes(
                s,
                Some(dst),
                opposite(content(s.registers, src), s.world, e),
            ),
            Shape::Opaque { written, .. } => takes(
                s,
                written,
                (e.other)(instruction@, s.registers, s.world),
            ),
        },
    }
}

/// What follows a state.
pub open spec fn next<W>(b: Body, s: State<W>, e: Effects<W>) -> Step<W> {
    if 0 <= s.ip < b.instructions.len() {
        does(b.instructions[s.ip], b.constants, s, e)
    } else {
        Step::Ends { ending: Ending::FellOff { world: s.world } }
    }
}

/// How execution ends within `n` instructions, if it does.
pub open spec fn run<W>(b: Body, s: State<W>, e: Effects<W>, n: nat) -> Option<Ending<W>>
    decreases n,
{
    if n == 0 {
        None
    } else {
        match next(b, s, e) {
            Step::Goes { state } => run(b, state, e, (n - 1) as nat),
            Step::Ends { ending } => Some(ending),
        }
    }
}

/// Whether execution ends in a way.
pub open spec fn ends_with<W>(b: Body, s: State<W>, e: Effects<W>, ending: Ending<W>) -> bool {
    exists|n: nat| #[trigger] run(b, s, e, n) == Some(ending)
}

/// The state in which a function begins.
pub open spec fn entered<W>(registers: Seq<Value>, world: W) -> State<W> {
    State { ip: 0, registers, handlers: Seq::empty(), world }
}

} // verus!
