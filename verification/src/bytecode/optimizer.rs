//! Bytecode optimization pass.
//!
//! The optimizer works on one chunk without changing the register file or the
//! function metadata. It performs conservative local rewrites.

use vstd::prelude::*;

use crate::bytecode::chunk::Chunk;
use crate::bytecode::instruction::{ConstId, Instruction, JumpTarget, Register};
use crate::diagnostics::span::SourceSpan;
use crate::value::Value;

verus! {

// ---------------------------------------------------------------------------
// The part of a chunk that the optimizer changes
// ---------------------------------------------------------------------------

/// The parts of a chunk that optimization changes.
#[verifier::ext_equal]
pub struct Body {
    pub constants: Seq<Value>,
    pub instructions: Seq<Instruction>,
    pub source_map: Seq<Option<SourceSpan>>,
}

/// The body of a chunk.
pub open spec fn body(chunk: Chunk) -> Body {
    Body {
        constants: chunk.constants@,
        instructions: chunk.instructions@,
        source_map: chunk.source_map@,
    }
}

/// Whether two chunks differ in their bodies at most.
pub open spec fn same_frame(a: Chunk, b: Chunk) -> bool {
    &&& a.name == b.name
    &&& a.arity == b.arity
    &&& a.register_count == b.register_count
    &&& a.capture_count == b.capture_count
    &&& a.strings == b.strings
    &&& a.debug_local_names == b.debug_local_names
}

/// The number of true flags.
pub open spec fn count_true(flags: Seq<bool>) -> nat
    decreases flags.len(),
{
    if flags.len() == 0 {
        0
    } else if flags.last() {
        count_true(flags.drop_last()) + 1
    } else {
        count_true(flags.drop_last())
    }
}

pub proof fn lemma_count_true_bound(flags: Seq<bool>)
    ensures
        count_true(flags) <= flags.len(),
    decreases flags.len(),
{
    if flags.len() > 0 {
        lemma_count_true_bound(flags.drop_last());
    }
}

pub proof fn lemma_count_true_push(flags: Seq<bool>, flag: bool)
    ensures
        count_true(flags.push(flag)) == count_true(flags) + if flag {
            1nat
        } else {
            0nat
        },
{
    assert(flags.push(flag).drop_last() =~= flags);
}

/// The flags of the positions below `n` that satisfy a condition.
pub open spec fn flags_below(n: nat, condition: spec_fn(int) -> bool) -> Seq<bool> {
    Seq::new(n, |i: int| condition(i))
}

pub proof fn lemma_flags_below_next(n: nat, condition: spec_fn(int) -> bool)
    ensures
        flags_below(n + 1, condition) == flags_below(n, condition).push(condition(n as int)),
        count_true(flags_below(n + 1, condition)) == count_true(flags_below(n, condition)) + if condition(
            n as int,
        ) {
            1nat
        } else {
            0nat
        },
        count_true(flags_below(n, condition)) <= n,
{
    assert(flags_below(n + 1, condition) =~= flags_below(n, condition).push(condition(n as int)));
    lemma_count_true_push(flags_below(n, condition), condition(n as int));
    lemma_count_true_bound(flags_below(n, condition));
}

// ---------------------------------------------------------------------------
// Jumps
// ---------------------------------------------------------------------------

/// Whether an instruction can jump to position `index`.
pub open spec fn jumps_to(instruction: Instruction, index: int) -> bool {
    instruction@.target() matches Some(target) && target.0 == index
}

/// Whether one of the first `n` instructions can jump to position `index`.
pub open spec fn targeted_by_first(instructions: Seq<Instruction>, n: int, index: int) -> bool {
    exists|i: int| 0 <= i < n && jumps_to(#[trigger] instructions[i], index)
}

/// Whether some instruction can jump to position `index`.
pub open spec fn targeted(instructions: Seq<Instruction>, index: int) -> bool {
    targeted_by_first(instructions, instructions.len() as int, index)
}

/// A jump with another target; other instructions stay as they are.
pub open spec fn with_target(instruction: Instruction, target: JumpTarget) -> Instruction {
    match instruction {
        Instruction::Jump { .. } => Instruction::Jump { target },
        Instruction::JumpIfFalse { condition, .. } => Instruction::JumpIfFalse {
            condition,
            target,
        },
        Instruction::JumpIfTrue { condition, .. } => Instruction::JumpIfTrue { condition, target },
        Instruction::PushHandler { error, .. } => Instruction::PushHandler { error, target },
        _ => instruction,
    }
}

/// The jump with another target, for jumps.
fn retargeted(instruction: &Instruction, target: JumpTarget) -> (changed: Option<Instruction>)
    ensures
        match changed {
            Some(jump) => jump == with_target(*instruction, target),
            None => with_target(*instruction, target) == *instruction,
        },
{
    match instruction {
        Instruction::Jump { .. } => Some(Instruction::Jump { target }),
        Instruction::JumpIfFalse { condition, .. } => Some(
            Instruction::JumpIfFalse { condition: *condition, target },
        ),
        Instruction::JumpIfTrue { condition, .. } => Some(
            Instruction::JumpIfTrue { condition: *condition, target },
        ),
        Instruction::PushHandler { error, .. } => Some(
            Instruction::PushHandler { error: *error, target },
        ),
        _ => None,
    }
}

/// For each position, whether some instruction can jump to it.
fn jump_targets(instructions: &Vec<Instruction>) -> (flags: Vec<bool>)
    ensures
        flags@.len() == instructions@.len(),
        forall|index: int|
            0 <= index < flags@.len() ==> #[trigger] flags@[index] == targeted(
                instructions@,
                index,
            ),
{
    let mut flags: Vec<bool> = Vec::new();
    let mut i: usize = 0;
    while i < instructions.len()
        invariant
            i <= instructions@.len(),
            flags@.len() == i,
            forall|index: int| 0 <= index < flags@.len() ==> !#[trigger] flags@[index],
        decreases instructions.len() - i,
    {
        flags.push(false);
        i = i + 1;
    }
    let mut j: usize = 0;
    while j < instructions.len()
        invariant
            j <= instructions@.len(),
            flags@.len() == instructions@.len(),
            forall|index: int|
                0 <= index < flags@.len() ==> #[trigger] flags@[index] == targeted_by_first(
                    instructions@,
                    j as int,
                    index,
                ),
        decreases instructions.len() - j,
    {
        let ghost before = flags@;
        let target = instructions[j].jump_operand();
        if let Some(target) = target {
            if (target.0 as usize) < flags.len() {
                flags[target.0 as usize] = true;
            }
        }
        assert forall|index: int| 0 <= index < flags@.len() implies #[trigger] flags@[index]
            == targeted_by_first(instructions@, j + 1, index) by {
            assert(before[index] == targeted_by_first(instructions@, j as int, index));
            if jumps_to(instructions@[j as int], index) {
                assert(targeted_by_first(instructions@, j + 1, index));
            }
            if targeted_by_first(instructions@, j as int, index) {
                let i = choose|i: int|
                    0 <= i < j && jumps_to(#[trigger] instructions@[i], index);
                assert(jumps_to(instructions@[i], index));
            }
        }
        j = j + 1;
    }
    flags
}

// ---------------------------------------------------------------------------
// Constant folding
// ---------------------------------------------------------------------------

/// The operations that constant folding evaluates.
#[derive(Clone, Copy, Debug, PartialEq, Eq, Structural)]
pub enum BinaryOp {
    Add,
    Sub,
    Mul,
    Div,
    Equal,
    NotEqual,
    Less,
    LessEqual,
    Greater,
    GreaterEqual,
}

/// What an instruction does to the known register contents.
#[derive(Clone, Copy, Debug, PartialEq, Eq, Structural)]
pub enum Shape {
    /// Loads a constant.
    Load { dst: Register, constant: ConstId },
    /// Copies a register.
    Copy { dst: Register, src: Register },
    /// Combines two registers.
    Binary { op: BinaryOp, dst: Register, lhs: Register, rhs: Register },
    /// Negates a register.
    Negate { dst: Register, src: Register },
    /// Writes a register with something unknown, or none; `resets` forgets everything.
    Opaque { written: Option<Register>, resets: bool },
}

/// What an instruction does to the known register contents.
pub open spec fn shape(instruction: Instruction) -> Shape {
    match instruction {
        Instruction::LoadConst { dst, constant } => Shape::Load { dst, constant },
        Instruction::LoadString { dst, .. } => Shape::Opaque { written: Some(dst), resets: false },
        Instruction::Move { dst, src } => Shape::Copy { dst, src },
        Instruction::Add { dst, lhs, rhs } => Shape::Binary { op: BinaryOp::Add, dst, lhs, rhs },
        Instruction::AddInt { dst, lhs, rhs } => Shape::Binary { op: BinaryOp::Add, dst, lhs, rhs },
        Instruction::Sub { dst, lhs, rhs } => Shape::Binary { op: BinaryOp::Sub, dst, lhs, rhs },
        Instruction::SubInt { dst, lhs, rhs } => Shape::Binary { op: BinaryOp::Sub, dst, lhs, rhs },
        Instruction::Mul { dst, lhs, rhs } => Shape::Binary { op: BinaryOp::Mul, dst, lhs, rhs },
        Instruction::MulInt { dst, lhs, rhs } => Shape::Binary { op: BinaryOp::Mul, dst, lhs, rhs },
        Instruction::Div { dst, lhs, rhs } => Shape::Binary { op: BinaryOp::Div, dst, lhs, rhs },
        Instruction::DivInt { dst, lhs, rhs } => Shape::Binary { op: BinaryOp::Div, dst, lhs, rhs },
        Instruction::Jump { .. } => Shape::Opaque { written: None, resets: true },
        Instruction::JumpIfFalse { .. } => Shape::Opaque { written: None, resets: true },
        Instruction::JumpIfTrue { .. } => Shape::Opaque { written: None, resets: true },
        Instruction::Equal { dst, lhs, rhs } => Shape::Binary { op: BinaryOp::Equal, dst, lhs, rhs },
        Instruction::NotEqual { dst, lhs, rhs } => Shape::Binary { op: BinaryOp::NotEqual, dst, lhs, rhs },
        Instruction::Less { dst, lhs, rhs } => Shape::Binary { op: BinaryOp::Less, dst, lhs, rhs },
        Instruction::LessInt { dst, lhs, rhs } => Shape::Binary { op: BinaryOp::Less, dst, lhs, rhs },
        Instruction::LessEqual { dst, lhs, rhs } => Shape::Binary { op: BinaryOp::LessEqual, dst, lhs, rhs },
        Instruction::LessEqualInt { dst, lhs, rhs } => Shape::Binary { op: BinaryOp::LessEqual, dst, lhs, rhs },
        Instruction::Greater { dst, lhs, rhs } => Shape::Binary { op: BinaryOp::Greater, dst, lhs, rhs },
        Instruction::GreaterInt { dst, lhs, rhs } => Shape::Binary { op: BinaryOp::Greater, dst, lhs, rhs },
        Instruction::GreaterEqual { dst, lhs, rhs } => Shape::Binary { op: BinaryOp::GreaterEqual, dst, lhs, rhs },
        Instruction::GreaterEqualInt { dst, lhs, rhs } => Shape::Binary { op: BinaryOp::GreaterEqual, dst, lhs, rhs },
        Instruction::Not { dst, src } => Shape::Negate { dst, src },
        Instruction::CallFunction { dst, .. } => Shape::Opaque { written: Some(dst), resets: false },
        Instruction::MakeUpvalue { dst, .. } => Shape::Opaque { written: Some(dst), resets: false },
        Instruction::LoadUpvalue { dst, .. } => Shape::Opaque { written: Some(dst), resets: false },
        Instruction::StoreUpvalue { .. } => Shape::Opaque { written: None, resets: false },
        Instruction::MakeClosure { dst, .. } => Shape::Opaque { written: Some(dst), resets: false },
        Instruction::LoadCapture { dst, .. } => Shape::Opaque { written: Some(dst), resets: false },
        Instruction::LoadCaptureCell { dst, .. } => Shape::Opaque { written: Some(dst), resets: false },
        Instruction::StoreCapture { .. } => Shape::Opaque { written: None, resets: false },
        Instruction::CallValue { dst, .. } => Shape::Opaque { written: Some(dst), resets: false },
        Instruction::CallExtension { dst, .. } => Shape::Opaque { written: Some(dst), resets: false },
        Instruction::ArrayNew { dst, .. } => Shape::Opaque { written: Some(dst), resets: false },
        Instruction::MapNew { dst, .. } => Shape::Opaque { written: Some(dst), resets: false },
        Instruction::RecordNew { dst, .. } => Shape::Opaque { written: Some(dst), resets: true },
        Instruction::IndexGet { dst, .. } => Shape::Opaque { written: Some(dst), resets: false },
        Instruction::IndexSet { .. } => Shape::Opaque { written: None, resets: false },
        Instruction::ArrayGet { dst, .. } => Shape::Opaque { written: Some(dst), resets: false },
        Instruction::ArraySet { .. } => Shape::Opaque { written: None, resets: false },
        Instruction::FieldGet { dst, .. } => Shape::Opaque { written: Some(dst), resets: true },
        Instruction::FieldSet { .. } => Shape::Opaque { written: None, resets: true },
        Instruction::PushHandler { error, .. } => Shape::Opaque { written: Some(error), resets: true },
        Instruction::PopHandler => Shape::Opaque { written: None, resets: false },
        Instruction::Throw { .. } => Shape::Opaque { written: None, resets: true },
        Instruction::Return { .. } => Shape::Opaque { written: None, resets: true },
    }
}

/// What an instruction does to the known register contents.
fn shape_of(instruction: &Instruction) -> (result: Shape)
    ensures
        result == shape(*instruction),
{
    match instruction {
        Instruction::LoadConst { dst, constant } => Shape::Load { dst: *dst, constant: *constant },
        Instruction::LoadString { dst, .. } => Shape::Opaque { written: Some(*dst), resets: false },
        Instruction::Move { dst, src } => Shape::Copy { dst: *dst, src: *src },
        Instruction::Add { dst, lhs, rhs } => Shape::Binary { op: BinaryOp::Add, dst: *dst, lhs: *lhs, rhs: *rhs },
        Instruction::AddInt { dst, lhs, rhs } => Shape::Binary { op: BinaryOp::Add, dst: *dst, lhs: *lhs, rhs: *rhs },
        Instruction::Sub { dst, lhs, rhs } => Shape::Binary { op: BinaryOp::Sub, dst: *dst, lhs: *lhs, rhs: *rhs },
        Instruction::SubInt { dst, lhs, rhs } => Shape::Binary { op: BinaryOp::Sub, dst: *dst, lhs: *lhs, rhs: *rhs },
        Instruction::Mul { dst, lhs, rhs } => Shape::Binary { op: BinaryOp::Mul, dst: *dst, lhs: *lhs, rhs: *rhs },
        Instruction::MulInt { dst, lhs, rhs } => Shape::Binary { op: BinaryOp::Mul, dst: *dst, lhs: *lhs, rhs: *rhs },
        Instruction::Div { dst, lhs, rhs } => Shape::Binary { op: BinaryOp::Div, dst: *dst, lhs: *lhs, rhs: *rhs },
        Instruction::DivInt { dst, lhs, rhs } => Shape::Binary { op: BinaryOp::Div, dst: *dst, lhs: *lhs, rhs: *rhs },
        Instruction::Jump { .. } => Shape::Opaque { written: None, resets: true },
        Instruction::JumpIfFalse { .. } => Shape::Opaque { written: None, resets: true },
        Instruction::JumpIfTrue { .. } => Shape::Opaque { written: None, resets: true },
        Instruction::Equal { dst, lhs, rhs } => Shape::Binary { op: BinaryOp::Equal, dst: *dst, lhs: *lhs, rhs: *rhs },
        Instruction::NotEqual { dst, lhs, rhs } => Shape::Binary { op: BinaryOp::NotEqual, dst: *dst, lhs: *lhs, rhs: *rhs },
        Instruction::Less { dst, lhs, rhs } => Shape::Binary { op: BinaryOp::Less, dst: *dst, lhs: *lhs, rhs: *rhs },
        Instruction::LessInt { dst, lhs, rhs } => Shape::Binary { op: BinaryOp::Less, dst: *dst, lhs: *lhs, rhs: *rhs },
        Instruction::LessEqual { dst, lhs, rhs } => Shape::Binary { op: BinaryOp::LessEqual, dst: *dst, lhs: *lhs, rhs: *rhs },
        Instruction::LessEqualInt { dst, lhs, rhs } => Shape::Binary { op: BinaryOp::LessEqual, dst: *dst, lhs: *lhs, rhs: *rhs },
        Instruction::Greater { dst, lhs, rhs } => Shape::Binary { op: BinaryOp::Greater, dst: *dst, lhs: *lhs, rhs: *rhs },
        Instruction::GreaterInt { dst, lhs, rhs } => Shape::Binary { op: BinaryOp::Greater, dst: *dst, lhs: *lhs, rhs: *rhs },
        Instruction::GreaterEqual { dst, lhs, rhs } => Shape::Binary { op: BinaryOp::GreaterEqual, dst: *dst, lhs: *lhs, rhs: *rhs },
        Instruction::GreaterEqualInt { dst, lhs, rhs } => Shape::Binary { op: BinaryOp::GreaterEqual, dst: *dst, lhs: *lhs, rhs: *rhs },
        Instruction::Not { dst, src } => Shape::Negate { dst: *dst, src: *src },
        Instruction::CallFunction { dst, .. } => Shape::Opaque { written: Some(*dst), resets: false },
        Instruction::MakeUpvalue { dst, .. } => Shape::Opaque { written: Some(*dst), resets: false },
        Instruction::LoadUpvalue { dst, .. } => Shape::Opaque { written: Some(*dst), resets: false },
        Instruction::StoreUpvalue { .. } => Shape::Opaque { written: None, resets: false },
        Instruction::MakeClosure { dst, .. } => Shape::Opaque { written: Some(*dst), resets: false },
        Instruction::LoadCapture { dst, .. } => Shape::Opaque { written: Some(*dst), resets: false },
        Instruction::LoadCaptureCell { dst, .. } => Shape::Opaque { written: Some(*dst), resets: false },
        Instruction::StoreCapture { .. } => Shape::Opaque { written: None, resets: false },
        Instruction::CallValue { dst, .. } => Shape::Opaque { written: Some(*dst), resets: false },
        Instruction::CallExtension { dst, .. } => Shape::Opaque { written: Some(*dst), resets: false },
        Instruction::ArrayNew { dst, .. } => Shape::Opaque { written: Some(*dst), resets: false },
        Instruction::MapNew { dst, .. } => Shape::Opaque { written: Some(*dst), resets: false },
        Instruction::RecordNew { dst, .. } => Shape::Opaque { written: Some(*dst), resets: true },
        Instruction::IndexGet { dst, .. } => Shape::Opaque { written: Some(*dst), resets: false },
        Instruction::IndexSet { .. } => Shape::Opaque { written: None, resets: false },
        Instruction::ArrayGet { dst, .. } => Shape::Opaque { written: Some(*dst), resets: false },
        Instruction::ArraySet { .. } => Shape::Opaque { written: None, resets: false },
        Instruction::FieldGet { dst, .. } => Shape::Opaque { written: Some(*dst), resets: true },
        Instruction::FieldSet { .. } => Shape::Opaque { written: None, resets: true },
        Instruction::PushHandler { error, .. } => Shape::Opaque { written: Some(*error), resets: true },
        Instruction::PopHandler => Shape::Opaque { written: None, resets: false },
        Instruction::Throw { .. } => Shape::Opaque { written: None, resets: true },
        Instruction::Return { .. } => Shape::Opaque { written: None, resets: true },
    }
}

/// Whether equality of the value is known at compile time: it is no heap reference.
pub open spec fn foldable(value: Value) -> bool {
    !(value is Obj)
}

/// The integer or boolean result of an operation on two known values, where it has one.
pub open spec fn fold_result(op: BinaryOp, lhs: Value, rhs: Value) -> Option<Value> {
    match op {
        BinaryOp::Equal => if foldable(lhs) && foldable(rhs) {
            Some(Value::Bool(lhs == rhs))
        } else {
            None
        },
        BinaryOp::NotEqual => if foldable(lhs) && foldable(rhs) {
            Some(Value::Bool(lhs != rhs))
        } else {
            None
        },
        _ => match (lhs, rhs) {
            (Value::Int(a), Value::Int(b)) => match op {
                BinaryOp::Add => int_value(a.checked_add(b)),
                BinaryOp::Sub => int_value(a.checked_sub(b)),
                BinaryOp::Mul => int_value(a.checked_mul(b)),
                BinaryOp::Div => int_value(a.checked_div(b)),
                BinaryOp::Less => Some(Value::Bool(a < b)),
                BinaryOp::LessEqual => Some(Value::Bool(a <= b)),
                BinaryOp::Greater => Some(Value::Bool(a > b)),
                _ => Some(Value::Bool(a >= b)),
            },
            _ => None,
        },
    }
}

/// An optional integer as a value.
pub open spec fn int_value(n: Option<i64>) -> Option<Value> {
    match n {
        Some(n) => Some(Value::Int(n)),
        None => None,
    }
}

/// Evaluates an operation on two known values.
fn fold_binary(op: BinaryOp, lhs: Option<Value>, rhs: Option<Value>) -> (folded: Option<Value>)
    ensures
        folded == match (lhs, rhs) {
            (Some(lhs), Some(rhs)) => fold_result(op, lhs, rhs),
            _ => None,
        },
{
    let (lhs, rhs) = match (lhs, rhs) {
        (Some(lhs), Some(rhs)) => (lhs, rhs),
        _ => return None,
    };
    match op {
        BinaryOp::Equal => {
            if is_foldable_value(lhs) && is_foldable_value(rhs) {
                return Some(Value::Bool(lhs == rhs));
            }
            return None;
        },
        BinaryOp::NotEqual => {
            if is_foldable_value(lhs) && is_foldable_value(rhs) {
                return Some(Value::Bool(lhs != rhs));
            }
            return None;
        },
        _ => {},
    }
    let (a, b) = match (lhs, rhs) {
        (Value::Int(a), Value::Int(b)) => (a, b),
        _ => return None,
    };
    let number: Option<i64> = match op {
        BinaryOp::Add => a.checked_add(b),
        BinaryOp::Sub => a.checked_sub(b),
        BinaryOp::Mul => a.checked_mul(b),
        BinaryOp::Div => a.checked_div(b),
        BinaryOp::Less => return Some(Value::Bool(a < b)),
        BinaryOp::LessEqual => return Some(Value::Bool(a <= b)),
        BinaryOp::Greater => return Some(Value::Bool(a > b)),
        _ => return Some(Value::Bool(a >= b)),
    };
    match number {
        Some(n) => Some(Value::Int(n)),
        None => None,
    }
}

/// Whether equality of the value is known at compile time.
fn is_foldable_value(value: Value) -> (yes: bool)
    ensures
        yes == foldable(value),
{
    match value {
        Value::Obj(_) => false,
        _ => true,
    }
}

/// The known content of a register; registers outside the register file have none.
pub open spec fn known_value(known: Seq<Option<Value>>, register: Register) -> Option<Value> {
    if register.0 < known.len() {
        known[register.0 as int]
    } else {
        None
    }
}

/// The known contents after a register has been written.
pub open spec fn assigned(
    known: Seq<Option<Value>>,
    register: Register,
    value: Option<Value>,
) -> Seq<Option<Value>> {
    if register.0 < known.len() {
        known.update(register.0 as int, value)
    } else {
        known
    }
}

/// Nothing known of `n` registers.
pub open spec fn nothing_known(n: nat) -> Seq<Option<Value>> {
    Seq::new(n, |i: int| None::<Value>)
}

/// The known content of a register.
fn get_register_constant(known: &Vec<Option<Value>>, register: Register) -> (value: Option<Value>)
    ensures
        value == known_value(known@, register),
{
    if (register.0 as usize) < known.len() {
        known[register.0 as usize]
    } else {
        None
    }
}

/// Records the content of a register.
fn set_register_constant(known: &mut Vec<Option<Value>>, register: Register, value: Option<Value>)
    ensures
        final(known)@ == assigned(old(known)@, register, value),
{
    if (register.0 as usize) < known.len() {
        known[register.0 as usize] = value;
    }
}

/// Forgets the contents of all registers.
fn forget_all(known: &mut Vec<Option<Value>>)
    ensures
        final(known)@ == nothing_known(old(known)@.len()),
{
    let mut i: usize = 0;
    while i < known.len()
        invariant
            i <= known@.len(),
            known@.len() == old(known)@.len(),
            forall|k: int| 0 <= k < i ==> #[trigger] known@[k] is None,
        decreases known.len() - i,
    {
        known[i] = None;
        i = i + 1;
    }
    assert(known@ =~= nothing_known(old(known)@.len()));
}

/// How far constant folding has come.
#[verifier::ext_equal]
pub struct FoldState {
    /// The constant pool.
    pub constants: Seq<Value>,
    /// The known register contents.
    pub known: Seq<Option<Value>>,
    /// The instructions so far.
    pub instructions: Seq<Instruction>,
    /// The number of instructions replaced.
    pub rewrites: nat,
}

/// The state after an instruction that writes `dst` with a result that may be known. A known
/// result becomes a constant load as long as the pool has room for the constant.
pub open spec fn after_result(
    s: FoldState,
    instruction: Instruction,
    dst: Register,
    result: Option<Value>,
) -> FoldState {
    if result is Some && s.constants.len() <= u16::MAX {
        FoldState {
            constants: s.constants.push(result->0),
            known: assigned(s.known, dst, result),
            instructions: s.instructions.push(
                Instruction::LoadConst { dst, constant: ConstId(s.constants.len() as u16) },
            ),
            rewrites: s.rewrites + 1,
        }
    } else {
        FoldState {
            known: assigned(s.known, dst, None),
            instructions: s.instructions.push(instruction),
            ..s
        }
    }
}

/// The negation of a known boolean.
pub open spec fn negated(value: Option<Value>) -> Option<Value> {
    match value {
        Some(Value::Bool(b)) => Some(Value::Bool(!b)),
        _ => None,
    }
}

/// The state after one more instruction, which is a jump target or not.
pub open spec fn fold_step(s: FoldState, instruction: Instruction, is_target: bool) -> FoldState {
    let known = if is_target {
        nothing_known(s.known.len())
    } else {
        s.known
    };
    let entry = FoldState { known, ..s };
    match shape(instruction) {
        Shape::Load { dst, constant } => FoldState {
            known: assigned(
                known,
                dst,
                if constant.0 < s.constants.len() {
                    Some(s.constants[constant.0 as int])
                } else {
                    None
                },
            ),
            instructions: s.instructions.push(instruction),
            ..s
        },
        Shape::Copy { dst, src } => FoldState {
            known: assigned(known, dst, known_value(known, src)),
            instructions: s.instructions.push(instruction),
            ..s
        },
        Shape::Binary { op, dst, lhs, rhs } => after_result(
            entry,
            instruction,
            dst,
            match (known_value(known, lhs), known_value(known, rhs)) {
                (Some(a), Some(b)) => fold_result(op, a, b),
                _ => None,
            },
        ),
        Shape::Negate { dst, src } => after_result(
            entry,
            instruction,
            dst,
            negated(known_value(known, src)),
        ),
        Shape::Opaque { written, resets } => FoldState {
            known: if resets {
                nothing_known(known.len())
            } else {
                match written {
                    Some(register) => assigned(known, register, None),
                    None => known,
                }
            },
            instructions: s.instructions.push(instruction),
            ..s
        },
    }
}

/// The state after the first `n` instructions.
pub open spec fn fold_first(b: Body, register_count: nat, n: nat) -> FoldState
    decreases n,
{
    if n == 0 {
        FoldState {
            constants: b.constants,
            known: nothing_known(register_count),
            instructions: Seq::empty(),
            rewrites: 0,
        }
    } else {
        fold_step(
            fold_first(b, register_count, (n - 1) as nat),
            b.instructions[n - 1],
            targeted(b.instructions, n - 1),
        )
    }
}

/// The body after constant folding.
pub open spec fn folded(b: Body, register_count: nat) -> Body {
    let s = fold_first(b, register_count, b.instructions.len());
    Body { constants: s.constants, instructions: s.instructions, source_map: b.source_map }
}

/// The number of instructions that constant folding replaces.
pub open spec fn folded_count(b: Body, register_count: nat) -> nat {
    fold_first(b, register_count, b.instructions.len()).rewrites
}

pub proof fn lemma_fold_first_shape(b: Body, register_count: nat, n: nat)
    requires
        n <= b.instructions.len(),
    ensures
        fold_first(b, register_count, n).instructions.len() == n,
        fold_first(b, register_count, n).known.len() == register_count,
        fold_first(b, register_count, n).rewrites <= n,
    decreases n,
{
    if n > 0 {
        lemma_fold_first_shape(b, register_count, (n - 1) as nat);
    }
}

/// Appends a constant load for a known result, and gives the load.
fn replace_with_constant_load(
    chunk: &mut Chunk,
    known: &mut Vec<Option<Value>>,
    dst: Register,
    folded: Option<Value>,
) -> (load: Option<Instruction>)
    ensures
        final(chunk).instructions == old(chunk).instructions,
        final(chunk).source_map == old(chunk).source_map,
        same_frame(*final(chunk), *old(chunk)),
        match load {
            Some(load) => {
                &&& folded is Some
                &&& old(chunk).constants@.len() <= u16::MAX
                &&& load == (Instruction::LoadConst {
                    dst,
                    constant: ConstId(old(chunk).constants@.len() as u16),
                })
                &&& final(chunk).constants@ == old(chunk).constants@.push(folded->0)
                &&& final(known)@ == assigned(old(known)@, dst, folded)
            },
            None => {
                &&& folded is None || old(chunk).constants@.len() > u16::MAX
                &&& final(chunk).constants == old(chunk).constants
                &&& final(known)@ == assigned(old(known)@, dst, None)
            },
        },
{
    match folded {
        Some(value) => {
            if chunk.constants.len() > u16::MAX as usize {
                set_register_constant(known, dst, None);
                return None;
            }
            let constant = ConstId(chunk.constants.len() as u16);
            chunk.constants.push(value);
            set_register_constant(known, dst, Some(value));
            Some(Instruction::LoadConst { dst, constant })
        },
        None => {
            set_register_constant(known, dst, None);
            None
        },
    }
}

/// Folds register-local constant expressions into constant loads.
fn fold_constant_instructions(chunk: &mut Chunk) -> (transformations: usize)
    ensures
        same_frame(*final(chunk), *old(chunk)),
        body(*final(chunk)) == folded(body(*old(chunk)), old(chunk).register_count as nat),
        transformations == folded_count(body(*old(chunk)), old(chunk).register_count as nat),
{
    let targets = jump_targets(&chunk.instructions);
    let ghost b = body(*chunk);
    let ghost count = chunk.register_count as nat;
    let mut known: Vec<Option<Value>> = Vec::new();
    let mut r: usize = 0;
    while r < chunk.register_count as usize
        invariant
            r <= chunk.register_count,
            known@ == nothing_known(r as nat),
        decreases chunk.register_count - r,
    {
        known.push(None);
        r = r + 1;
        assert(known@ =~= nothing_known(r as nat));
    }
    let mut transformations: usize = 0;
    let mut ip: usize = 0;
    assert(chunk.instructions@ =~= Seq::empty() + b.instructions.skip(0));
    while ip < chunk.instructions.len()
        invariant
            ip <= b.instructions.len(),
            chunk.instructions@.len() == b.instructions.len(),
            b == body(*old(chunk)),
            count == old(chunk).register_count,
            same_frame(*chunk, *old(chunk)),
            targets@.len() == b.instructions.len(),
            forall|index: int|
                0 <= index < targets@.len() ==> #[trigger] targets@[index] == targeted(
                    b.instructions,
                    index,
                ),
            chunk.source_map@ == b.source_map,
            chunk.constants@ == fold_first(b, count, ip as nat).constants,
            known@ == fold_first(b, count, ip as nat).known,
            chunk.instructions@ == fold_first(b, count, ip as nat).instructions
                + b.instructions.skip(ip as int),
            transformations == fold_first(b, count, ip as nat).rewrites,
        decreases chunk.instructions.len() - ip,
    {
        let ghost s = fold_first(b, count, ip as nat);
        proof {
            lemma_fold_first_shape(b, count, ip as nat);
            lemma_fold_first_shape(b, count, (ip + 1) as nat);
        }
        let ghost instruction = b.instructions[ip as int];
        assert(chunk.instructions@[ip as int] == instruction);
        if targets[ip] {
            forget_all(&mut known);
        }
        let replacement = match shape_of(&chunk.instructions[ip]) {
            Shape::Load { dst, constant } => {
                let value = if (constant.0 as usize) < chunk.constants.len() {
                    Some(chunk.constants[constant.0 as usize])
                } else {
                    None
                };
                set_register_constant(&mut known, dst, value);
                None
            },
            Shape::Copy { dst, src } => {
                let value = get_register_constant(&known, src);
                set_register_constant(&mut known, dst, value);
                None
            },
            Shape::Binary { op, dst, lhs, rhs } => {
                let lhs_value = get_register_constant(&known, lhs);
                let rhs_value = get_register_constant(&known, rhs);
                let folded = fold_binary(op, lhs_value, rhs_value);
                replace_with_constant_load(chunk, &mut known, dst, folded)
            },
            Shape::Negate { dst, src } => {
                let folded = match get_register_constant(&known, src) {
                    Some(Value::Bool(value)) => Some(Value::Bool(!value)),
                    _ => None,
                };
                replace_with_constant_load(chunk, &mut known, dst, folded)
            },
            Shape::Opaque { written, resets } => {
                if let Some(register) = written {
                    set_register_constant(&mut known, register, None);
                }
                if resets {
                    forget_all(&mut known);
                }
                None
            },
        };
        let ghost next = fold_first(b, count, (ip + 1) as nat);
        assert(next == fold_step(s, instruction, targeted(b.instructions, ip as int)));
        if let Some(load) = replacement {
            chunk.instructions[ip] = load;
            transformations = transformations + 1;
        }
        assert(chunk.instructions@ =~= next.instructions + b.instructions.skip(ip + 1));
        ip = ip + 1;
    }
    assert(chunk.instructions@ =~= fold_first(b, count, ip as nat).instructions);
    transformations
}

// ---------------------------------------------------------------------------
// Integer specialization
// ---------------------------------------------------------------------------

/// The integer form of a generic arithmetic or comparison instruction; others stay as they are.
pub open spec fn specialized_instruction(instruction: Instruction) -> Instruction {
    match instruction {
        Instruction::Add { dst, lhs, rhs } => Instruction::AddInt { dst, lhs, rhs },
        Instruction::Sub { dst, lhs, rhs } => Instruction::SubInt { dst, lhs, rhs },
        Instruction::Mul { dst, lhs, rhs } => Instruction::MulInt { dst, lhs, rhs },
        Instruction::Div { dst, lhs, rhs } => Instruction::DivInt { dst, lhs, rhs },
        Instruction::Less { dst, lhs, rhs } => Instruction::LessInt { dst, lhs, rhs },
        Instruction::LessEqual { dst, lhs, rhs } => Instruction::LessEqualInt { dst, lhs, rhs },
        Instruction::Greater { dst, lhs, rhs } => Instruction::GreaterInt { dst, lhs, rhs },
        Instruction::GreaterEqual { dst, lhs, rhs } => Instruction::GreaterEqualInt { dst, lhs, rhs },
        _ => instruction,
    }
}

/// Whether an instruction has an integer form.
pub open spec fn has_integer_form(instruction: Instruction) -> bool {
    specialized_instruction(instruction) != instruction
}

/// The body after integer specialization.
pub open spec fn specialized(b: Body) -> Body {
    Body {
        instructions: Seq::new(
            b.instructions.len(),
            |i: int| specialized_instruction(b.instructions[i]),
        ),
        ..b
    }
}

/// The positions that integer specialization changes.
pub open spec fn specialized_at(b: Body) -> spec_fn(int) -> bool {
    |i: int| has_integer_form(b.instructions[i])
}

/// The integer form of an instruction, where it has one.
fn integer_form(instruction: &Instruction) -> (form: Option<Instruction>)
    ensures
        match form {
            Some(form) => form == specialized_instruction(*instruction) && has_integer_form(
                *instruction,
            ),
            None => !has_integer_form(*instruction),
        },
{
    match instruction {
        Instruction::Add { dst, lhs, rhs } => Some(
            Instruction::AddInt { dst: *dst, lhs: *lhs, rhs: *rhs },
        ),
        Instruction::Sub { dst, lhs, rhs } => Some(
            Instruction::SubInt { dst: *dst, lhs: *lhs, rhs: *rhs },
        ),
        Instruction::Mul { dst, lhs, rhs } => Some(
            Instruction::MulInt { dst: *dst, lhs: *lhs, rhs: *rhs },
        ),
        Instruction::Div { dst, lhs, rhs } => Some(
            Instruction::DivInt { dst: *dst, lhs: *lhs, rhs: *rhs },
        ),
        Instruction::Less { dst, lhs, rhs } => Some(
            Instruction::LessInt { dst: *dst, lhs: *lhs, rhs: *rhs },
        ),
        Instruction::LessEqual { dst, lhs, rhs } => Some(
            Instruction::LessEqualInt { dst: *dst, lhs: *lhs, rhs: *rhs },
        ),
        Instruction::Greater { dst, lhs, rhs } => Some(
            Instruction::GreaterInt { dst: *dst, lhs: *lhs, rhs: *rhs },
        ),
        Instruction::GreaterEqual { dst, lhs, rhs } => Some(
            Instruction::GreaterEqualInt { dst: *dst, lhs: *lhs, rhs: *rhs },
        ),
        _ => None,
    }
}

/// Specializes generic arithmetic and comparison instructions to integer instructions.
fn specialize_integer_instructions(chunk: &mut Chunk) -> (transformations: usize)
    ensures
        same_frame(*final(chunk), *old(chunk)),
        body(*final(chunk)) == specialized(body(*old(chunk))),
        transformations == count_true(
            flags_below(old(chunk).instructions@.len(), specialized_at(body(*old(chunk)))),
        ),
{
    let ghost b = body(*chunk);
    let ghost changes = specialized_at(b);
    let mut transformations: usize = 0;
    let mut i: usize = 0;
    while i < chunk.instructions.len()
        invariant
            i <= b.instructions.len(),
            b == body(*old(chunk)),
            changes == specialized_at(b),
            same_frame(*chunk, *old(chunk)),
            chunk.constants@ == b.constants,
            chunk.source_map@ == b.source_map,
            chunk.instructions@.len() == b.instructions.len(),
            forall|k: int|
                0 <= k < i ==> #[trigger] chunk.instructions@[k] == specialized_instruction(
                    b.instructions[k],
                ),
            forall|k: int|
                i <= k < b.instructions.len() ==> #[trigger] chunk.instructions@[k]
                    == b.instructions[k],
            transformations == count_true(flags_below(i as nat, changes)),
        decreases chunk.instructions.len() - i,
    {
        proof {
            lemma_flags_below_next(i as nat, changes);
            assert(changes(i as int) == has_integer_form(b.instructions[i as int]));
        }
        if let Some(form) = integer_form(&chunk.instructions[i]) {
            chunk.instructions[i] = form;
            transformations = transformations + 1;
        }
        i = i + 1;
    }
    assert(body(*chunk) =~= specialized(b));
    transformations
}

// ---------------------------------------------------------------------------
// Jump chains
// ---------------------------------------------------------------------------

/// The position behind unconditional jumps: where control arrives when it goes to `target`.
/// `visited` holds the jumps passed so far; a cycle of jumps ends where it is entered again.
pub open spec fn chain_end(
    instructions: Seq<Instruction>,
    target: JumpTarget,
    visited: Seq<JumpTarget>,
) -> JumpTarget
    decreases instructions.len() + 1 - visited.len(),
{
    if visited.contains(target) || target.0 >= instructions.len() || visited.len()
        > instructions.len() {
        target
    } else {
        match instructions[target.0 as int] {
            Instruction::Jump { target: next } => chain_end(
                instructions,
                next,
                visited.push(target),
            ),
            _ => target,
        }
    }
}

/// An instruction whose jump target, if it has one, is the end of the chain.
pub open spec fn collapsed_instruction(
    instructions: Seq<Instruction>,
    instruction: Instruction,
) -> Instruction {
    match instruction@.target() {
        Some(target) => with_target(instruction, chain_end(instructions, target, Seq::empty())),
        None => instruction,
    }
}

/// The body after jump chains have been collapsed.
pub open spec fn collapsed(b: Body) -> Body {
    Body {
        instructions: Seq::new(
            b.instructions.len(),
            |i: int| collapsed_instruction(b.instructions, b.instructions[i]),
        ),
        ..b
    }
}

/// The positions whose jump target changes when chains are collapsed.
pub open spec fn collapsed_at(b: Body) -> spec_fn(int) -> bool {
    |i: int|
        b.instructions[i]@.target() matches Some(target) && chain_end(
            b.instructions,
            target,
            Seq::empty(),
        ) != target
}

/// Distinct positions below `n` are at most `n` many.
pub(crate) proof fn lemma_distinct_positions(positions: Seq<JumpTarget>, n: nat)
    requires
        positions.no_duplicates(),
        forall|i: int| 0 <= i < positions.len() ==> (#[trigger] positions[i]).0 < n,
    ensures
        positions.len() <= n,
{
    let numbers = positions.map_values(|t: JumpTarget| t.0 as int);
    assert(numbers.no_duplicates()) by {
        assert forall|i: int, j: int|
            0 <= i < numbers.len() && 0 <= j < numbers.len() && i != j implies numbers[i]
            != numbers[j] by {
            assert(positions[i] != positions[j]);
        }
    }
    numbers.unique_seq_to_set();
    vstd::set_lib::lemma_int_range(0, n as int);
    let range = vstd::set_lib::set_int_range(0, n as int);
    assert forall|x: int| numbers.to_set().contains(x) implies range.contains(x) by {
        let i = choose|i: int| 0 <= i < numbers.len() && numbers[i] == x;
        assert(positions[i].0 < n);
    }
    vstd::set_lib::lemma_len_subset(numbers.to_set(), range);
}

/// Whether a target is among those visited.
fn visited_before(visited: &Vec<JumpTarget>, target: JumpTarget) -> (found: bool)
    ensures
        found == visited@.contains(target),
{
    let mut i: usize = 0;
    while i < visited.len()
        invariant
            i <= visited@.len(),
            forall|k: int| 0 <= k < i ==> visited@[k] != target,
        decreases visited.len() - i,
    {
        if visited[i] == target {
            return true;
        }
        i = i + 1;
    }
    false
}

/// Follows unconditional jumps from a target.
fn follow_jump_chain(instructions: &Vec<Instruction>, target: JumpTarget) -> (end: JumpTarget)
    ensures
        end == chain_end(instructions@, target, Seq::empty()),
{
    let mut current = target;
    let mut visited: Vec<JumpTarget> = Vec::new();
    loop
        invariant
            visited@.no_duplicates(),
            forall|i: int|
                0 <= i < visited@.len() ==> (#[trigger] visited@[i]).0 < instructions@.len(),
            chain_end(instructions@, target, Seq::empty()) == chain_end(
                instructions@,
                current,
                visited@,
            ),
        decreases instructions@.len() + 1 - visited@.len(),
    {
        proof {
            lemma_distinct_positions(visited@, instructions@.len());
        }
        if visited_before(&visited, current) || current.0 as usize >= instructions.len() {
            return current;
        }
        match &instructions[current.0 as usize] {
            Instruction::Jump { target: next } => {
                let ghost before = visited@;
                visited.push(current);
                proof {
                    assert forall|i: int, j: int|
                        0 <= i < visited@.len() && 0 <= j < visited@.len() && i
                            != j implies visited@[i] != visited@[j] by {
                        if i < before.len() {
                            assert(before.contains(before[i]));
                        }
                        if j < before.len() {
                            assert(before.contains(before[j]));
                        }
                    }
                    lemma_distinct_positions(visited@, instructions@.len());
                }
                current = *next;
            },
            _ => return current,
        }
    }
}

/// Collapses jump targets that point at unconditional jumps.
fn collapse_jump_chains(chunk: &mut Chunk) -> (transformations: usize)
    ensures
        same_frame(*final(chunk), *old(chunk)),
        body(*final(chunk)) == collapsed(body(*old(chunk))),
        transformations == count_true(
            flags_below(old(chunk).instructions@.len(), collapsed_at(body(*old(chunk)))),
        ),
{
    let ghost b = body(*chunk);
    let ghost changes = collapsed_at(b);
    let mut ends: Vec<Option<JumpTarget>> = Vec::new();
    let mut transformations: usize = 0;
    let mut i: usize = 0;
    while i < chunk.instructions.len()
        invariant
            i <= b.instructions.len(),
            b == body(*chunk),
            changes == collapsed_at(b),
            ends@.len() == i,
            forall|k: int|
                0 <= k < i ==> #[trigger] ends@[k] == match b.instructions[k]@.target() {
                    Some(target) => Some(chain_end(b.instructions, target, Seq::empty())),
                    None => None::<JumpTarget>,
                },
            transformations == count_true(flags_below(i as nat, changes)),
        decreases chunk.instructions.len() - i,
    {
        proof {
            lemma_flags_below_next(i as nat, changes);
        }
        let end = match chunk.instructions[i].jump_operand() {
            Some(target) => {
                let end = follow_jump_chain(&chunk.instructions, target);
                if end != target {
                    transformations = transformations + 1;
                }
                Some(end)
            },
            None => None,
        };
        ends.push(end);
        i = i + 1;
    }
    let mut j: usize = 0;
    while j < chunk.instructions.len()
        invariant
            j <= b.instructions.len(),
            b == body(*old(chunk)),
            same_frame(*chunk, *old(chunk)),
            chunk.constants@ == b.constants,
            chunk.source_map@ == b.source_map,
            chunk.instructions@.len() == b.instructions.len(),
            ends@.len() == b.instructions.len(),
            forall|k: int|
                0 <= k < b.instructions.len() ==> #[trigger] ends@[k]
                    == match b.instructions[k]@.target() {
                    Some(target) => Some(chain_end(b.instructions, target, Seq::empty())),
                    None => None::<JumpTarget>,
                },
            forall|k: int|
                0 <= k < j ==> #[trigger] chunk.instructions@[k] == collapsed_instruction(
                    b.instructions,
                    b.instructions[k],
                ),
            forall|k: int|
                j <= k < b.instructions.len() ==> #[trigger] chunk.instructions@[k]
                    == b.instructions[k],
        decreases chunk.instructions.len() - j,
    {
        assert(ends@[j as int] == match b.instructions[j as int]@.target() {
            Some(target) => Some(chain_end(b.instructions, target, Seq::empty())),
            None => None::<JumpTarget>,
        });
        if let Some(end) = ends[j] {
            if let Some(jump) = retargeted(&chunk.instructions[j], end) {
                chunk.instructions[j] = jump;
            }
        }
        j = j + 1;
    }
    assert(body(*chunk) =~= collapsed(b));
    transformations
}

// ---------------------------------------------------------------------------
// Compaction
// ---------------------------------------------------------------------------

/// The items whose flags are set.
pub open spec fn kept<A>(items: Seq<A>, keep: Seq<bool>) -> Seq<A>
    recommends
        items.len() == keep.len(),
    decreases keep.len(),
{
    if keep.len() == 0 {
        Seq::empty()
    } else if keep.last() {
        kept(items.drop_last(), keep.drop_last()).push(items.last())
    } else {
        kept(items.drop_last(), keep.drop_last())
    }
}

/// Whether a position from `from` on is kept.
pub open spec fn some_kept_from(keep: Seq<bool>, from: int) -> bool {
    exists|i: int| from <= i < keep.len() && #[trigger] keep[i]
}

/// Where a jump to `target` goes once the other positions have been removed: to the next kept
/// position, if there is one.
pub open spec fn moved_target(keep: Seq<bool>, target: JumpTarget) -> JumpTarget {
    if target.0 < keep.len() && some_kept_from(keep, target.0 as int) {
        JumpTarget(count_true(keep.take(target.0 as int)) as u32)
    } else {
        target
    }
}

/// An instruction with its jump target, if it has one, moved.
pub open spec fn moved_instruction(keep: Seq<bool>, instruction: Instruction) -> Instruction {
    match instruction@.target() {
        Some(target) => with_target(instruction, moved_target(keep, target)),
        None => instruction,
    }
}

/// Each instruction with its jump target moved.
pub open spec fn moved_instructions(keep: Seq<bool>, instructions: Seq<Instruction>) -> Seq<
    Instruction,
> {
    Seq::new(instructions.len(), |i: int| moved_instruction(keep, instructions[i]))
}

/// A source map with one entry for each of `n` instructions.
pub open spec fn padded_source_map(source_map: Seq<Option<SourceSpan>>, n: nat) -> Seq<
    Option<SourceSpan>,
> {
    Seq::new(
        n,
        |i: int|
            if i < source_map.len() {
                source_map[i]
            } else {
                None
            },
    )
}

/// The body without the positions that are not kept.
pub open spec fn compacted(b: Body, keep: Seq<bool>) -> Body {
    if count_true(keep) == keep.len() {
        b
    } else {
        Body {
            instructions: kept(moved_instructions(keep, b.instructions), keep),
            source_map: kept(padded_source_map(b.source_map, keep.len()), keep),
            ..b
        }
    }
}

pub proof fn lemma_kept_next<A>(items: Seq<A>, keep: Seq<bool>, n: int)
    requires
        items.len() == keep.len(),
        0 <= n < keep.len(),
    ensures
        kept(items.take(n + 1), keep.take(n + 1)) == if keep[n] {
            kept(items.take(n), keep.take(n)).push(items[n])
        } else {
            kept(items.take(n), keep.take(n))
        },
        count_true(keep.take(n + 1)) == count_true(keep.take(n)) + if keep[n] {
            1nat
        } else {
            0nat
        },
        count_true(keep.take(n)) <= n,
{
    assert(items.take(n + 1).drop_last() =~= items.take(n));
    assert(keep.take(n + 1).drop_last() =~= keep.take(n));
    lemma_count_true_bound(keep.take(n));
}

/// The number of true flags.
fn count_kept(keep: &Vec<bool>) -> (count: usize)
    ensures
        count == count_true(keep@),
        count <= keep@.len(),
{
    let mut count: usize = 0;
    let mut i: usize = 0;
    assert(keep@.take(0) =~= Seq::empty());
    while i < keep.len()
        invariant
            i <= keep@.len(),
            count == count_true(keep@.take(i as int)),
            count <= i,
        decreases keep.len() - i,
    {
        proof {
            lemma_kept_next(keep@, keep@, i as int);
        }
        if keep[i] {
            count = count + 1;
        }
        i = i + 1;
    }
    assert(keep@.take(i as int) =~= keep@);
    count
}

/// For each position, where the next kept position goes.
fn instruction_mapping(keep: &Vec<bool>) -> (mapping: Vec<Option<usize>>)
    ensures
        mapping@.len() == keep@.len(),
        forall|i: int|
            0 <= i < keep@.len() ==> #[trigger] mapping@[i] == if some_kept_from(keep@, i) {
                Some(count_true(keep@.take(i)) as usize)
            } else {
                None
            },
{
    let mut mapping: Vec<Option<usize>> = Vec::new();
    let mut filled: usize = 0;
    while filled < keep.len()
        invariant
            filled <= keep@.len(),
            mapping@.len() == filled,
        decreases keep.len() - filled,
    {
        mapping.push(None);
        filled = filled + 1;
    }
    let mut count: usize = count_kept(keep);
    let mut next: Option<usize> = None;
    let mut index: usize = keep.len();
    assert(keep@.take(keep@.len() as int) =~= keep@);
    while index > 0
        invariant
            index <= keep@.len(),
            mapping@.len() == keep@.len(),
            count == count_true(keep@.take(index as int)),
            next == if some_kept_from(keep@, index as int) {
                Some(count)
            } else {
                None
            },
            forall|i: int|
                index <= i < keep@.len() ==> #[trigger] mapping@[i] == if some_kept_from(keep@, i) {
                    Some(count_true(keep@.take(i)) as usize)
                } else {
                    None
                },
        decreases index,
    {
        proof {
            lemma_kept_next(keep@, keep@, index - 1);
        }
        let ghost later = some_kept_from(keep@, index as int);
        index = index - 1;
        if keep[index] {
            count = count - 1;
            next = Some(count);
            assert(keep@[index as int]);
            assert(some_kept_from(keep@, index as int));
        } else {
            proof {
                if later {
                    let i = choose|i: int| index + 1 <= i < keep@.len() && #[trigger] keep@[i];
                    assert(keep@[i]);
                    assert(some_kept_from(keep@, index as int));
                } else if some_kept_from(keep@, index as int) {
                    let i = choose|i: int| index <= i < keep@.len() && #[trigger] keep@[i];
                    assert(i != index);
                    assert(keep@[i]);
                }
            }
        }
        mapping[index] = next;
    }
    mapping
}

/// The instruction with its jump target moved.
fn remap_jump_target(instruction: Instruction, mapping: &Vec<Option<usize>>, Ghost(keep): Ghost<
    Seq<bool>,
>) -> (moved: Instruction)
    requires
        mapping@.len() == keep.len(),
        forall|i: int|
            0 <= i < keep.len() ==> #[trigger] mapping@[i] == if some_kept_from(keep, i) {
                Some(count_true(keep.take(i)) as usize)
            } else {
                None
            },
    ensures
        moved == moved_instruction(keep, instruction),
{
    let target = match instruction.jump_operand() {
        Some(target) => target,
        None => return instruction,
    };
    let index: usize = target.0 as usize;
    let moved_to: Option<usize> = if index < mapping.len() {
        mapping[index]
    } else {
        None
    };
    proof {
        if index < keep.len() {
            assert(mapping@[index as int] == if some_kept_from(keep, index as int) {
                Some(count_true(keep.take(index as int)) as usize)
            } else {
                None
            });
            lemma_count_true_bound(keep.take(index as int));
        }
    }
    let new_target = match moved_to {
        Some(position) => JumpTarget(position as u32),
        None => target,
    };
    match retargeted(&instruction, new_target) {
        Some(jump) => jump,
        None => instruction,
    }
}

/// The instructions in reverse order.
fn reversed(instructions: Vec<Instruction>) -> (result: Vec<Instruction>)
    ensures
        result@.len() == instructions@.len(),
        forall|i: int|
            0 <= i < result@.len() ==> #[trigger] result@[i] == instructions@[instructions@.len() - 1
                - i],
{
    let ghost all = instructions@;
    let mut source = instructions;
    let mut result: Vec<Instruction> = Vec::new();
    while source.len() > 0
        invariant
            source@.len() + result@.len() == all.len(),
            source@ == all.take(source@.len() as int),
            forall|i: int|
                0 <= i < result@.len() ==> #[trigger] result@[i] == all[all.len() - 1 - i],
        decreases source.len(),
    {
        let last = source.pop();
        if let Some(instruction) = last {
            result.push(instruction);
        }
    }
    result
}

/// Removes the positions that are not kept.
fn compact_chunk(chunk: &mut Chunk, keep: &Vec<bool>)
    requires
        keep@.len() == old(chunk).instructions@.len(),
    ensures
        same_frame(*final(chunk), *old(chunk)),
        body(*final(chunk)) == compacted(body(*old(chunk)), keep@),
{
    if count_kept(keep) == keep.len() {
        return;
    }
    let ghost b = body(*chunk);
    let ghost moved = moved_instructions(keep@, b.instructions);
    let ghost spans = padded_source_map(b.source_map, keep@.len());
    let mapping = instruction_mapping(keep);
    let mut taken: Vec<Instruction> = Vec::new();
    std::mem::swap(&mut taken, &mut chunk.instructions);
    let mut queue = reversed(taken);
    let mut instructions: Vec<Instruction> = Vec::new();
    let mut source_map: Vec<Option<SourceSpan>> = Vec::new();
    let mut index: usize = 0;
    assert(moved.take(0) =~= Seq::empty());
    while index < keep.len()
        invariant
            index <= keep@.len(),
            keep@.len() == b.instructions.len(),
            b == body(*old(chunk)),
            same_frame(*chunk, *old(chunk)),
            chunk.constants@ == b.constants,
            chunk.source_map@ == b.source_map,
            moved == moved_instructions(keep@, b.instructions),
            spans == padded_source_map(b.source_map, keep@.len()),
            mapping@.len() == keep@.len(),
            forall|i: int|
                0 <= i < keep@.len() ==> #[trigger] mapping@[i] == if some_kept_from(keep@, i) {
                    Some(count_true(keep@.take(i)) as usize)
                } else {
                    None
                },
            queue@.len() == keep@.len() - index,
            forall|i: int|
                0 <= i < queue@.len() ==> #[trigger] queue@[i] == b.instructions[keep@.len() - 1
                    - i],
            instructions@ == kept(moved.take(index as int), keep@.take(index as int)),
            source_map@ == kept(spans.take(index as int), keep@.take(index as int)),
        decreases keep.len() - index,
    {
        proof {
            lemma_kept_next(moved, keep@, index as int);
            lemma_kept_next(spans, keep@, index as int);
        }
        assert(queue@[queue@.len() - 1] == b.instructions[index as int]);
        let next = queue.pop();
        if keep[index] {
            if let Some(instruction) = next {
                instructions.push(remap_jump_target(instruction, &mapping, Ghost(keep@)));
            }
            let span = if index < chunk.source_map.len() {
                chunk.source_map[index]
            } else {
                None
            };
            source_map.push(span);
        }
        index = index + 1;
    }
    assert(moved.take(index as int) =~= moved);
    assert(spans.take(index as int) =~= spans);
    assert(keep@.take(index as int) =~= keep@);
    chunk.instructions = instructions;
    chunk.source_map = source_map;
}

/// Whether position `i` is a move of a register to itself that no jump goes to.
pub open spec fn redundant_move(instructions: Seq<Instruction>, i: int) -> bool {
    &&& instructions[i] matches Instruction::Move { dst, src }
    &&& dst == src
    &&& !targeted(instructions, i)
}

/// The positions that are no redundant moves.
pub open spec fn without_redundant_moves(instructions: Seq<Instruction>) -> Seq<bool> {
    Seq::new(instructions.len(), |i: int| !redundant_move(instructions, i))
}

/// Removes self-moves that are not jump targets.
fn remove_redundant_moves(chunk: &mut Chunk) -> (removed: usize)
    ensures
        same_frame(*final(chunk), *old(chunk)),
        body(*final(chunk)) == compacted(
            body(*old(chunk)),
            without_redundant_moves(old(chunk).instructions@),
        ),
        removed == old(chunk).instructions@.len() - count_true(
            without_redundant_moves(old(chunk).instructions@),
        ),
{
    let targets = jump_targets(&chunk.instructions);
    let mut keep: Vec<bool> = Vec::new();
    let mut i: usize = 0;
    while i < chunk.instructions.len()
        invariant
            i <= chunk.instructions@.len(),
            *chunk == *old(chunk),
            targets@.len() == chunk.instructions@.len(),
            forall|index: int|
                0 <= index < targets@.len() ==> #[trigger] targets@[index] == targeted(
                    chunk.instructions@,
                    index,
                ),
            keep@.len() == i,
            forall|k: int|
                0 <= k < i ==> #[trigger] keep@[k] == !redundant_move(chunk.instructions@, k),
        decreases chunk.instructions.len() - i,
    {
        let redundant = match &chunk.instructions[i] {
            Instruction::Move { dst, src } => *dst == *src && !targets[i],
            _ => false,
        };
        keep.push(!redundant);
        i = i + 1;
    }
    assert(keep@ =~= without_redundant_moves(chunk.instructions@));
    let removed: usize = keep.len() - count_kept(&keep);
    compact_chunk(chunk, &keep);
    removed
}

/// Whether control never runs on to the next instruction.
pub open spec fn ends_block(instruction: Instruction) -> bool {
    instruction is Jump || instruction is Throw || instruction is Return
}

/// Whether position `i` is reached in straight-line order: nothing ends the block before it, or
/// a jump goes to it.
pub open spec fn reached(instructions: Seq<Instruction>, i: int) -> bool
    decreases i,
{
    targeted(instructions, i) || i <= 0 || (reached(instructions, i - 1) && !ends_block(
        instructions[i - 1],
    ))
}

/// Whether an instruction leaves the function.
pub open spec fn leaves_function(instruction: Instruction) -> bool {
    instruction is Throw || instruction is Return
}

/// Whether some position that is reached leaves the function.
pub open spec fn leaving_reached(instructions: Seq<Instruction>) -> bool {
    exists|i: int|
        0 <= i < instructions.len() && leaves_function(#[trigger] instructions[i]) && reached(
            instructions,
            i,
        )
}

/// The last of the first `n` positions that leaves the function, or -1.
pub open spec fn last_leaving(instructions: Seq<Instruction>, n: nat) -> int
    decreases n,
{
    if n == 0 {
        -1
    } else if leaves_function(instructions[n - 1]) {
        n - 1
    } else {
        last_leaving(instructions, (n - 1) as nat)
    }
}

/// The positions that removing unreachable code keeps: those that are reached and, where none of
/// them leaves the function, the last one that does.
pub open spec fn needed_positions(instructions: Seq<Instruction>) -> Seq<bool> {
    Seq::new(
        instructions.len(),
        |i: int|
            reached(instructions, i) || (!leaving_reached(instructions) && i == last_leaving(
                instructions,
                instructions.len(),
            )),
    )
}

/// Removes straight-line instructions behind the end of a block, but not the last instruction
/// that leaves the function.
fn remove_unreachable_instructions(chunk: &mut Chunk) -> (removed: usize)
    ensures
        same_frame(*final(chunk), *old(chunk)),
        body(*final(chunk)) == compacted(
            body(*old(chunk)),
            needed_positions(old(chunk).instructions@),
        ),
        removed == old(chunk).instructions@.len() - count_true(
            needed_positions(old(chunk).instructions@),
        ),
{
    let targets = jump_targets(&chunk.instructions);
    let mut keep: Vec<bool> = Vec::new();
    let mut reachable = true;
    let mut leaves = false;
    let mut last: Option<usize> = None;
    let mut i: usize = 0;
    while i < chunk.instructions.len()
        invariant
            i <= chunk.instructions@.len(),
            *chunk == *old(chunk),
            leaves == exists|k: int|
                0 <= k < i && leaves_function(#[trigger] chunk.instructions@[k]) && reached(
                    chunk.instructions@,
                    k,
                ),
            last_leaving(chunk.instructions@, i as nat) == match last {
                Some(at) => at as int,
                None => -1,
            },
            last matches Some(at) ==> at < i,
            targets@.len() == chunk.instructions@.len(),
            forall|index: int|
                0 <= index < targets@.len() ==> #[trigger] targets@[index] == targeted(
                    chunk.instructions@,
                    index,
                ),
            keep@.len() == i,
            reachable == (i == 0 || (reached(chunk.instructions@, i - 1) && !ends_block(
                chunk.instructions@[i - 1],
            ))),
            forall|k: int| 0 <= k < i ==> #[trigger] keep@[k] == reached(chunk.instructions@, k),
        decreases chunk.instructions.len() - i,
    {
        if targets[i] {
            reachable = true;
        }
        keep.push(reachable);
        let ends = match &chunk.instructions[i] {
            Instruction::Jump { .. } | Instruction::Throw { .. } | Instruction::Return { .. } => true,
            _ => false,
        };
        let leaving = match &chunk.instructions[i] {
            Instruction::Throw { .. } | Instruction::Return { .. } => true,
            _ => false,
        };
        assert(leaving == leaves_function(chunk.instructions@[i as int]));
        if leaving {
            last = Some(i);
            leaves = leaves || reachable;
        }
        if reachable && ends {
            reachable = false;
        }
        i = i + 1;
    }
    assert(leaves == leaving_reached(chunk.instructions@));
    if !leaves {
        if let Some(at) = last {
            keep[at] = true;
        }
    }
    assert(keep@ =~= needed_positions(chunk.instructions@));
    let removed: usize = keep.len() - count_kept(&keep);
    compact_chunk(chunk, &keep);
    removed
}

// ---------------------------------------------------------------------------
// Reports
// ---------------------------------------------------------------------------

/// Structured metadata emitted by one optimizer pass.
#[derive(Clone, Debug, PartialEq, Eq)]
pub struct OptimizationPassReport {
    /// Stable pass name suitable for CLI output.
    pub name: &'static str,
    /// Short description of the transformation.
    pub description: &'static str,
    /// Whether the pass changed the instruction stream.
    pub changed: bool,
    /// Pass wall-clock duration in nanoseconds.
    pub duration_ns: u128,
    /// Human-readable pass warnings.
    pub warnings: Vec<String>,
    /// Number of instructions inspected by the pass.
    pub instructions_inspected: usize,
    /// Number of bytecode functions inspected by the pass.
    pub functions_inspected: usize,
    /// Number of local rewrites/removals performed by the pass.
    pub transformations_applied: usize,
}

/// Optimization metadata for one bytecode chunk.
#[derive(Clone, Debug, PartialEq, Eq)]
pub struct OptimizationReport {
    /// Chunk/function name optimized.
    pub chunk_name: String,
    /// Instruction count before running optimizer passes.
    pub instructions_before: usize,
    /// Instruction count after running optimizer passes.
    pub instructions_after: usize,
    /// Reports emitted by individual passes.
    pub passes: Vec<OptimizationPassReport>,
}

/// The number of transformations in some pass reports.
pub open spec fn transformation_sum(passes: Seq<OptimizationPassReport>) -> nat
    decreases passes.len(),
{
    if passes.len() == 0 {
        0
    } else {
        transformation_sum(passes.drop_last()) + passes.last().transformations_applied as nat
    }
}

pub proof fn lemma_transformation_sum_grows(passes: Seq<OptimizationPassReport>, n: int)
    requires
        0 <= n <= passes.len(),
    ensures
        transformation_sum(passes.take(n)) <= transformation_sum(passes),
    decreases passes.len(),
{
    if n == passes.len() {
        assert(passes.take(n) =~= passes);
    } else {
        lemma_transformation_sum_grows(passes.drop_last(), n);
        assert(passes.drop_last().take(n) =~= passes.take(n));
    }
}

impl OptimizationReport {
    /// Returns the total number of transformations applied by all passes.
    pub fn total_transformations(&self) -> (total: usize)
        requires
            transformation_sum(self.passes@) <= usize::MAX,
        ensures
            total == transformation_sum(self.passes@),
    {
        let mut total: usize = 0;
        let mut i: usize = 0;
        assert(self.passes@.take(0) =~= Seq::empty());
        while i < self.passes.len()
            invariant
                i <= self.passes@.len(),
                total == transformation_sum(self.passes@.take(i as int)),
                transformation_sum(self.passes@) <= usize::MAX,
            decreases self.passes.len() - i,
        {
            proof {
                assert(self.passes@.take(i + 1).drop_last() =~= self.passes@.take(i as int));
                lemma_transformation_sum_grows(self.passes@, i + 1);
            }
            total = total + self.passes[i].transformations_applied;
            i = i + 1;
        }
        assert(self.passes@.take(i as int) =~= self.passes@);
        total
    }
}

/// Optimized chunk paired with pass metadata.
#[derive(Clone, Debug, PartialEq, Eq)]
pub struct OptimizedChunk {
    /// Optimized bytecode chunk.
    pub chunk: Chunk,
    /// Optimization report for this chunk.
    pub report: OptimizationReport,
}

// ---------------------------------------------------------------------------
// The passes in order
// ---------------------------------------------------------------------------

/// A moment on the monotonic clock.
#[verifier::external_type_specification]
#[verifier::external_body]
pub struct ExInstant(std::time::Instant);

/// `Instant::now` reads the monotonic clock; nothing is claimed of the moment.
#[verifier::external_body]
fn clock_now() -> std::time::Instant {
    std::time::Instant::now()
}

/// `Instant::elapsed` gives the time since `started`; nothing is claimed of its length.
#[verifier::external_body]
fn time_since(started: &std::time::Instant) -> std::time::Duration {
    started.elapsed()
}

/// `Duration::as_nanos` gives a time as whole nanoseconds; nothing is claimed of their number.
#[verifier::external_body]
fn whole_nanoseconds(time: &std::time::Duration) -> u128 {
    time.as_nanos()
}

/// The optimizer passes.
#[derive(Clone, Copy, Debug, PartialEq, Eq, Structural)]
pub enum Pass {
    FoldConstants,
    SpecializeIntegers,
    CollapseJumpChains,
    RemoveRedundantMoves,
    RemoveUnreachable,
    CollapseJumpChainsAgain,
}

impl Pass {
    /// The name of the pass.
    pub open spec fn name_text(self) -> Seq<char> {
        match self {
            Pass::FoldConstants => "constant-folding"@,
            Pass::SpecializeIntegers => "integer-specialization"@,
            Pass::CollapseJumpChains => "jump-chain-collapse"@,
            Pass::RemoveRedundantMoves => "redundant-move-removal"@,
            Pass::RemoveUnreachable => "unreachable-code-removal"@,
            Pass::CollapseJumpChainsAgain => "post-compact-jump-chain-collapse"@,
        }
    }

    /// The description of the pass.
    pub open spec fn description_text(self) -> Seq<char> {
        match self {
            Pass::FoldConstants =>
                "Fold register-local constant expressions into constant loads."@,
            Pass::SpecializeIntegers =>
                "Specialize generic arithmetic/comparison opcodes to integer opcodes."@,
            Pass::CollapseJumpChains => "Collapse jump targets that point at unconditional jumps."@,
            Pass::RemoveRedundantMoves => "Remove self-moves that are not jump targets."@,
            Pass::RemoveUnreachable =>
                "Remove straight-line instructions after terminal control flow."@,
            Pass::CollapseJumpChainsAgain => "Collapse jump chains after instruction compaction."@,
        }
    }

    /// The body after the pass.
    pub open spec fn after(self, b: Body, register_count: nat) -> Body {
        match self {
            Pass::FoldConstants => folded(b, register_count),
            Pass::SpecializeIntegers => specialized(b),
            Pass::RemoveRedundantMoves => compacted(b, without_redundant_moves(b.instructions)),
            Pass::RemoveUnreachable => compacted(b, needed_positions(b.instructions)),
            Pass::CollapseJumpChains | Pass::CollapseJumpChainsAgain => collapsed(b),
        }
    }

    /// The number of rewrites and removals that the pass performs.
    pub open spec fn transformations(self, b: Body, register_count: nat) -> nat {
        let n = b.instructions.len();
        match self {
            Pass::FoldConstants => folded_count(b, register_count),
            Pass::SpecializeIntegers => count_true(flags_below(n, specialized_at(b))),
            Pass::RemoveRedundantMoves => (n - count_true(
                without_redundant_moves(b.instructions),
            )) as nat,
            Pass::RemoveUnreachable => (n - count_true(needed_positions(b.instructions))) as nat,
            Pass::CollapseJumpChains | Pass::CollapseJumpChainsAgain => count_true(
                flags_below(n, collapsed_at(b)),
            ),
        }
    }

    /// The name of the pass.
    fn name(self) -> (name: &'static str)
        ensures
            name@ == self.name_text(),
    {
        match self {
            Pass::FoldConstants => "constant-folding",
            Pass::SpecializeIntegers => "integer-specialization",
            Pass::CollapseJumpChains => "jump-chain-collapse",
            Pass::RemoveRedundantMoves => "redundant-move-removal",
            Pass::RemoveUnreachable => "unreachable-code-removal",
            Pass::CollapseJumpChainsAgain => "post-compact-jump-chain-collapse",
        }
    }

    /// The description of the pass.
    fn description(self) -> (description: &'static str)
        ensures
            description@ == self.description_text(),
    {
        match self {
            Pass::FoldConstants => "Fold register-local constant expressions into constant loads.",
            Pass::SpecializeIntegers =>
                "Specialize generic arithmetic/comparison opcodes to integer opcodes.",
            Pass::CollapseJumpChains => "Collapse jump targets that point at unconditional jumps.",
            Pass::RemoveRedundantMoves => "Remove self-moves that are not jump targets.",
            Pass::RemoveUnreachable =>
                "Remove straight-line instructions after terminal control flow.",
            Pass::CollapseJumpChainsAgain => "Collapse jump chains after instruction compaction.",
        }
    }

    /// Applies the pass.
    fn apply(self, chunk: &mut Chunk) -> (transformations: usize)
        ensures
            same_frame(*final(chunk), *old(chunk)),
            body(*final(chunk)) == self.after(body(*old(chunk)), old(chunk).register_count as nat),
            transformations == self.transformations(
                body(*old(chunk)),
                old(chunk).register_count as nat,
            ),
    {
        match self {
            Pass::FoldConstants => fold_constant_instructions(chunk),
            Pass::SpecializeIntegers => specialize_integer_instructions(chunk),
            Pass::CollapseJumpChains => collapse_jump_chains(chunk),
            Pass::RemoveRedundantMoves => remove_redundant_moves(chunk),
            Pass::RemoveUnreachable => remove_unreachable_instructions(chunk),
            Pass::CollapseJumpChainsAgain => collapse_jump_chains(chunk),
        }
    }
}

/// The passes in the order in which they run.
pub open spec fn all_passes() -> Seq<Pass> {
    seq![
        Pass::FoldConstants,
        Pass::SpecializeIntegers,
        Pass::CollapseJumpChains,
        Pass::RemoveRedundantMoves,
        Pass::RemoveUnreachable,
        Pass::CollapseJumpChainsAgain,
    ]
}

/// The body after the first `n` passes.
pub open spec fn after_passes(b: Body, register_count: nat, n: nat) -> Body
    decreases n,
{
    if n == 0 {
        b
    } else {
        all_passes()[n - 1].after(
            after_passes(b, register_count, (n - 1) as nat),
            register_count,
        )
    }
}

/// The body after all passes.
pub open spec fn optimized(b: Body, register_count: nat) -> Body {
    after_passes(b, register_count, all_passes().len())
}

/// Whether a report describes a pass on a body. The duration is not described.
pub open spec fn describes_pass(
    report: OptimizationPassReport,
    pass: Pass,
    b: Body,
    register_count: nat,
) -> bool {
    let after = pass.after(b, register_count);
    let transformations = pass.transformations(b, register_count);
    &&& report.name@ == pass.name_text()
    &&& report.description@ == pass.description_text()
    &&& report.changed == (transformations > 0 || b.instructions.len() != after.instructions.len())
    &&& report.warnings@.len() == 0
    &&& report.instructions_inspected == b.instructions.len()
    &&& report.functions_inspected == 1
    &&& report.transformations_applied == transformations
}

/// Whether a report describes the whole optimization of a chunk.
pub open spec fn describes_optimization(report: OptimizationReport, chunk: Chunk) -> bool {
    let b = body(chunk);
    let register_count = chunk.register_count as nat;
    &&& report.chunk_name@ == chunk.name@
    &&& report.instructions_before == b.instructions.len()
    &&& report.instructions_after == optimized(b, register_count).instructions.len()
    &&& report.passes@.len() == all_passes().len()
    &&& forall|i: int|
        0 <= i < all_passes().len() ==> describes_pass(
            #[trigger] report.passes@[i],
            all_passes()[i],
            after_passes(b, register_count, i as nat),
            register_count,
        )
}

/// Runs one pass and reports on it.
fn run_pass(chunk: &mut Chunk, pass: Pass) -> (report: OptimizationPassReport)
    ensures
        same_frame(*final(chunk), *old(chunk)),
        body(*final(chunk)) == pass.after(body(*old(chunk)), old(chunk).register_count as nat),
        describes_pass(report, pass, body(*old(chunk)), old(chunk).register_count as nat),
{
    let instructions_before: usize = chunk.instructions.len();
    let started = clock_now();
    let transformations: usize = pass.apply(chunk);
    let elapsed = time_since(&started);
    let instructions_after: usize = chunk.instructions.len();
    OptimizationPassReport {
        name: pass.name(),
        description: pass.description(),
        changed: transformations > 0 || instructions_before != instructions_after,
        duration_ns: whole_nanoseconds(&elapsed),
        warnings: Vec::new(),
        instructions_inspected: instructions_before,
        functions_inspected: 1,
        transformations_applied: transformations,
    }
}

/// Optimizes a single bytecode chunk and returns pass-level metadata.
pub fn optimize_chunk_with_report(chunk: Chunk) -> (result: OptimizedChunk)
    ensures
        same_frame(result.chunk, chunk),
        body(result.chunk) == optimized(body(chunk), chunk.register_count as nat),
        describes_optimization(result.report, chunk),
{
    let ghost b = body(chunk);
    let ghost register_count = chunk.register_count as nat;
    let chunk_name = chunk.name.clone();
    let instructions_before: usize = chunk.instructions.len();
    let order = vec![
        Pass::FoldConstants,
        Pass::SpecializeIntegers,
        Pass::CollapseJumpChains,
        Pass::RemoveRedundantMoves,
        Pass::RemoveUnreachable,
        Pass::CollapseJumpChainsAgain,
    ];
    assert(order@ =~= all_passes());
    let mut current = chunk;
    let mut passes: Vec<OptimizationPassReport> = Vec::new();
    let mut i: usize = 0;
    while i < order.len()
        invariant
            i <= order@.len(),
            order@ == all_passes(),
            b == body(chunk),
            register_count == chunk.register_count,
            same_frame(current, chunk),
            body(current) == after_passes(b, register_count, i as nat),
            passes@.len() == i,
            forall|k: int|
                0 <= k < i ==> describes_pass(
                    #[trigger] passes@[k],
                    all_passes()[k],
                    after_passes(b, register_count, k as nat),
                    register_count,
                ),
        decreases order.len() - i,
    {
        let report = run_pass(&mut current, order[i]);
        passes.push(report);
        i = i + 1;
    }
    let instructions_after: usize = current.instructions.len();
    OptimizedChunk {
        chunk: current,
        report: OptimizationReport { chunk_name, instructions_before, instructions_after, passes },
    }
}

/// Optimizes a single bytecode chunk while preserving verifier invariants.
pub fn optimize_chunk(chunk: Chunk) -> (result: Chunk)
    ensures
        same_frame(result, chunk),
        body(result) == optimized(body(chunk), chunk.register_count as nat),
{
    optimize_chunk_with_report(chunk).chunk
}

} // verus!
