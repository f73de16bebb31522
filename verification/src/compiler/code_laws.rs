//! What holds of all generated code: its operands are in bounds, and a function whose body
//! returns on every path is accepted by verification.

use vstd::prelude::*;

use crate::bytecode::chunk::ChunkView;
use crate::bytecode::format::max_instruction_count;
use crate::bytecode::instruction::{
    registers_in, texts_in, CaptureId, ConstId, FunctionId, Instruction, JumpTarget, Register,
    StringId,
};
use crate::bytecode::program::{FunctionKindView, FunctionView};
use crate::bytecode::verification::{
    first_instruction_error, first_invalid_register, first_invalid_text, instruction_error,
    size_error, valid_chunk, VerificationErrorKind,
};
use crate::compiler::ast::{ExprView, LiteralView, StmtView};
use crate::compiler::captures::{always_return, always_returns, captured_in_stmts, free_names};
use crate::compiler::codegen::body_code;
use crate::compiler::emitter::{
    begin, boxed_register, bytecode_function, closure_name, emit, enter, finished, fresh, gen_block,
    gen_call, gen_closure, gen_entries, gen_expr, gen_into, gen_list, gen_row, gen_stmt, gen_stmts,
    here, known_names, load_cell, load_cells, load_constant, load_literal, load_variable,
    named_local, nth, numbered, open_jump, open_jump_if_false, operation, patch_here, read_variable,
    reserve, store_variable, FunctionIds, Gen, MAX_FUNCTIONS, MAX_OPERANDS,
};
use crate::compiler::error::CompileErrorView;
use crate::diagnostics::span::SourceSpan;
use crate::value::Value;

verus! {

// ---------------------------------------------------------------------------
// Instructions in bounds
// ---------------------------------------------------------------------------

/// The sizes that the operands of an instruction are held against.
pub struct Bounds {
    pub registers: nat,
    pub constants: nat,
    pub strings: nat,
    pub captures: nat,
    /// The number of instructions.
    pub length: nat,
}

/// The sizes of the code of a function.
pub open spec fn bounds(g: Gen) -> Bounds {
    Bounds {
        registers: g.next_register,
        constants: g.constants.len(),
        strings: g.strings.len(),
        captures: g.capture_count as nat,
        length: g.code.len(),
    }
}

pub open spec fn within(b: Bounds, c: Bounds) -> bool {
    &&& b.registers <= c.registers
    &&& b.constants <= c.constants
    &&& b.strings <= c.strings
    &&& b.captures <= c.captures
    &&& b.length <= c.length
}

/// A row of registers.
pub open spec fn row_fits(start: Register, width: nat, b: Bounds) -> bool {
    start.0 < b.registers && start.0 + width <= b.registers
}

pub open spec fn three_fit(x: Register, y: Register, z: Register, b: Bounds) -> bool {
    x.0 < b.registers && y.0 < b.registers && z.0 < b.registers
}

/// The operands of an instruction are in bounds. A jump may lead behind the last instruction.
pub open spec fn fits(instruction: Instruction, b: Bounds) -> bool {
    match instruction {
        Instruction::LoadConst { dst, constant } => dst.0 < b.registers && constant.0
            < b.constants,
        Instruction::LoadString { dst, string } => dst.0 < b.registers && string.0 < b.strings,
        Instruction::Move { dst, src } => dst.0 < b.registers && src.0 < b.registers,
        Instruction::MakeUpvalue { dst, src } => dst.0 < b.registers && src.0 < b.registers,
        Instruction::LoadUpvalue { dst, upvalue } => dst.0 < b.registers && upvalue.0
            < b.registers,
        Instruction::StoreUpvalue { upvalue, src } => upvalue.0 < b.registers && src.0
            < b.registers,
        Instruction::Add { dst, lhs, rhs } => three_fit(dst, lhs, rhs, b),
        Instruction::Sub { dst, lhs, rhs } => three_fit(dst, lhs, rhs, b),
        Instruction::Mul { dst, lhs, rhs } => three_fit(dst, lhs, rhs, b),
        Instruction::Div { dst, lhs, rhs } => three_fit(dst, lhs, rhs, b),
        Instruction::Equal { dst, lhs, rhs } => three_fit(dst, lhs, rhs, b),
        Instruction::NotEqual { dst, lhs, rhs } => three_fit(dst, lhs, rhs, b),
        Instruction::Less { dst, lhs, rhs } => three_fit(dst, lhs, rhs, b),
        Instruction::LessEqual { dst, lhs, rhs } => three_fit(dst, lhs, rhs, b),
        Instruction::Greater { dst, lhs, rhs } => three_fit(dst, lhs, rhs, b),
        Instruction::GreaterEqual { dst, lhs, rhs } => three_fit(dst, lhs, rhs, b),
        Instruction::IndexGet { dst, target, index } => three_fit(dst, target, index, b),
        Instruction::IndexSet { target, index, value } => three_fit(target, index, value, b),
        Instruction::ArrayNew { dst, elements_start, element_count } => dst.0 < b.registers
            && row_fits(elements_start, element_count as nat, b),
        Instruction::MapNew { dst, entries_start, entry_count } => dst.0 < b.registers && row_fits(
            entries_start,
            2 * entry_count as nat,
            b,
        ),
        Instruction::CallFunction { dst, args_start, arg_count, .. } => dst.0 < b.registers
            && row_fits(args_start, arg_count as nat, b),
        Instruction::CallValue { dst, callee, args_start, arg_count } => dst.0 < b.registers
            && callee.0 < b.registers && row_fits(args_start, arg_count as nat, b),
        Instruction::MakeClosure { dst, captures_start, capture_count, .. } => dst.0 < b.registers
            && row_fits(captures_start, capture_count as nat, b),
        Instruction::LoadCapture { dst, capture } => dst.0 < b.registers && capture.0
            < b.captures,
        Instruction::LoadCaptureCell { dst, capture } => dst.0 < b.registers && capture.0
            < b.captures,
        Instruction::StoreCapture { capture, src } => capture.0 < b.captures && src.0
            < b.registers,
        Instruction::Jump { target } => target.0 <= b.length,
        Instruction::JumpIfFalse { condition, target } => condition.0 < b.registers && target.0
            <= b.length,
        Instruction::Return { src } => src.0 < b.registers,
        _ => false,
    }
}

/// Operands stay in bounds when the bounds grow.
proof fn lemma_fits_within(instruction: Instruction, b: Bounds, c: Bounds)
    requires
        fits(instruction, b),
        within(b, c),
    ensures
        fits(instruction, c),
{
}

/// The state of the generator is in order.
pub open spec fn in_order(g: Gen) -> bool {
    &&& g.next_register <= MAX_OPERANDS + 1
    &&& g.arity <= g.next_register
    &&& g.spans.len() == g.code.len()
    &&& g.constants.len() <= 0x1_0000
    &&& g.strings.len() <= 0x1_0000
    &&& forall|name: Seq<char>|
        g.locals.contains_key(name) ==> (#[trigger] g.locals[name]).register.0 < g.next_register
    &&& forall|name: Seq<char>|
        g.captures.contains_key(name) ==> (#[trigger] g.captures[name]).0 < g.capture_count
}

/// The chunk of a function of the generated code: all sizes are in order, and no operand is out
/// of bounds but for a jump behind the last instruction.
pub open spec fn well_built(c: ChunkView) -> bool {
    &&& size_error(c) is None || c.instructions.len() > max_instruction_count()
    &&& forall|ip: int| 0 <= ip < c.instructions.len() ==> #[trigger] only_leads_behind(c, ip)
}

/// Nothing is wrong with an instruction, unless it jumps behind the last one.
pub open spec fn only_leads_behind(c: ChunkView, ip: int) -> bool {
    match instruction_error(c, c.instructions[ip]) {
        None => true,
        Some(kind) => {
            &&& kind matches VerificationErrorKind::InvalidJumpTarget { target, .. }
            &&& target.0 == c.instructions.len()
        },
    }
}

/// The function of a function literal is well built.
pub open spec fn well_built_function(f: FunctionView) -> bool {
    f.kind matches FunctionKindView::Bytecode(c) && f == bytecode_function(c) && well_built(c)
}

/// Code that has been generated behind other code, which it leaves as it is.
pub open spec fn builds_on(g: Gen, h: Gen) -> bool {
    &&& in_order(h)
    &&& within(bounds(g), bounds(h))
    &&& h.capture_count == g.capture_count
    &&& h.arity == g.arity
    &&& h.name == g.name
    &&& h.boxed == g.boxed
    &&& h.captures == g.captures
    &&& h.constants.take(g.constants.len() as int) == g.constants
    &&& h.strings.take(g.strings.len() as int) == g.strings
    &&& h.code.take(g.code.len() as int) == g.code
    &&& forall|i: int| g.code.len() <= i < h.code.len() ==> fits(#[trigger] h.code[i], bounds(h))
    &&& g.generated.len() <= h.generated.len()
    &&& h.generated.take(g.generated.len() as int) == g.generated
    &&& forall|i: int|
        g.generated.len() <= i < h.generated.len() ==> well_built_function(
            #[trigger] h.generated[i],
        )
}

/// A beginning of a beginning is a beginning.
pub(crate) proof fn lemma_prefix<T>(f: Seq<T>, g: Seq<T>, h: Seq<T>)
    requires
        f.len() <= g.len() <= h.len(),
        g.take(f.len() as int) == f,
        h.take(g.len() as int) == g,
    ensures
        h.take(f.len() as int) == f,
{
    assert(h.take(f.len() as int) =~= h.take(g.len() as int).take(f.len() as int));
}

proof fn lemma_builds_on_itself(g: Gen)
    requires
        in_order(g),
    ensures
        builds_on(g, g),
{
    assert(g.code.take(g.code.len() as int) =~= g.code);
    assert(g.constants.take(g.constants.len() as int) =~= g.constants);
    assert(g.strings.take(g.strings.len() as int) =~= g.strings);
    assert(g.generated.take(g.generated.len() as int) =~= g.generated);
}

proof fn lemma_builds_on_both(f: Gen, g: Gen, h: Gen)
    requires
        builds_on(f, g),
        builds_on(g, h),
    ensures
        builds_on(f, h),
{
    assert forall|i: int| 0 <= i < g.code.len() implies h.code[i] == g.code[i] by {
        assert(h.code.take(g.code.len() as int)[i] == h.code[i]);
    }
    assert(h.code.take(f.code.len() as int) =~= g.code.take(f.code.len() as int));
    lemma_prefix(f.constants, g.constants, h.constants);
    lemma_prefix(f.strings, g.strings, h.strings);
    assert forall|i: int| 0 <= i < g.generated.len() implies h.generated[i] == g.generated[i] by {
        assert(h.generated.take(g.generated.len() as int)[i] == h.generated[i]);
    }
    assert(h.generated.take(f.generated.len() as int) =~= g.generated.take(
        f.generated.len() as int,
    ));
    assert forall|i: int| f.code.len() <= i < h.code.len() implies fits(
        #[trigger] h.code[i],
        bounds(h),
    ) by {
        if i < g.code.len() {
            lemma_fits_within(g.code[i], bounds(g), bounds(h));
        }
    }
}

/// More registers may be in use, and the pools may have grown.
proof fn lemma_same_code(g: Gen, h: Gen)
    requires
        in_order(h),
        within(bounds(g), bounds(h)),
        h.constants.take(g.constants.len() as int) =~= g.constants,
        h.strings.take(g.strings.len() as int) =~= g.strings,
        h.capture_count == g.capture_count,
        h.arity == g.arity,
        h.name == g.name,
        h.boxed == g.boxed,
        h.captures == g.captures,
        h.code == g.code,
        h.generated == g.generated,
    ensures
        builds_on(g, h),
{
    assert(h.code.take(g.code.len() as int) =~= g.code);
    assert(h.generated.take(g.generated.len() as int) =~= g.generated);
}

/// One more instruction builds on the code before it.
pub(crate) proof fn lemma_emit(g: Gen, instruction: Instruction, span: Option<SourceSpan>)
    requires
        in_order(g),
        fits(instruction, bounds(emit(g, instruction, span))),
    ensures
        builds_on(g, emit(g, instruction, span)),
        emit(g, instruction, span).code.len() == g.code.len() + 1,
{
    let h = emit(g, instruction, span);
    assert(h.code.take(g.code.len() as int) =~= g.code);
    assert(h.constants.take(g.constants.len() as int) =~= g.constants);
    assert(h.strings.take(g.strings.len() as int) =~= g.strings);
    assert(h.generated.take(g.generated.len() as int) =~= g.generated);
}

/// One more instruction builds on what the code before it builds on.
proof fn lemma_then_emit(f: Gen, g: Gen, instruction: Instruction, span: Option<SourceSpan>)
    requires
        builds_on(f, g),
        fits(instruction, bounds(emit(g, instruction, span))),
    ensures
        builds_on(f, emit(g, instruction, span)),
        emit(g, instruction, span).code.len() == g.code.len() + 1,
{
    lemma_emit(g, instruction, span);
    lemma_builds_on_both(f, g, emit(g, instruction, span));
}

pub(crate) proof fn lemma_fresh(g: Gen)
    requires
        in_order(g),
    ensures
        fresh(g) matches Ok((h, register)) ==> builds_on(g, h) && register.0 < h.next_register
            && h.locals == g.locals && h.code == g.code,
{
    if let Ok((h, register)) = fresh(g) {
        lemma_same_code(g, h);
    }
}

pub(crate) proof fn lemma_reserve(g: Gen, count: nat)
    requires
        in_order(g),
        g.next_register > 0,
    ensures
        reserve(g, count) matches Ok((h, start)) ==> builds_on(g, h) && row_fits(
            start,
            count,
            bounds(h),
        ) && h.locals == g.locals,
{
    if let Ok((h, start)) = reserve(g, count) {
        lemma_same_code(g, h);
    }
}

pub(crate) proof fn lemma_load_variable(name: Seq<char>, span: SourceSpan, dst: Register, g: Gen)
    requires
        in_order(g),
        dst.0 < g.next_register,
    ensures
        load_variable(name, span, dst, g) matches Ok(h) ==> builds_on(g, h) && h.locals == g.locals,
{
    lemma_builds_on_itself(g);
    if g.locals.contains_key(name) {
        let local = g.locals[name];
        if local.cell {
            lemma_emit(g, Instruction::LoadUpvalue { dst, upvalue: local.register }, Some(span));
        } else if local.register != dst {
            lemma_emit(g, Instruction::Move { dst, src: local.register }, Some(span));
        }
    } else if g.captures.contains_key(name) {
        lemma_emit(g, Instruction::LoadCapture { dst, capture: g.captures[name] }, Some(span));
    }
}

pub(crate) proof fn lemma_read_variable(name: Seq<char>, span: SourceSpan, g: Gen)
    requires
        in_order(g),
    ensures
        read_variable(name, span, g) matches Ok((h, register)) ==> builds_on(g, h) && register.0
            < h.next_register && h.locals == g.locals,
{
    lemma_builds_on_itself(g);
    if g.locals.contains_key(name) && !g.locals[name].cell {
    } else if g.locals.contains_key(name) || g.captures.contains_key(name) {
        lemma_fresh(g);
        if let Ok((f, dst)) = fresh(g) {
            lemma_load_variable(name, span, dst, f);
            if let Ok(h) = load_variable(name, span, dst, f) {
                lemma_builds_on_both(g, f, h);
            }
        }
    }
}

pub(crate) proof fn lemma_store_variable(name: Seq<char>, span: SourceSpan, src: Register, g: Gen)
    requires
        in_order(g),
        src.0 < g.next_register,
        g.locals.contains_key(name) || g.captures.contains_key(name),
    ensures
        builds_on(g, store_variable(name, span, src, g)),
        store_variable(name, span, src, g).locals == g.locals,
{
    if g.locals.contains_key(name) {
        lemma_emit(
            g,
            Instruction::StoreUpvalue { upvalue: g.locals[name].register, src },
            Some(span),
        );
    } else {
        lemma_emit(
            g,
            Instruction::StoreCapture { capture: g.captures[name], src },
            Some(span),
        );
    }
}

pub(crate) proof fn lemma_load_literal(value: LiteralView, span: SourceSpan, dst: Register, g: Gen)
    requires
        in_order(g),
        dst.0 < g.next_register,
    ensures
        load_literal(value, span, dst, g) matches Ok(h) ==> builds_on(g, h) && h.locals == g.locals,
{
    match value {
        LiteralView::Text(text) => {
            if g.strings.len() <= u16::MAX {
                let string = StringId(g.strings.len() as u16);
                let pooled = Gen { strings: g.strings.push(text), ..g };
                lemma_same_code(g, pooled);
                lemma_then_emit(
                    g,
                    pooled,
                    Instruction::LoadString { dst, string },
                    Some(span),
                );
            }
        },
        LiteralView::Int(value) => lemma_load_constant(Value::Int(value), span, dst, g),
        LiteralView::Bool(value) => lemma_load_constant(Value::Bool(value), span, dst, g),
        LiteralView::Nil => lemma_load_constant(Value::Nil, span, dst, g),
    }
}

proof fn lemma_load_constant(value: Value, span: SourceSpan, dst: Register, g: Gen)
    requires
        in_order(g),
        dst.0 < g.next_register,
    ensures
        load_constant(value, span, dst, g) matches Ok(h) ==> builds_on(g, h) && h.locals
            == g.locals,
{
    if g.constants.len() <= u16::MAX {
        let constant = ConstId(g.constants.len() as u16);
        let pooled = Gen { constants: g.constants.push(value), ..g };
        lemma_same_code(g, pooled);
        lemma_then_emit(g, pooled, Instruction::LoadConst { dst, constant }, Some(span));
    }
}

pub(crate) proof fn lemma_load_cells(names: Seq<Seq<char>>, i: int, start: Register, span: SourceSpan, g: Gen)
    requires
        in_order(g),
        0 <= i <= names.len(),
        row_fits(start, names.len(), bounds(g)),
    ensures
        load_cells(names, i, start, span, g) matches Ok(h) ==> builds_on(g, h) && h.locals
            == g.locals,
    decreases names.len() - i,
{
    lemma_builds_on_itself(g);
    if i < names.len() {
        let dst = nth(start, i);
        let name = names[i];
        if g.locals.contains_key(name) {
            lemma_emit(g, Instruction::Move { dst, src: g.locals[name].register }, Some(span));
        } else if g.captures.contains_key(name) {
            lemma_emit(
                g,
                Instruction::LoadCaptureCell { dst, capture: g.captures[name] },
                Some(span),
            );
        }
        if let Ok(f) = load_cell(name, span, dst, g) {
            lemma_load_cells(names, i + 1, start, span, f);
            if let Ok(h) = load_cells(names, i + 1, start, span, f) {
                lemma_builds_on_both(g, f, h);
            }
        }
    }
}

// ---------------------------------------------------------------------------
// Functions
// ---------------------------------------------------------------------------

/// All code of a function is in bounds.
pub open spec fn all_fit(g: Gen) -> bool {
    &&& in_order(g)
    &&& forall|i: int| 0 <= i < g.code.len() ==> fits(#[trigger] g.code[i], bounds(g))
}

/// Code in bounds is sound, but for jumps behind the last instruction.
proof fn lemma_fitting_instruction(g: Gen, c: ChunkView, ip: int)
    requires
        all_fit(g),
        finished(g) == Ok::<ChunkView, CompileErrorView>(c),
        0 <= ip < c.instructions.len(),
    ensures
        only_leads_behind(c, ip),
{
    let instruction = g.code[ip];
    let v = instruction@;
    assert(c.instructions[ip] == v);
    assert(c.instructions.len() == g.code.len());
    assert(fits(instruction, bounds(g)));
    reveal_with_fuel(registers_in, 5);
    reveal_with_fuel(texts_in, 5);
    reveal_with_fuel(first_invalid_register, 5);
    reveal_with_fuel(first_invalid_text, 3);
}

/// A finished function is well built.
pub(crate) proof fn lemma_finished(g: Gen)
    requires
        all_fit(g),
    ensures
        finished(g) matches Ok(c) ==> well_built(c),
{
    if let Ok(c) = finished(g) {
        assert(c.instructions.len() == g.code.len());
        assert forall|ip: int| 0 <= ip < c.instructions.len() implies #[trigger] only_leads_behind(
            c,
            ip,
        ) by {
            lemma_fitting_instruction(g, c, ip);
        }
    }
}

/// What is generated behind code in bounds is in bounds with it.
pub(crate) proof fn lemma_all_fit(g: Gen, h: Gen)
    requires
        all_fit(g),
        builds_on(g, h),
    ensures
        all_fit(h),
{
    assert forall|i: int| 0 <= i < h.code.len() implies fits(#[trigger] h.code[i], bounds(h)) by {
        if i < g.code.len() {
            assert(h.code.take(g.code.len() as int)[i] == h.code[i]);
            lemma_fits_within(g.code[i], bounds(g), bounds(h));
        }
    }
}

proof fn lemma_enter(params: Seq<Seq<char>>, i: int, g: Gen)
    requires
        all_fit(g),
        0 <= i <= params.len(),
        params.len() <= g.next_register,
    ensures
        all_fit(enter(params, i, g)),
        enter(params, i, g).generated == g.generated,
        enter(params, i, g).captures == g.captures,
        enter(params, i, g).next_register == g.next_register,
        enter(params, i, g).capture_count == g.capture_count,
        enter(params, i, g).arity == g.arity,
        enter(params, i, g).name == g.name,
        enter(params, i, g).boxed == g.boxed,
        enter(params, i, g).next_function_id == g.next_function_id,
        forall|name: Seq<char>|
            g.locals.contains_key(name) ==> #[trigger] enter(params, i, g).locals.contains_key(name),
        forall|k: int|
            i <= k < params.len() ==> enter(params, i, g).locals.contains_key(#[trigger] params[k]),
    decreases params.len() - i,
{
    if i < params.len() {
        let register = Register(i as u8);
        let cell = g.boxed.contains(params[i]);
        let named = named_local(params[i], register, cell, g);
        if cell {
            let instruction = Instruction::MakeUpvalue { dst: register, src: register };
            lemma_emit(named, instruction, None);
            lemma_all_fit(named, emit(named, instruction, None));
            lemma_enter(params, i + 1, emit(named, instruction, None));
        } else {
            lemma_enter(params, i + 1, named);
        }
    }
}

/// The code at the beginning of a function holds no jumps.
proof fn lemma_enter_only_boxes(params: Seq<Seq<char>>, i: int, g: Gen)
    requires
        0 <= i <= params.len(),
        forall|k: int| 0 <= k < g.code.len() ==> #[trigger] g.code[k] is MakeUpvalue,
    ensures
        forall|k: int|
            0 <= k < enter(params, i, g).code.len() ==> #[trigger] enter(params, i, g).code[k]
                is MakeUpvalue,
    decreases params.len() - i,
{
    if i < params.len() {
        let register = Register(i as u8);
        let cell = g.boxed.contains(params[i]);
        let named = named_local(params[i], register, cell, g);
        if cell {
            let instruction = Instruction::MakeUpvalue { dst: register, src: register };
            lemma_enter_only_boxes(params, i + 1, emit(named, instruction, None));
        } else {
            lemma_enter_only_boxes(params, i + 1, named);
        }
    }
}

proof fn lemma_numbered(names: Seq<Seq<char>>, i: int, captures: Map<Seq<char>, CaptureId>)
    requires
        0 <= i <= names.len() <= MAX_OPERANDS,
        forall|name: Seq<char>|
            captures.contains_key(name) ==> (#[trigger] captures[name]).0 < names.len(),
    ensures
        forall|name: Seq<char>|
            numbered(names, i, captures).contains_key(name) ==> (#[trigger] numbered(
                names,
                i,
                captures,
            )[name]).0 < names.len(),
        forall|name: Seq<char>|
            captures.contains_key(name) ==> #[trigger] numbered(names, i, captures).contains_key(
                name,
            ),
        forall|k: int|
            i <= k < names.len() ==> numbered(names, i, captures).contains_key(#[trigger] names[k]),
    decreases names.len() - i,
{
    if i < names.len() {
        let more = captures.insert(names[i], CaptureId(i as u8));
        lemma_numbered(names, i + 1, more);
        assert(numbered(names, i, captures) == numbered(names, i + 1, more));
    } else {
        assert(numbered(names, i, captures) == captures);
    }
}

/// The beginning of a function is in bounds.
pub(crate) proof fn lemma_begin(
    name: Seq<char>,
    params: Seq<Seq<char>>,
    captures: Seq<Seq<char>>,
    boxed: Set<Seq<char>>,
    next_function_id: nat,
)
    ensures
        begin(name, params, captures, boxed, next_function_id) matches Ok(g) ==> {
            &&& all_fit(g)
            &&& g.generated.len() == 0
            &&& g.name == name
            &&& g.boxed == boxed
            &&& g.arity == params.len()
            &&& g.capture_count == captures.len()
            &&& g.next_function_id == next_function_id
            &&& forall|k: int|
                0 <= k < params.len() ==> g.locals.contains_key(#[trigger] params[k])
            &&& forall|k: int|
                0 <= k < captures.len() ==> g.captures.contains_key(#[trigger] captures[k])
            &&& forall|k: int| 0 <= k < g.code.len() ==> #[trigger] g.code[k] is MakeUpvalue
        },
{
    if params.len() <= MAX_OPERANDS && captures.len() <= MAX_OPERANDS {
        lemma_numbered(captures, 0, Map::empty());
        let first = Gen {
            name,
            arity: params.len() as u8,
            capture_count: captures.len() as u8,
            constants: Seq::empty(),
            strings: Seq::empty(),
            code: Seq::empty(),
            spans: Seq::empty(),
            locals: Map::empty(),
            captures: numbered(captures, 0, Map::empty()),
            boxed,
            next_register: params.len(),
            next_function_id,
            generated: Seq::empty(),
        };
        lemma_enter(params, 0, first);
        lemma_enter_only_boxes(params, 0, first);
    }
}

// ---------------------------------------------------------------------------
// Expressions
// ---------------------------------------------------------------------------

pub(crate) proof fn lemma_expr(expr: ExprView, g: Gen, fs: FunctionIds)
    requires
        in_order(g),
    ensures
        gen_expr(expr, g, fs) matches Ok((h, register)) ==> builds_on(g, h) && register.0
            < h.next_register && h.locals == g.locals,
    decreases expr, 1int,
{
    if let ExprView::Variable { name, span } = expr {
        lemma_read_variable(name, span, g);
    } else {
        lemma_fresh(g);
        if let Ok((f, dst)) = fresh(g) {
            lemma_into(expr, dst, f, fs);
            if let Ok(h) = gen_into(expr, dst, f, fs) {
                lemma_builds_on_both(g, f, h);
            }
        }
    }
}

#[verifier::rlimit(40)]
pub(crate) proof fn lemma_into(expr: ExprView, dst: Register, g: Gen, fs: FunctionIds)
    requires
        in_order(g),
        dst.0 < g.next_register,
    ensures
        gen_into(expr, dst, g, fs) matches Ok(h) ==> builds_on(g, h) && h.locals == g.locals,
    decreases expr, 0int,
{
    match expr {
        ExprView::Literal { value, span } => lemma_load_literal(value, span, dst, g),
        ExprView::Variable { name, span } => lemma_load_variable(name, span, dst, g),
        ExprView::Binary { op, lhs, rhs, span } => {
            lemma_expr(*lhs, g, fs);
            if let Ok((f, left)) = gen_expr(*lhs, g, fs) {
                lemma_expr(*rhs, f, fs);
                if let Ok((h, right)) = gen_expr(*rhs, f, fs) {
                    lemma_builds_on_both(g, f, h);
                    lemma_then_emit(g, h, operation(op, dst, left, right), Some(span));
                }
            }
        },
        ExprView::Array { elements, span } => {
            lemma_row(elements, g, fs);
            if let Ok((f, elements_start)) = gen_row(elements, g, fs) {
                if elements.len() <= MAX_OPERANDS {
                    lemma_then_emit(
                        g,
                        f,
                        Instruction::ArrayNew {
                            dst,
                            elements_start,
                            element_count: elements.len() as u8,
                        },
                        Some(span),
                    );
                }
            }
        },
        ExprView::MapLiteral { entries, span } => {
            lemma_reserve(g, 2 * entries.len());
            if let Ok((f, entries_start)) = reserve(g, 2 * entries.len()) {
                lemma_entries(entries, 0, entries_start, f, fs);
                if let Ok(h) = gen_entries(entries, 0, entries_start, f, fs) {
                    lemma_builds_on_both(g, f, h);
                    if entries.len() <= MAX_OPERANDS {
                        lemma_then_emit(
                            g,
                            h,
                            Instruction::MapNew {
                                dst,
                                entries_start,
                                entry_count: entries.len() as u8,
                            },
                            Some(span),
                        );
                    }
                }
            }
        },
        ExprView::Index { target, index, span } => {
            lemma_expr(*target, g, fs);
            if let Ok((f, target)) = gen_expr(*target, g, fs) {
                lemma_expr(*index, f, fs);
                if let Ok((h, index)) = gen_expr(*index, f, fs) {
                    lemma_builds_on_both(g, f, h);
                    lemma_then_emit(
                        g,
                        h,
                        Instruction::IndexGet { dst, target, index },
                        Some(span),
                    );
                }
            }
        },
        ExprView::Call { callee, args, span } => {
            lemma_row(args, g, fs);
            if let Ok((f, args_start)) = gen_row(args, g, fs) {
                if args.len() <= MAX_OPERANDS {
                    lemma_call(callee, args_start, args.len() as u8, span, dst, g, f, fs);
                }
            }
        },
        ExprView::Function { params, body, span } => lemma_function(params, body, span, dst, g, fs),
        ExprView::Grouping { expr, .. } => lemma_into(*expr, dst, g, fs),
    }
}

proof fn lemma_call(
    callee: Seq<char>,
    args_start: Register,
    arg_count: u8,
    span: SourceSpan,
    dst: Register,
    g: Gen,
    f: Gen,
    fs: FunctionIds,
)
    requires
        builds_on(g, f),
        dst.0 < g.next_register,
        row_fits(args_start, arg_count as nat, bounds(f)),
    ensures
        gen_call(callee, args_start, arg_count, span, dst, f, fs) matches Ok(h) ==> builds_on(g, h)
            && h.locals == f.locals,
{
    if fs.contains_key(callee) {
        lemma_then_emit(
            g,
            f,
            Instruction::CallFunction { dst, function: fs[callee], args_start, arg_count },
            Some(span),
        );
    } else {
        lemma_read_variable(callee, span, f);
        if let Ok((h, callee)) = read_variable(callee, span, f) {
            lemma_builds_on_both(g, f, h);
            lemma_then_emit(
                g,
                h,
                Instruction::CallValue { dst, callee, args_start, arg_count },
                Some(span),
            );
        }
    }
}

proof fn lemma_function(
    params: Seq<Seq<char>>,
    body: Seq<StmtView>,
    span: SourceSpan,
    dst: Register,
    g: Gen,
    fs: FunctionIds,
)
    requires
        in_order(g),
        dst.0 < g.next_register,
    ensures
        gen_into(ExprView::Function { params, body, span }, dst, g, fs) matches Ok(h)
            ==> builds_on(g, h) && h.locals == g.locals,
    decreases body, body.len() + 1,
{
    let names = known_names(free_names(params, body, fs), 0, g);
    let id = g.next_function_id;
    let boxed = captured_in_stmts(body, 0, fs, Set::empty());
    if id < MAX_FUNCTIONS {
        lemma_begin(closure_name(id), params, names, boxed, id + 1);
        if let Ok(inner) = begin(closure_name(id), params, names, boxed, id + 1) {
            lemma_stmts(body, 0, inner, fs);
            if let Ok(last) = gen_stmts(body, 0, inner, fs) {
                lemma_all_fit(inner, last);
                lemma_finished(last);
                assert(names.len() <= MAX_OPERANDS);
                lemma_closure(names, id, span, last, dst, g);
            }
        }
    }
}

proof fn lemma_closure(
    names: Seq<Seq<char>>,
    id: nat,
    span: SourceSpan,
    inner: Gen,
    dst: Register,
    g: Gen,
)
    requires
        in_order(g),
        dst.0 < g.next_register,
        names.len() <= MAX_OPERANDS,
        finished(inner) matches Ok(c) ==> well_built(c),
        forall|i: int| 0 <= i < inner.generated.len() ==> well_built_function(
            #[trigger] inner.generated[i],
        ),
    ensures
        gen_closure(names, id, span, inner, dst, g) matches Ok(h) ==> builds_on(g, h) && h.locals
            == g.locals,
{
    if let Ok(chunk) = finished(inner) {
        let all = g.generated.push(bytecode_function(chunk)) + inner.generated;
        let f = Gen { next_function_id: inner.next_function_id, generated: all, ..g };
        assert(builds_on(g, f)) by {
            assert(f.code.take(g.code.len() as int) =~= g.code);
            assert(f.constants.take(g.constants.len() as int) =~= g.constants);
            assert(f.strings.take(g.strings.len() as int) =~= g.strings);
            assert(all.take(g.generated.len() as int) =~= g.generated);
        }
        lemma_reserve(f, names.len());
        if let Ok((k, start)) = reserve(f, names.len()) {
            lemma_builds_on_both(g, f, k);
            lemma_load_cells(names, 0, start, span, k);
            if let Ok(h) = load_cells(names, 0, start, span, k) {
                lemma_builds_on_both(g, k, h);
                lemma_then_emit(
                    g,
                    h,
                    Instruction::MakeClosure {
                        dst,
                        function: FunctionId(id as u16),
                        captures_start: start,
                        capture_count: names.len() as u8,
                    },
                    Some(span),
                );
            }
        }
    }
}

pub(crate) proof fn lemma_row(exprs: Seq<ExprView>, g: Gen, fs: FunctionIds)
    requires
        in_order(g),
        g.next_register > 0,
    ensures
        gen_row(exprs, g, fs) matches Ok((h, start)) ==> builds_on(g, h) && row_fits(
            start,
            exprs.len(),
            bounds(h),
        ) && h.locals == g.locals,
    decreases exprs, exprs.len() + 1,
{
    lemma_reserve(g, exprs.len());
    if let Ok((f, start)) = reserve(g, exprs.len()) {
        lemma_list(exprs, 0, start, f, fs);
        if let Ok(h) = gen_list(exprs, 0, start, f, fs) {
            lemma_builds_on_both(g, f, h);
        }
    }
}

pub(crate) proof fn lemma_list(exprs: Seq<ExprView>, i: int, start: Register, g: Gen, fs: FunctionIds)
    requires
        in_order(g),
        0 <= i <= exprs.len(),
        row_fits(start, exprs.len(), bounds(g)),
    ensures
        gen_list(exprs, i, start, g, fs) matches Ok(h) ==> builds_on(g, h) && h.locals == g.locals,
    decreases exprs, exprs.len() - i,
{
    lemma_builds_on_itself(g);
    if i < exprs.len() {
        lemma_into(exprs[i], nth(start, i), g, fs);
        if let Ok(f) = gen_into(exprs[i], nth(start, i), g, fs) {
            lemma_list(exprs, i + 1, start, f, fs);
            if let Ok(h) = gen_list(exprs, i + 1, start, f, fs) {
                lemma_builds_on_both(g, f, h);
            }
        }
    }
}

pub(crate) proof fn lemma_entries(
    entries: Seq<(ExprView, ExprView)>,
    i: int,
    start: Register,
    g: Gen,
    fs: FunctionIds,
)
    requires
        in_order(g),
        0 <= i <= entries.len(),
        row_fits(start, 2 * entries.len(), bounds(g)),
    ensures
        gen_entries(entries, i, start, g, fs) matches Ok(h) ==> builds_on(g, h) && h.locals
            == g.locals,
    decreases entries, entries.len() - i,
{
    lemma_builds_on_itself(g);
    if i < entries.len() {
        lemma_into(entries[i].0, nth(start, 2 * i), g, fs);
        if let Ok(e) = gen_into(entries[i].0, nth(start, 2 * i), g, fs) {
            lemma_into(entries[i].1, nth(start, 2 * i + 1), e, fs);
            if let Ok(f) = gen_into(entries[i].1, nth(start, 2 * i + 1), e, fs) {
                lemma_builds_on_both(g, e, f);
                lemma_entries(entries, i + 1, start, f, fs);
                if let Ok(h) = gen_entries(entries, i + 1, start, f, fs) {
                    lemma_builds_on_both(g, f, h);
                }
            }
        }
    }
}

// ---------------------------------------------------------------------------
// Statements
// ---------------------------------------------------------------------------

pub(crate) proof fn lemma_stmts(stmts: Seq<StmtView>, i: int, g: Gen, fs: FunctionIds)
    requires
        in_order(g),
        0 <= i <= stmts.len(),
    ensures
        gen_stmts(stmts, i, g, fs) matches Ok(h) ==> builds_on(g, h),
    decreases stmts, stmts.len() - i,
{
    lemma_builds_on_itself(g);
    if i < stmts.len() {
        lemma_stmt(stmts[i], g, fs);
        if let Ok(f) = gen_stmt(stmts[i], g, fs) {
            lemma_stmts(stmts, i + 1, f, fs);
            if let Ok(h) = gen_stmts(stmts, i + 1, f, fs) {
                lemma_builds_on_both(g, f, h);
            }
        }
    }
}

pub(crate) proof fn lemma_block(stmts: Seq<StmtView>, g: Gen, fs: FunctionIds)
    requires
        in_order(g),
    ensures
        gen_block(stmts, g, fs) matches Ok(h) ==> builds_on(g, h) && h.locals == g.locals,
    decreases stmts, stmts.len() + 1,
{
    lemma_stmts(stmts, 0, g, fs);
    if let Ok(f) = gen_stmts(stmts, 0, g, fs) {
        let h = Gen { locals: g.locals, ..f };
        assert(in_order(h));
        assert(bounds(h) == bounds(f));
    }
}

/// A variable that becomes visible does not change the code.
pub(crate) proof fn lemma_named(name: Seq<char>, register: Register, cell: bool, g: Gen)
    requires
        in_order(g),
        register.0 < g.next_register,
    ensures
        builds_on(g, named_local(name, register, cell, g)),
{
    lemma_same_code(g, named_local(name, register, cell, g));
}

proof fn lemma_let(name: Seq<char>, initializer: ExprView, span: SourceSpan, stmt: StmtView, g: Gen, fs: FunctionIds)
    requires
        in_order(g),
        stmt matches StmtView::Let { name: n, initializer: e, span: s, .. } && n == name && e
            == initializer && s == span,
    ensures
        gen_stmt(stmt, g, fs) matches Ok(h) ==> builds_on(g, h) && h.locals.dom()
            == g.locals.dom().insert(name),
    decreases initializer, 2int,
{
    lemma_fresh(g);
    if let Ok((f, register)) = fresh(g) {
        if g.boxed.contains(name) && initializer is Function {
            let instruction = Instruction::MakeUpvalue { dst: register, src: register };
            lemma_then_emit(g, f, instruction, Some(span));
            let boxed = boxed_register(register, span, f);
            let named = named_local(name, register, true, boxed);
            lemma_named(name, register, true, boxed);
            lemma_builds_on_both(g, boxed, named);
            lemma_expr(initializer, named, fs);
            if let Ok((k, src)) = gen_expr(initializer, named, fs) {
                lemma_builds_on_both(g, named, k);
                lemma_store_variable(name, span, src, k);
                lemma_builds_on_both(g, k, store_variable(name, span, src, k));
            }
        } else {
            lemma_into(initializer, register, f, fs);
            if let Ok(k) = gen_into(initializer, register, f, fs) {
                lemma_builds_on_both(g, f, k);
                if g.boxed.contains(name) {
                    let instruction = Instruction::MakeUpvalue { dst: register, src: register };
                    lemma_then_emit(g, k, instruction, Some(span));
                    let boxed = boxed_register(register, span, k);
                    lemma_named(name, register, true, boxed);
                    lemma_builds_on_both(g, boxed, named_local(name, register, true, boxed));
                } else {
                    lemma_named(name, register, false, k);
                    lemma_builds_on_both(g, k, named_local(name, register, false, k));
                }
            }
        }
    }
}

/// A jump whose target is still open.
pub open spec fn open_fits(instruction: Instruction, b: Bounds) -> bool {
    match instruction {
        Instruction::Jump { .. } => true,
        Instruction::JumpIfFalse { condition, .. } => condition.0 < b.registers,
        _ => false,
    }
}

/// Code that builds on other code, but for the jumps at some places, whose targets are open.
pub open spec fn builds_but(g: Gen, h: Gen, open: Set<int>) -> bool {
    &&& in_order(h)
    &&& within(bounds(g), bounds(h))
    &&& h.capture_count == g.capture_count
    &&& h.arity == g.arity
    &&& h.name == g.name
    &&& h.boxed == g.boxed
    &&& h.captures == g.captures
    &&& h.constants.take(g.constants.len() as int) == g.constants
    &&& h.strings.take(g.strings.len() as int) == g.strings
    &&& h.code.take(g.code.len() as int) == g.code
    &&& forall|i: int|
        g.code.len() <= i < h.code.len() && !open.contains(i) ==> fits(
            #[trigger] h.code[i],
            bounds(h),
        )
    &&& forall|i: int|
        #[trigger] open.contains(i) ==> g.code.len() <= i < h.code.len() && open_fits(
            h.code[i],
            bounds(h),
        )
    &&& g.generated.len() <= h.generated.len()
    &&& h.generated.take(g.generated.len() as int) == g.generated
    &&& forall|i: int|
        g.generated.len() <= i < h.generated.len() ==> well_built_function(
            #[trigger] h.generated[i],
        )
}

proof fn lemma_but_then(f: Gen, g: Gen, h: Gen, open: Set<int>)
    requires
        builds_but(f, g, open),
        builds_on(g, h),
    ensures
        builds_but(f, h, open),
{
    assert forall|i: int| 0 <= i < g.code.len() implies h.code[i] == g.code[i] by {
        assert(h.code.take(g.code.len() as int)[i] == h.code[i]);
    }
    assert(h.code.take(f.code.len() as int) =~= g.code.take(f.code.len() as int));
    lemma_prefix(f.constants, g.constants, h.constants);
    lemma_prefix(f.strings, g.strings, h.strings);
    assert forall|i: int| 0 <= i < g.generated.len() implies h.generated[i] == g.generated[i] by {
        assert(h.generated.take(g.generated.len() as int)[i] == h.generated[i]);
    }
    assert(h.generated.take(f.generated.len() as int) =~= g.generated.take(
        f.generated.len() as int,
    ));
    assert forall|i: int| f.code.len() <= i < h.code.len() && !open.contains(i) implies fits(
        #[trigger] h.code[i],
        bounds(h),
    ) by {
        if i < g.code.len() {
            lemma_fits_within(g.code[i], bounds(g), bounds(h));
        }
    }
}

/// An open jump behind other code.
proof fn lemma_emit_open(f: Gen, g: Gen, open: Set<int>, instruction: Instruction, span: Option<SourceSpan>)
    requires
        builds_but(f, g, open),
        open_fits(instruction, bounds(g)),
    ensures
        builds_but(f, emit(g, instruction, span), open.insert(g.code.len() as int)),
{
    let h = emit(g, instruction, span);
    assert(h.code.take(f.code.len() as int) =~= g.code.take(f.code.len() as int));
    assert forall|i: int|
        f.code.len() <= i < h.code.len() && !open.insert(g.code.len() as int).contains(
            i,
        ) implies fits(#[trigger] h.code[i], bounds(h)) by {
        lemma_fits_within(g.code[i], bounds(g), bounds(h));
    }
}

/// An open jump that gets its target.
proof fn lemma_patch(f: Gen, g: Gen, open: Set<int>, index: nat)
    requires
        builds_but(f, g, open),
        open.contains(index as int),
    ensures
        patch_here(g, index) matches Ok(h) ==> builds_but(f, h, open.remove(index as int))
            && h.code.len() == g.code.len(),
{
    if let Ok(h) = patch_here(g, index) {
        assert(h.code.take(f.code.len() as int) =~= g.code.take(f.code.len() as int));
        assert(bounds(h) == bounds(g));
        assert forall|i: int|
            f.code.len() <= i < h.code.len() && !open.remove(index as int).contains(
                i,
            ) implies fits(#[trigger] h.code[i], bounds(h)) by {
            if i != index {
                assert(h.code[i] == g.code[i]);
            }
        }
    }
}

proof fn lemma_no_open(f: Gen, g: Gen, open: Set<int>)
    requires
        forall|i: int| !open.contains(i),
    ensures
        builds_but(f, g, open) <==> builds_on(f, g),
{
}

#[verifier::rlimit(40)]
proof fn lemma_if(stmt: StmtView, g: Gen, fs: FunctionIds)
    requires
        in_order(g),
        stmt is If,
    ensures
        gen_stmt(stmt, g, fs) matches Ok(h) ==> builds_on(g, h) && h.locals == g.locals,
    decreases stmt, 0int,
{
    let condition = stmt->If_condition;
    let then_branch = stmt->then_branch;
    let else_branch = stmt->else_branch;
    let span = stmt->If_span;
    lemma_expr(condition, g, fs);
    if let Ok((e, condition)) = gen_expr(condition, g, fs) {
        let to_else = e.code.len();
        let jumped = emit(e, open_jump_if_false(condition), Some(span));
        let one = Set::<int>::empty().insert(to_else as int);
        lemma_no_open(g, e, Set::empty());
        lemma_emit_open(g, e, Set::empty(), open_jump_if_false(condition), Some(span));
        lemma_block(then_branch, jumped, fs);
        if let Ok(f) = gen_block(then_branch, jumped, fs) {
            lemma_but_then(g, jumped, f, one);
            if else_branch.len() == 0 {
                lemma_patch(g, f, one, to_else);
                if let Ok(h) = patch_here(f, to_else) {
                    lemma_no_open(g, h, one.remove(to_else as int));
                }
            } else if always_return(then_branch) {
                lemma_patch(g, f, one, to_else);
                if let Ok(k) = patch_here(f, to_else) {
                    lemma_no_open(g, k, one.remove(to_else as int));
                    lemma_block(else_branch, k, fs);
                    if let Ok(h) = gen_block(else_branch, k, fs) {
                        lemma_builds_on_both(g, k, h);
                    }
                }
            } else {
                lemma_else(g, f, one, to_else, else_branch, span, fs);
            }
        }
    }
}

/// The second branch, behind a jump from the end of the first one to the end of both.
proof fn lemma_else(
    g: Gen,
    f: Gen,
    one: Set<int>,
    to_else: nat,
    else_branch: Seq<StmtView>,
    span: SourceSpan,
    fs: FunctionIds,
)
    requires
        builds_but(g, f, one),
        one == Set::<int>::empty().insert(to_else as int),
    ensures
        patch_here(emit(f, open_jump(), Some(span)), to_else) matches Ok(k) ==> gen_block(
            else_branch,
            k,
            fs,
        ) matches Ok(l) ==> patch_here(l, f.code.len()) matches Ok(h) ==> builds_on(g, h)
            && h.locals == f.locals,
    decreases else_branch, else_branch.len() + 2,
{
    let to_end = f.code.len();
    lemma_emit_open(g, f, one, open_jump(), Some(span));
    let jumped = emit(f, open_jump(), Some(span));
    let both = one.insert(to_end as int);
    lemma_patch(g, jumped, both, to_else);
    if let Ok(k) = patch_here(jumped, to_else) {
        let last = both.remove(to_else as int);
        assert(last.contains(to_end as int));
        lemma_block(else_branch, k, fs);
        if let Ok(l) = gen_block(else_branch, k, fs) {
            lemma_but_then(g, k, l, last);
            lemma_patch(g, l, last, to_end);
            if let Ok(h) = patch_here(l, to_end) {
                lemma_no_open(g, h, last.remove(to_end as int));
            }
        }
    }
}

proof fn lemma_while(stmt: StmtView, g: Gen, fs: FunctionIds)
    requires
        in_order(g),
        stmt is While,
    ensures
        gen_stmt(stmt, g, fs) matches Ok(h) ==> builds_on(g, h) && h.locals == g.locals,
    decreases stmt, 0int,
{
    let condition = stmt->While_condition;
    let body = stmt->While_body;
    let span = stmt->While_span;
    lemma_expr(condition, g, fs);
    if let Ok(loop_start) = here(g) {
        if let Ok((e, condition)) = gen_expr(condition, g, fs) {
            let to_end = e.code.len();
            let jumped = emit(e, open_jump_if_false(condition), Some(span));
            let one = Set::<int>::empty().insert(to_end as int);
            lemma_no_open(g, e, Set::empty());
            lemma_emit_open(g, e, Set::empty(), open_jump_if_false(condition), Some(span));
            lemma_block(body, jumped, fs);
            if let Ok(f) = gen_block(body, jumped, fs) {
                lemma_but_then(g, jumped, f, one);
                let back = Instruction::Jump { target: JumpTarget(loop_start) };
                lemma_emit(f, back, Some(span));
                let looped = emit(f, back, Some(span));
                lemma_but_then(g, f, looped, one);
                lemma_patch(g, looped, one, to_end);
                if let Ok(h) = patch_here(looped, to_end) {
                    lemma_no_open(g, h, one.remove(to_end as int));
                }
            }
        }
    }
}

pub(crate) proof fn lemma_stmt(stmt: StmtView, g: Gen, fs: FunctionIds)
    requires
        in_order(g),
    ensures
        gen_stmt(stmt, g, fs) matches Ok(h) ==> {
            &&& builds_on(g, h)
            &&& match stmt {
                StmtView::Let { name, .. } => h.locals.dom() == g.locals.dom().insert(name),
                _ => h.locals == g.locals,
            }
        },
    decreases stmt, 1int,
{
    lemma_builds_on_itself(g);
    match stmt {
        StmtView::Import { .. } => {},
        StmtView::Function { .. } => {},
        StmtView::Let { name, initializer, span, .. } => lemma_let(
            name,
            initializer,
            span,
            stmt,
            g,
            fs,
        ),
        StmtView::Assign { name, value, span } => {
            if g.locals.contains_key(name) && !g.locals[name].cell {
                lemma_into(value, g.locals[name].register, g, fs);
            } else if g.locals.contains_key(name) || g.captures.contains_key(name) {
                lemma_expr(value, g, fs);
                if let Ok((f, src)) = gen_expr(value, g, fs) {
                    lemma_store_variable(name, span, src, f);
                    lemma_builds_on_both(g, f, store_variable(name, span, src, f));
                }
            }
        },
        StmtView::IndexAssign { target, index, value, span } => {
            lemma_expr(target, g, fs);
            if let Ok((e, target)) = gen_expr(target, g, fs) {
                lemma_expr(index, e, fs);
                if let Ok((f, index)) = gen_expr(index, e, fs) {
                    lemma_builds_on_both(g, e, f);
                    lemma_expr(value, f, fs);
                    if let Ok((h, value)) = gen_expr(value, f, fs) {
                        lemma_builds_on_both(g, f, h);
                        lemma_then_emit(
                            g,
                            h,
                            Instruction::IndexSet { target, index, value },
                            Some(span),
                        );
                    }
                }
            }
        },
        StmtView::Return { value, span } => {
            lemma_expr(value, g, fs);
            if let Ok((h, src)) = gen_expr(value, g, fs) {
                lemma_then_emit(g, h, Instruction::Return { src }, Some(span));
            }
        },
        StmtView::Expr { value, .. } => lemma_expr(value, g, fs),
        StmtView::If { .. } => lemma_if(stmt, g, fs),
        StmtView::While { .. } => lemma_while(stmt, g, fs),
        StmtView::Block { statements, .. } => lemma_block(statements, g, fs),
    }
}

// ---------------------------------------------------------------------------
// Returning
// ---------------------------------------------------------------------------

/// An instruction does not jump to or behind a place.
pub open spec fn jumps_before(instruction: Instruction, length: nat) -> bool {
    match instruction {
        Instruction::Jump { target } => target.0 < length,
        Instruction::JumpIfFalse { target, .. } => target.0 < length,
        _ => true,
    }
}

/// Code behind other code that returns at its end: nothing in it leads behind it.
pub open spec fn ends_returning(g: Gen, h: Gen) -> bool {
    &&& g.code.len() < h.code.len()
    &&& exists|i: int| g.code.len() <= i < h.code.len() && #[trigger] h.code[i] is Return
    &&& forall|i: int|
        g.code.len() <= i < h.code.len() ==> jumps_before(#[trigger] h.code[i], h.code.len())
}

/// Code that returns at its end, behind other code.
proof fn lemma_ends_after(f: Gen, g: Gen, h: Gen)
    requires
        builds_on(f, g),
        builds_on(g, h),
        ends_returning(g, h),
    ensures
        ends_returning(f, h),
{
    assert forall|i: int| f.code.len() <= i < h.code.len() implies jumps_before(
        #[trigger] h.code[i],
        h.code.len(),
    ) by {
        if i < g.code.len() {
            assert(h.code.take(g.code.len() as int)[i] == h.code[i]);
            assert(fits(g.code[i], bounds(g)));
        }
    }
}

proof fn lemma_stmts_return(stmts: Seq<StmtView>, i: int, g: Gen, fs: FunctionIds)
    requires
        in_order(g),
        0 <= i < stmts.len(),
        always_return(stmts),
    ensures
        gen_stmts(stmts, i, g, fs) matches Ok(h) ==> ends_returning(g, h),
    decreases stmts, stmts.len() - i,
{
    lemma_stmt(stmts[i], g, fs);
    if let Ok(f) = gen_stmt(stmts[i], g, fs) {
        if i + 1 < stmts.len() {
            lemma_stmts(stmts, i + 1, f, fs);
            lemma_stmts_return(stmts, i + 1, f, fs);
            if let Ok(h) = gen_stmts(stmts, i + 1, f, fs) {
                lemma_ends_after(g, f, h);
            }
        } else {
            lemma_stmt_returns(stmts[i], g, fs);
            assert(gen_stmts(stmts, i + 1, f, fs) == Ok::<Gen, CompileErrorView>(f));
        }
    }
}

proof fn lemma_block_returns(stmts: Seq<StmtView>, g: Gen, fs: FunctionIds)
    requires
        in_order(g),
        always_return(stmts),
    ensures
        gen_block(stmts, g, fs) matches Ok(h) ==> ends_returning(g, h),
    decreases stmts, stmts.len() + 1,
{
    lemma_stmts_return(stmts, 0, g, fs);
}

proof fn lemma_stmt_returns(stmt: StmtView, g: Gen, fs: FunctionIds)
    requires
        in_order(g),
        always_returns(stmt),
    ensures
        gen_stmt(stmt, g, fs) matches Ok(h) ==> ends_returning(g, h),
    decreases stmt, 0int,
{
    match stmt {
        StmtView::Return { value, span } => {
            lemma_expr(value, g, fs);
            if let Ok((f, src)) = gen_expr(value, g, fs) {
                let h = emit(f, Instruction::Return { src }, Some(span));
                assert(h.code[f.code.len() as int] is Return);
                assert forall|i: int| g.code.len() <= i < h.code.len() implies jumps_before(
                    #[trigger] h.code[i],
                    h.code.len(),
                ) by {
                    if i < f.code.len() {
                        assert(h.code[i] == f.code[i]);
                        assert(fits(f.code[i], bounds(f)));
                    }
                }
            }
        },
        StmtView::Block { statements, .. } => lemma_block_returns(statements, g, fs),
        StmtView::If { condition, then_branch, else_branch, span } => {
            lemma_expr(condition, g, fs);
            if let Ok((e, condition)) = gen_expr(condition, g, fs) {
                let to_else = e.code.len();
                let jump = open_jump_if_false(condition);
                let jumped = emit(e, jump, Some(span));
                assert(in_order(jumped));
                lemma_block(then_branch, jumped, fs);
                lemma_block_returns(then_branch, jumped, fs);
                if let Ok(f) = gen_block(then_branch, jumped, fs) {
                    assert(in_order(f));
                    if let Ok(k) = patch_here(f, to_else) {
                        assert(in_order(k));
                        lemma_block(else_branch, k, fs);
                        lemma_block_returns(else_branch, k, fs);
                        if let Ok(h) = gen_block(else_branch, k, fs) {
                            assert(jumped.code.take(e.code.len() as int) =~= e.code);
                            lemma_branches_return(g, e, jumped, f, k, h);
                        }
                    }
                }
            }
        },
        _ => {},
    }
}

/// Two branches that return, behind a condition and a jump to the second one.
proof fn lemma_branches_return(g: Gen, e: Gen, jumped: Gen, f: Gen, k: Gen, h: Gen)
    requires
        builds_on(g, e),
        jumped.code.len() == e.code.len() + 1,
        jumped.code.take(e.code.len() as int) == e.code,
        builds_on(jumped, f),
        ends_returning(jumped, f),
        patch_here(f, e.code.len()) == Ok::<Gen, CompileErrorView>(k),
        builds_on(k, h),
        ends_returning(k, h),
    ensures
        ends_returning(g, h),
{
    let to_else = e.code.len() as int;
    assert forall|i: int| 0 <= i < k.code.len() implies h.code[i] == k.code[i] by {
        assert(h.code.take(k.code.len() as int)[i] == h.code[i]);
    }
    assert forall|i: int| g.code.len() <= i < h.code.len() implies jumps_before(
        #[trigger] h.code[i],
        h.code.len(),
    ) by {
        if i < to_else {
            assert(f.code.take(jumped.code.len() as int)[i] == f.code[i]);
            assert(jumped.code.take(e.code.len() as int)[i] == jumped.code[i]);
            assert(fits(e.code[i], bounds(e)));
            assert(k.code[i] == e.code[i]);
        } else if i == to_else {
            assert(h.code[i] == k.code[i]);
        } else if i < k.code.len() {
            assert(h.code[i] == f.code[i]);
            assert(jumps_before(f.code[i], f.code.len()));
        }
    }
}

/// A chunk without jumps behind its end in which something returns is valid.
proof fn lemma_valid(g: Gen, c: ChunkView, returned: int)
    requires
        all_fit(g),
        well_built(c),
        finished(g) == Ok::<ChunkView, CompileErrorView>(c),
        c.instructions.len() <= max_instruction_count(),
        forall|i: int| 0 <= i < g.code.len() ==> jumps_before(#[trigger] g.code[i], g.code.len()),
        0 <= returned < g.code.len(),
        g.code[returned] is Return,
    ensures
        valid_chunk(c),
{
    assert(c.instructions.len() == g.code.len());
    assert forall|i: int| 0 <= i < c.instructions.len() implies instruction_error(
        c,
        #[trigger] c.instructions[i],
    ) is None by {
        assert(only_leads_behind(c, i));
        assert(jumps_before(g.code[i], g.code.len()));
        assert(fits(g.code[i], bounds(g)));
        assert(c.instructions[i] == g.code[i]@);
        if let Some(target) = c.instructions[i].target() {
            assert(target.0 < c.instructions.len());
        }
    }
    lemma_no_errors(c, 0);
    assert(c.instructions[returned] == g.code[returned]@);
    assert(c.instructions[returned].leaves());
}

proof fn lemma_no_errors(c: ChunkView, from: nat)
    requires
        forall|i: int|
            0 <= i < c.instructions.len() ==> instruction_error(c, #[trigger] c.instructions[i])
                is None,
    ensures
        first_instruction_error(c, from) is None,
    decreases c.instructions.len() - from,
{
    if from < c.instructions.len() {
        lemma_no_errors(c, from + 1);
    }
}

/// The code of a body that returns on every path is valid.
pub(crate) proof fn lemma_returning(
    first: Gen,
    body: Seq<StmtView>,
    fs: FunctionIds,
    g: Gen,
    c: ChunkView,
)
    requires
        all_fit(first),
        forall|k: int| 0 <= k < first.code.len() ==> #[trigger] first.code[k] is MakeUpvalue,
        gen_stmts(body, 0, first, fs) == Ok::<Gen, CompileErrorView>(g),
        finished(g) == Ok::<ChunkView, CompileErrorView>(c),
        always_return(body),
        c.instructions.len() <= max_instruction_count(),
    ensures
        valid_chunk(c),
{
    lemma_stmts(body, 0, first, fs);
    lemma_stmts_return(body, 0, first, fs);
    lemma_all_fit(first, g);
    lemma_finished(g);
    let returned = choose|i: int|
        first.code.len() <= i < g.code.len() && #[trigger] g.code[i] is Return;
    assert forall|i: int| 0 <= i < g.code.len() implies jumps_before(
        #[trigger] g.code[i],
        g.code.len(),
    ) by {
        if i < first.code.len() {
            assert(g.code.take(first.code.len() as int)[i] == g.code[i]);
            assert(first.code[i] is MakeUpvalue);
        }
    }
    lemma_valid(g, c, returned);
}

/// In the generated code of a function, and in that of every function literal in it, all operands
/// are in bounds: registers, constants, strings and captures exist, and no jump leads further
/// than behind the last instruction.
pub proof fn generated_code_is_in_bounds(
    name: Seq<char>,
    params: Seq<Seq<char>>,
    body: Seq<StmtView>,
    next_function_id: nat,
    ids: FunctionIds,
    g: Gen,
)
    requires
        body_code(name, params, body, next_function_id, ids) == Ok::<Gen, CompileErrorView>(g),
    ensures
        finished(g) matches Ok(c) ==> well_built(c),
        forall|i: int| 0 <= i < g.generated.len() ==> well_built_function(#[trigger] g.generated[i]),
{
    let boxed = captured_in_stmts(body, 0, ids, Set::empty());
    lemma_begin(name, params, Seq::empty(), boxed, next_function_id);
    if let Ok(first) = begin(name, params, Seq::empty(), boxed, next_function_id) {
        lemma_stmts(body, 0, first, ids);
        lemma_all_fit(first, g);
        lemma_finished(g);
    }
}

/// The generated code of a function whose body returns on every path is accepted by structural
/// verification.
pub proof fn returning_functions_are_valid(
    name: Seq<char>,
    params: Seq<Seq<char>>,
    body: Seq<StmtView>,
    next_function_id: nat,
    ids: FunctionIds,
    g: Gen,
    c: ChunkView,
)
    requires
        body_code(name, params, body, next_function_id, ids) == Ok::<Gen, CompileErrorView>(g),
        finished(g) == Ok::<ChunkView, CompileErrorView>(c),
        always_return(body),
        c.instructions.len() <= max_instruction_count(),
    ensures
        valid_chunk(c),
{
    let boxed = captured_in_stmts(body, 0, ids, Set::empty());
    lemma_begin(name, params, Seq::empty(), boxed, next_function_id);
    if let Ok(first) = begin(name, params, Seq::empty(), boxed, next_function_id) {
        lemma_returning(first, body, ids, g, c);
    }
}

} // verus!
