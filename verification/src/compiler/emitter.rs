//! Lowering of statements and expressions into register bytecode.
//!
//! Local variables live in registers. A variable that a function literal uses from outside lives
//! in a cell, so that the function and its closures share one variable.

use vstd::prelude::*;
use vstd::string::StringExecFns;

use crate::bytecode::chunk::{instruction_views, string_views, Chunk, ChunkBuildError, ChunkView};
use crate::bytecode::instruction::{
    CaptureId, ConstId, FunctionId, Instruction, JumpTarget, Register, StringId,
};
use crate::bytecode::program::{function_views, Function, FunctionKindView, FunctionView};
use crate::compiler::ast::{
    entry_views, expr_view, expr_views, stmt_view, stmt_views, BinaryOp, Expr, ExprView, Literal,
    LiteralView, Stmt, StmtView,
};
use crate::compiler::captures::{
    always_return, captured_in_stmts, captured_names, free_names, free_variables,
    statements_definitely_return,
};
use crate::compiler::error::{
    CompileError, CompileErrorKind, CompileErrorKindView, CompileErrorView,
};
use crate::compiler::parser::failure;
use crate::diagnostics::span::SourceSpan;
use crate::names::NameMap;
use crate::text::{decimal, push_decimal};
use crate::value::Value;

verus! {

// ---------------------------------------------------------------------------
// The code of a program
// ---------------------------------------------------------------------------

/// Where a local variable lives: in a register, or in a cell that a register holds.
#[derive(Clone, Copy, Debug, PartialEq, Eq, Structural)]
pub struct Local {
    pub register: Register,
    pub cell: bool,
}

/// The function ids of a program by name.
pub type FunctionIds = Map<Seq<char>, FunctionId>;

/// The code of one function while it is generated.
#[verifier::ext_equal]
pub struct Gen {
    pub name: Seq<char>,
    pub arity: u8,
    pub capture_count: u8,
    pub constants: Seq<Value>,
    pub strings: Seq<Seq<char>>,
    pub code: Seq<Instruction>,
    pub spans: Seq<Option<SourceSpan>>,
    /// The visible local variables.
    pub locals: Map<Seq<char>, Local>,
    /// The variables that come from outside the function.
    pub captures: Map<Seq<char>, CaptureId>,
    /// The variables that live in cells.
    pub boxed: Set<Seq<char>>,
    pub next_register: nat,
    pub next_function_id: nat,
    /// The functions of the function literals so far, in the order of their ids.
    pub generated: Seq<FunctionView>,
}

/// The code behind a piece of source, or an error.
pub type Emitted = Result<Gen, CompileErrorView>;

/// The largest number of registers, parameters and captures in one function.
pub const MAX_OPERANDS: usize = 255;

/// The largest number of functions that can be numbered.
pub const MAX_FUNCTIONS: usize = 65535;

pub open spec fn done<T>(result: Result<T, CompileErrorView>, value: T) -> bool {
    result == Ok::<T, CompileErrorView>(value)
}

pub open spec fn failed<T>(result: Result<T, CompileErrorView>, error: CompileErrorView) -> bool {
    result == Err::<T, CompileErrorView>(error)
}

/// An error without a place in the source.
pub open spec fn unplaced(kind: CompileErrorKindView) -> CompileErrorView {
    CompileErrorView { kind, span: None }
}

/// The code with one more instruction.
pub open spec fn emit(g: Gen, instruction: Instruction, span: Option<SourceSpan>) -> Gen {
    Gen { code: g.code.push(instruction), spans: g.spans.push(span), ..g }
}

/// A fresh register.
pub open spec fn fresh(g: Gen) -> Result<(Gen, Register), CompileErrorView> {
    if g.next_register > MAX_OPERANDS {
        Err(unplaced(CompileErrorKindView::TooManyRegisters))
    } else {
        Ok((Gen { next_register: g.next_register + 1, ..g }, Register(g.next_register as u8)))
    }
}

/// Fresh registers in a row; the first one, or register 0 where none is needed.
pub open spec fn reserve(g: Gen, count: nat) -> Result<(Gen, Register), CompileErrorView> {
    if count == 0 {
        Ok((g, Register(0)))
    } else if g.next_register + count > MAX_OPERANDS + 1 {
        Err(unplaced(CompileErrorKindView::TooManyRegisters))
    } else {
        Ok((Gen { next_register: g.next_register + count, ..g }, Register(g.next_register as u8)))
    }
}

/// The register `i` places behind another one.
pub open spec fn nth(start: Register, i: int) -> Register {
    Register((start.0 + i) as u8)
}

/// The position of the next instruction.
pub open spec fn here(g: Gen) -> Result<u32, CompileErrorView> {
    if g.code.len() <= u32::MAX {
        Ok(g.code.len() as u32)
    } else {
        Err(unplaced(CompileErrorKindView::TooManyInstructions))
    }
}

/// A jump with another target.
pub open spec fn retargeted(instruction: Instruction, target: u32) -> Instruction {
    match instruction {
        Instruction::Jump { .. } => Instruction::Jump { target: JumpTarget(target) },
        Instruction::JumpIfFalse { condition, .. } => Instruction::JumpIfFalse {
            condition,
            target: JumpTarget(target),
        },
        _ => instruction,
    }
}

/// The code after the jump at `index` has been pointed at the next instruction.
pub open spec fn patch_here(g: Gen, index: nat) -> Emitted {
    match here(g) {
        Ok(target) => Ok(
            Gen { code: g.code.update(index as int, retargeted(g.code[index as int], target)), ..g },
        ),
        Err(error) => Err(error),
    }
}

/// A jump whose target is not known yet.
pub open spec fn open_jump() -> Instruction {
    Instruction::Jump { target: JumpTarget(u32::MAX) }
}

/// A conditional jump whose target is not known yet.
pub open spec fn open_jump_if_false(condition: Register) -> Instruction {
    Instruction::JumpIfFalse { condition, target: JumpTarget(u32::MAX) }
}

pub open spec fn undefined(name: Seq<char>, span: SourceSpan) -> CompileErrorView {
    failure(CompileErrorKindView::UndefinedVariable { name }, span)
}

/// The value of a variable put into a register.
pub open spec fn load_variable(name: Seq<char>, span: SourceSpan, dst: Register, g: Gen) -> Emitted {
    if g.locals.contains_key(name) {
        let local = g.locals[name];
        if local.cell {
            Ok(emit(g, Instruction::LoadUpvalue { dst, upvalue: local.register }, Some(span)))
        } else if local.register == dst {
            Ok(g)
        } else {
            Ok(emit(g, Instruction::Move { dst, src: local.register }, Some(span)))
        }
    } else if g.captures.contains_key(name) {
        Ok(emit(g, Instruction::LoadCapture { dst, capture: g.captures[name] }, Some(span)))
    } else {
        Err(undefined(name, span))
    }
}

/// A register that holds the value of a variable: its own, or a fresh one.
pub open spec fn read_variable(name: Seq<char>, span: SourceSpan, g: Gen) -> Result<
    (Gen, Register),
    CompileErrorView,
> {
    if g.locals.contains_key(name) && !g.locals[name].cell {
        Ok((g, g.locals[name].register))
    } else if g.locals.contains_key(name) || g.captures.contains_key(name) {
        match fresh(g) {
            Ok((g, dst)) => match load_variable(name, span, dst, g) {
                Ok(g) => Ok((g, dst)),
                Err(error) => Err(error),
            },
            Err(error) => Err(error),
        }
    } else {
        Err(undefined(name, span))
    }
}

/// The value of a register stored in a variable that lives in a cell or outside the function.
pub open spec fn store_variable(name: Seq<char>, span: SourceSpan, src: Register, g: Gen) -> Gen {
    if g.locals.contains_key(name) {
        emit(
            g,
            Instruction::StoreUpvalue { upvalue: g.locals[name].register, src },
            Some(span),
        )
    } else {
        emit(g, Instruction::StoreCapture { capture: g.captures[name], src }, Some(span))
    }
}

/// The cell of a variable put into a register.
pub open spec fn load_cell(name: Seq<char>, span: SourceSpan, dst: Register, g: Gen) -> Emitted {
    if g.locals.contains_key(name) {
        Ok(emit(g, Instruction::Move { dst, src: g.locals[name].register }, Some(span)))
    } else if g.captures.contains_key(name) {
        Ok(emit(g, Instruction::LoadCaptureCell { dst, capture: g.captures[name] }, Some(span)))
    } else {
        Err(undefined(name, span))
    }
}

/// The cells of the variables from `i` on put into registers in a row.
pub open spec fn load_cells(
    names: Seq<Seq<char>>,
    i: int,
    start: Register,
    span: SourceSpan,
    g: Gen,
) -> Emitted
    decreases names.len() - i,
{
    if 0 <= i < names.len() {
        match load_cell(names[i], span, nth(start, i), g) {
            Ok(g) => load_cells(names, i + 1, start, span, g),
            Err(error) => Err(error),
        }
    } else {
        Ok(g)
    }
}

/// A literal put into a register.
pub open spec fn load_literal(value: LiteralView, span: SourceSpan, dst: Register, g: Gen) -> Emitted {
    match value {
        LiteralView::Text(text) => if g.strings.len() > u16::MAX {
            Err(unplaced(CompileErrorKindView::TooManyStrings { max: 65536 }))
        } else {
            let string = StringId(g.strings.len() as u16);
            Ok(
                emit(
                    Gen { strings: g.strings.push(text), ..g },
                    Instruction::LoadString { dst, string },
                    Some(span),
                ),
            )
        },
        LiteralView::Int(value) => load_constant(Value::Int(value), span, dst, g),
        LiteralView::Bool(value) => load_constant(Value::Bool(value), span, dst, g),
        LiteralView::Nil => load_constant(Value::Nil, span, dst, g),
    }
}

/// A constant put into a register.
pub open spec fn load_constant(value: Value, span: SourceSpan, dst: Register, g: Gen) -> Emitted {
    if g.constants.len() > u16::MAX {
        Err(unplaced(CompileErrorKindView::TooManyConstants { max: 65536 }))
    } else {
        let constant = ConstId(g.constants.len() as u16);
        Ok(
            emit(
                Gen { constants: g.constants.push(value), ..g },
                Instruction::LoadConst { dst, constant },
                Some(span),
            ),
        )
    }
}

/// The instruction of an operator.
pub open spec fn operation(op: BinaryOp, dst: Register, lhs: Register, rhs: Register) -> Instruction {
    match op {
        BinaryOp::Add => Instruction::Add { dst, lhs, rhs },
        BinaryOp::Sub => Instruction::Sub { dst, lhs, rhs },
        BinaryOp::Mul => Instruction::Mul { dst, lhs, rhs },
        BinaryOp::Div => Instruction::Div { dst, lhs, rhs },
        BinaryOp::Equal => Instruction::Equal { dst, lhs, rhs },
        BinaryOp::NotEqual => Instruction::NotEqual { dst, lhs, rhs },
        BinaryOp::Less => Instruction::Less { dst, lhs, rhs },
        BinaryOp::LessEqual => Instruction::LessEqual { dst, lhs, rhs },
        BinaryOp::Greater => Instruction::Greater { dst, lhs, rhs },
        BinaryOp::GreaterEqual => Instruction::GreaterEqual { dst, lhs, rhs },
    }
}

/// The names from `i` on that are variables of the function or come from outside it.
pub open spec fn known_names(names: Seq<Seq<char>>, i: int, g: Gen) -> Seq<Seq<char>>
    decreases names.len() - i,
{
    if 0 <= i < names.len() {
        if g.locals.contains_key(names[i]) || g.captures.contains_key(names[i]) {
            seq![names[i]] + known_names(names, i + 1, g)
        } else {
            known_names(names, i + 1, g)
        }
    } else {
        Seq::empty()
    }
}

/// The capture numbers of the names from `i` on.
pub open spec fn numbered(
    names: Seq<Seq<char>>,
    i: int,
    captures: Map<Seq<char>, CaptureId>,
) -> Map<Seq<char>, CaptureId>
    decreases names.len() - i,
{
    if 0 <= i < names.len() {
        numbered(names, i + 1, captures.insert(names[i], CaptureId(i as u8)))
    } else {
        captures
    }
}

/// The code that takes over the parameters from `i` on; one that lives in a cell is put there.
pub open spec fn enter(params: Seq<Seq<char>>, i: int, g: Gen) -> Gen
    decreases params.len() - i,
{
    if 0 <= i < params.len() {
        let register = Register(i as u8);
        let cell = g.boxed.contains(params[i]);
        let named = Gen { locals: g.locals.insert(params[i], Local { register, cell }), ..g };
        let entered = if cell {
            emit(named, Instruction::MakeUpvalue { dst: register, src: register }, None)
        } else {
            named
        };
        enter(params, i + 1, entered)
    } else {
        g
    }
}

/// The beginning of the code of a function.
pub open spec fn begin(
    name: Seq<char>,
    params: Seq<Seq<char>>,
    captures: Seq<Seq<char>>,
    boxed: Set<Seq<char>>,
    next_function_id: nat,
) -> Emitted {
    if params.len() > MAX_OPERANDS {
        Err(unplaced(CompileErrorKindView::TooManyParameters { max: MAX_OPERANDS as nat }))
    } else if captures.len() > MAX_OPERANDS {
        Err(unplaced(CompileErrorKindView::TooManyArguments { max: MAX_OPERANDS as nat }))
    } else {
        Ok(
            enter(
                params,
                0,
                Gen {
                    name,
                    arity: params.len() as u8,
                    capture_count: captures.len() as u8,
                    constants: Seq::empty(),
                    strings: Seq::empty(),
                    code: Seq::empty(),
                    spans: Seq::empty(),
                    locals: Map::empty(),
                    captures: numbered(captures, 0, Map::empty()),
                    boxed,
                    next_register: params.len(),
                    next_function_id,
                    generated: Seq::empty(),
                },
            ),
        )
    }
}

/// The finished chunk of a function.
pub open spec fn finished(g: Gen) -> Result<ChunkView, CompileErrorView> {
    if g.next_register > MAX_OPERANDS {
        Err(unplaced(CompileErrorKindView::TooManyRegisters))
    } else {
        Ok(
            ChunkView {
                name: g.name,
                arity: g.arity,
                register_count: g.next_register as u8,
                capture_count: g.capture_count,
                constants: g.constants,
                strings: g.strings,
                instructions: instruction_views(g.code),
                source_map: g.spans,
                debug_local_names: Seq::empty(),
            },
        )
    }
}

/// A chunk as a function.
pub open spec fn bytecode_function(chunk: ChunkView) -> FunctionView {
    FunctionView {
        name: chunk.name,
        arity: chunk.arity,
        register_count: chunk.register_count,
        capture_count: chunk.capture_count,
        kind: FunctionKindView::Bytecode(chunk),
    }
}

/// The name of the function of a function literal.
pub open spec fn closure_name(id: nat) -> Seq<char> {
    "closure#"@ + decimal(id)
}

/// A register that holds the value of an expression.
pub open spec fn gen_expr(expr: ExprView, g: Gen, fs: FunctionIds) -> Result<
    (Gen, Register),
    CompileErrorView,
>
    decreases expr, 1int,
{
    match expr {
        ExprView::Variable { name, span } => read_variable(name, span, g),
        _ => match fresh(g) {
            Ok((g, dst)) => match gen_into(expr, dst, g, fs) {
                Ok(g) => Ok((g, dst)),
                Err(error) => Err(error),
            },
            Err(error) => Err(error),
        },
    }
}

/// The value of an expression put into a register.
pub open spec fn gen_into(expr: ExprView, dst: Register, g: Gen, fs: FunctionIds) -> Emitted
    decreases expr, 0int,
{
    match expr {
        ExprView::Literal { value, span } => load_literal(value, span, dst, g),
        ExprView::Variable { name, span } => load_variable(name, span, dst, g),
        ExprView::Binary { op, lhs, rhs, span } => match gen_expr(*lhs, g, fs) {
            Ok((g, left)) => match gen_expr(*rhs, g, fs) {
                Ok((g, right)) => Ok(emit(g, operation(op, dst, left, right), Some(span))),
                Err(error) => Err(error),
            },
            Err(error) => Err(error),
        },
        ExprView::Array { elements, span } => if elements.len() > MAX_OPERANDS {
            Err(
                failure(
                    CompileErrorKindView::TooManyArrayElements { max: MAX_OPERANDS as nat },
                    span,
                ),
            )
        } else {
            match gen_row(elements, g, fs) {
                Ok((g, elements_start)) => Ok(
                    emit(
                        g,
                        Instruction::ArrayNew {
                            dst,
                            elements_start,
                            element_count: elements.len() as u8,
                        },
                        Some(span),
                    ),
                ),
                Err(error) => Err(error),
            }
        },
        ExprView::MapLiteral { entries, span } => if entries.len() > MAX_OPERANDS {
            Err(
                failure(
                    CompileErrorKindView::TooManyMapEntries { max: MAX_OPERANDS as nat },
                    span,
                ),
            )
        } else {
            match reserve(g, 2 * entries.len()) {
                Ok((g, entries_start)) => match gen_entries(entries, 0, entries_start, g, fs) {
                    Ok(g) => Ok(
                        emit(
                            g,
                            Instruction::MapNew {
                                dst,
                                entries_start,
                                entry_count: entries.len() as u8,
                            },
                            Some(span),
                        ),
                    ),
                    Err(error) => Err(error),
                },
                Err(error) => Err(error),
            }
        },
        ExprView::Index { target, index, span } => match gen_expr(*target, g, fs) {
            Ok((g, target)) => match gen_expr(*index, g, fs) {
                Ok((g, index)) => Ok(
                    emit(g, Instruction::IndexGet { dst, target, index }, Some(span)),
                ),
                Err(error) => Err(error),
            },
            Err(error) => Err(error),
        },
        ExprView::Call { callee, args, span } => if args.len() > MAX_OPERANDS {
            Err(
                failure(
                    CompileErrorKindView::TooManyArguments { max: MAX_OPERANDS as nat },
                    span,
                ),
            )
        } else {
            match gen_row(args, g, fs) {
                Ok((g, args_start)) => gen_call(
                    callee,
                    args_start,
                    args.len() as u8,
                    span,
                    dst,
                    g,
                    fs,
                ),
                Err(error) => Err(error),
            }
        },
        ExprView::Function { params, body, span } => {
            let names = known_names(free_names(params, body, fs), 0, g);
            let id = g.next_function_id;
            if id >= MAX_FUNCTIONS {
                Err(
                    failure(
                        CompileErrorKindView::TooManyFunctions { max: MAX_FUNCTIONS as nat },
                        span,
                    ),
                )
            } else {
                let boxed = captured_in_stmts(body, 0, fs, Set::empty());
                match begin(closure_name(id), params, names, boxed, id + 1) {
                    Ok(inner) => match gen_stmts(body, 0, inner, fs) {
                        Ok(inner) => gen_closure(names, id, span, inner, dst, g),
                        Err(error) => Err(error),
                    },
                    Err(error) => Err(error),
                }
            }
        },
        ExprView::Grouping { expr, .. } => gen_into(*expr, dst, g, fs),
    }
}

/// The call of a function by name, or of the value of a variable.
pub open spec fn gen_call(
    callee: Seq<char>,
    args_start: Register,
    arg_count: u8,
    span: SourceSpan,
    dst: Register,
    g: Gen,
    fs: FunctionIds,
) -> Emitted {
    if fs.contains_key(callee) {
        Ok(
            emit(
                g,
                Instruction::CallFunction { dst, function: fs[callee], args_start, arg_count },
                Some(span),
            ),
        )
    } else {
        match read_variable(callee, span, g) {
            Ok((g, callee)) => Ok(
                emit(
                    g,
                    Instruction::CallValue { dst, callee, args_start, arg_count },
                    Some(span),
                ),
            ),
            Err(error) => Err(error),
        }
    }
}

/// The closure of a function literal whose body has been generated.
pub open spec fn gen_closure(
    names: Seq<Seq<char>>,
    id: nat,
    span: SourceSpan,
    inner: Gen,
    dst: Register,
    g: Gen,
) -> Emitted {
    match finished(inner) {
        Ok(chunk) => {
            let g = Gen {
                next_function_id: inner.next_function_id,
                generated: g.generated.push(bytecode_function(chunk)) + inner.generated,
                ..g
            };
            match reserve(g, names.len()) {
                Ok((g, captures_start)) => match load_cells(names, 0, captures_start, span, g) {
                    Ok(g) => Ok(
                        emit(
                            g,
                            Instruction::MakeClosure {
                                dst,
                                function: FunctionId(id as u16),
                                captures_start,
                                capture_count: names.len() as u8,
                            },
                            Some(span),
                        ),
                    ),
                    Err(error) => Err(error),
                },
                Err(error) => Err(error),
            }
        },
        Err(error) => Err(error),
    }
}

/// The values of expressions put into fresh registers in a row.
pub open spec fn gen_row(exprs: Seq<ExprView>, g: Gen, fs: FunctionIds) -> Result<
    (Gen, Register),
    CompileErrorView,
>
    decreases exprs, exprs.len() + 1,
{
    match reserve(g, exprs.len()) {
        Ok((g, start)) => match gen_list(exprs, 0, start, g, fs) {
            Ok(g) => Ok((g, start)),
            Err(error) => Err(error),
        },
        Err(error) => Err(error),
    }
}

/// The values of the expressions from `i` on put into the registers behind `start`.
pub open spec fn gen_list(
    exprs: Seq<ExprView>,
    i: int,
    start: Register,
    g: Gen,
    fs: FunctionIds,
) -> Emitted
    decreases exprs, exprs.len() - i,
{
    if 0 <= i < exprs.len() {
        match gen_into(exprs[i], nth(start, i), g, fs) {
            Ok(g) => gen_list(exprs, i + 1, start, g, fs),
            Err(error) => Err(error),
        }
    } else {
        Ok(g)
    }
}

/// The keys and values of the pairs from `i` on put into the registers behind `start`.
pub open spec fn gen_entries(
    entries: Seq<(ExprView, ExprView)>,
    i: int,
    start: Register,
    g: Gen,
    fs: FunctionIds,
) -> Emitted
    decreases entries, entries.len() - i,
{
    if 0 <= i < entries.len() {
        match gen_into(entries[i].0, nth(start, 2 * i), g, fs) {
            Ok(g) => match gen_into(entries[i].1, nth(start, 2 * i + 1), g, fs) {
                Ok(g) => gen_entries(entries, i + 1, start, g, fs),
                Err(error) => Err(error),
            },
            Err(error) => Err(error),
        }
    } else {
        Ok(g)
    }
}

/// The code of the statements from `i` on.
pub open spec fn gen_stmts(stmts: Seq<StmtView>, i: int, g: Gen, fs: FunctionIds) -> Emitted
    decreases stmts, stmts.len() - i,
{
    if 0 <= i < stmts.len() {
        match gen_stmt(stmts[i], g, fs) {
            Ok(g) => gen_stmts(stmts, i + 1, g, fs),
            Err(error) => Err(error),
        }
    } else {
        Ok(g)
    }
}

/// The code of a block; its variables are not visible behind it.
pub open spec fn gen_block(stmts: Seq<StmtView>, g: Gen, fs: FunctionIds) -> Emitted
    decreases stmts, stmts.len() + 1,
{
    match gen_stmts(stmts, 0, g, fs) {
        Ok(after) => Ok(Gen { locals: g.locals, ..after }),
        Err(error) => Err(error),
    }
}

/// The code of a statement.
pub open spec fn gen_stmt(stmt: StmtView, g: Gen, fs: FunctionIds) -> Emitted
    decreases stmt, 0int,
{
    match stmt {
        StmtView::Import { .. } => Ok(g),
        StmtView::Function { .. } => Ok(g),
        StmtView::Let { name, initializer, span, .. } => if !g.boxed.contains(name) {
            match fresh(g) {
                Ok((g, register)) => match gen_into(initializer, register, g, fs) {
                    Ok(g) => Ok(named_local(name, register, false, g)),
                    Err(error) => Err(error),
                },
                Err(error) => Err(error),
            }
        } else if initializer is Function {
            match fresh(g) {
                Ok((g, register)) => {
                    let g = named_local(name, register, true, boxed_register(register, span, g));
                    match gen_expr(initializer, g, fs) {
                        Ok((g, src)) => Ok(store_variable(name, span, src, g)),
                        Err(error) => Err(error),
                    }
                },
                Err(error) => Err(error),
            }
        } else {
            match fresh(g) {
                Ok((g, register)) => match gen_into(initializer, register, g, fs) {
                    Ok(g) => Ok(
                        named_local(name, register, true, boxed_register(register, span, g)),
                    ),
                    Err(error) => Err(error),
                },
                Err(error) => Err(error),
            }
        },
        StmtView::Assign { name, value, span } => if g.locals.contains_key(name)
            && !g.locals[name].cell {
            gen_into(value, g.locals[name].register, g, fs)
        } else if g.locals.contains_key(name) || g.captures.contains_key(name) {
            match gen_expr(value, g, fs) {
                Ok((g, src)) => Ok(store_variable(name, span, src, g)),
                Err(error) => Err(error),
            }
        } else {
            Err(undefined(name, span))
        },
        StmtView::IndexAssign { target, index, value, span } => match gen_expr(target, g, fs) {
            Ok((g, target)) => match gen_expr(index, g, fs) {
                Ok((g, index)) => match gen_expr(value, g, fs) {
                    Ok((g, value)) => Ok(
                        emit(g, Instruction::IndexSet { target, index, value }, Some(span)),
                    ),
                    Err(error) => Err(error),
                },
                Err(error) => Err(error),
            },
            Err(error) => Err(error),
        },
        StmtView::Return { value, span } => match gen_expr(value, g, fs) {
            Ok((g, src)) => Ok(emit(g, Instruction::Return { src }, Some(span))),
            Err(error) => Err(error),
        },
        StmtView::Expr { value, .. } => match gen_expr(value, g, fs) {
            Ok((g, _)) => Ok(g),
            Err(error) => Err(error),
        },
        StmtView::If { condition, then_branch, else_branch, span } => match gen_expr(
            condition,
            g,
            fs,
        ) {
            Ok((g, condition)) => {
                let to_else = g.code.len();
                let g = emit(g, open_jump_if_false(condition), Some(span));
                match gen_block(then_branch, g, fs) {
                    Ok(g) => if else_branch.len() == 0 {
                        patch_here(g, to_else)
                    } else if always_return(then_branch) {
                        match patch_here(g, to_else) {
                            Ok(g) => gen_block(else_branch, g, fs),
                            Err(error) => Err(error),
                        }
                    } else {
                        let to_end = g.code.len();
                        match patch_here(emit(g, open_jump(), Some(span)), to_else) {
                            Ok(g) => match gen_block(else_branch, g, fs) {
                                Ok(g) => patch_here(g, to_end),
                                Err(error) => Err(error),
                            },
                            Err(error) => Err(error),
                        }
                    },
                    Err(error) => Err(error),
                }
            },
            Err(error) => Err(error),
        },
        StmtView::While { condition, body, span } => match here(g) {
            Ok(loop_start) => match gen_expr(condition, g, fs) {
                Ok((g, condition)) => {
                    let to_end = g.code.len();
                    match gen_block(body, emit(g, open_jump_if_false(condition), Some(span)), fs) {
                        Ok(g) => patch_here(
                            emit(
                                g,
                                Instruction::Jump { target: JumpTarget(loop_start) },
                                Some(span),
                            ),
                            to_end,
                        ),
                        Err(error) => Err(error),
                    }
                },
                Err(error) => Err(error),
            },
            Err(error) => Err(error),
        },
        StmtView::Block { statements, .. } => gen_block(statements, g, fs),
    }
}

/// The code with one more visible variable.
pub open spec fn named_local(name: Seq<char>, register: Register, cell: bool, g: Gen) -> Gen {
    Gen { locals: g.locals.insert(name, Local { register, cell }), ..g }
}

/// The content of a register put into a fresh cell that the register then holds.
pub open spec fn boxed_register(register: Register, span: SourceSpan, g: Gen) -> Gen {
    emit(g, Instruction::MakeUpvalue { dst: register, src: register }, Some(span))
}

// ---------------------------------------------------------------------------
// The generator
// ---------------------------------------------------------------------------

/// Generates the code of one function.
pub(crate) struct Codegen {
    chunk: Chunk,
    locals: NameMap<Local>,
    captures: NameMap<CaptureId>,
    boxed: NameMap<bool>,
    next_register: u16,
    next_function_id: u16,
    generated_functions: Vec<Function>,
}

impl View for Codegen {
    type V = Gen;

    closed spec fn view(&self) -> Gen {
        Gen {
            name: self.chunk@.name,
            arity: self.chunk@.arity,
            capture_count: self.chunk@.capture_count,
            constants: self.chunk@.constants,
            strings: self.chunk@.strings,
            code: self.chunk.instructions@,
            spans: self.chunk@.source_map,
            locals: self.locals@,
            captures: self.captures@,
            boxed: self.boxed@.dom(),
            next_register: self.next_register as nat,
            next_function_id: self.next_function_id as nat,
            generated: function_views(self.generated_functions@),
        }
    }
}

/// The limit error of a chunk pool.
fn map_chunk_error(error: ChunkBuildError) -> (mapped: CompileError)
    ensures
        mapped@ == match error {
            ChunkBuildError::TooManyConstants { max } => unplaced(
                CompileErrorKindView::TooManyConstants { max: max as nat },
            ),
            ChunkBuildError::TooManyStrings { max } => unplaced(
                CompileErrorKindView::TooManyStrings { max: max as nat },
            ),
        },
{
    match error {
        ChunkBuildError::TooManyConstants { max } => {
            CompileError::new(CompileErrorKind::TooManyConstants { max }, None)
        },
        ChunkBuildError::TooManyStrings { max } => {
            CompileError::new(CompileErrorKind::TooManyStrings { max }, None)
        },
    }
}

fn undefined_variable(name: &str, span: SourceSpan) -> (error: CompileError)
    ensures
        error@ == undefined(name@, span),
{
    CompileError::new(CompileErrorKind::UndefinedVariable { name: name.to_owned() }, Some(span))
}

impl Codegen {
    /// Registers are counted up to one behind the last one.
    pub(crate) closed spec fn wf(&self) -> bool {
        &&& self.next_register <= MAX_OPERANDS + 1
        &&& self.chunk@.debug_local_names.len() == 0
    }

    /// The code does not get shorter.
    pub(crate) closed spec fn grown(&self, before: &Self) -> bool {
        &&& self.wf()
        &&& self@.code.len() >= before@.code.len()
        &&& self@.captures == before@.captures
        &&& self@.boxed == before@.boxed
    }

    /// The code does not get shorter, and the same variables are visible.
    pub(crate) closed spec fn extended(&self, before: &Self) -> bool {
        &&& self.grown(before)
        &&& self@.locals == before@.locals
    }

    /// Begins the code of a function.
    pub(crate) fn new(
        name: &str,
        params: &Vec<String>,
        captures: &Vec<String>,
        boxed: NameMap<bool>,
        next_function_id: u16,
    ) -> (result: Result<Self, CompileError>)
        ensures
            match result {
                Ok(codegen) => codegen.wf() && done(
                    begin(
                        name@,
                        string_views(params@),
                        string_views(captures@),
                        boxed@.dom(),
                        next_function_id as nat,
                    ),
                    codegen@,
                ),
                Err(error) => failed(
                    begin(
                        name@,
                        string_views(params@),
                        string_views(captures@),
                        boxed@.dom(),
                        next_function_id as nat,
                    ),
                    error@,
                ),
            },
    {
        if params.len() > MAX_OPERANDS {
            return Err(
                CompileError::new(CompileErrorKind::TooManyParameters { max: MAX_OPERANDS }, None),
            );
        }
        if captures.len() > MAX_OPERANDS {
            return Err(
                CompileError::new(CompileErrorKind::TooManyArguments { max: MAX_OPERANDS }, None),
            );
        }
        let chunk = Chunk::new(name, 0).with_arity(params.len() as u8).with_capture_count(
            captures.len() as u8,
        );
        let mut codegen = Codegen {
            chunk,
            locals: NameMap::new(),
            captures: NameMap::new(),
            boxed,
            next_register: params.len() as u16,
            next_function_id,
            generated_functions: Vec::new(),
        };
        assert(codegen@.generated =~= Seq::empty());
        codegen.number_captures(captures);
        codegen.enter(params);
        Ok(codegen)
    }

    /// Numbers the variables that come from outside the function.
    fn number_captures(&mut self, names: &Vec<String>)
        requires
            old(self).wf(),
            names@.len() <= MAX_OPERANDS,
        ensures
            final(self).wf(),
            final(self)@ == (Gen {
                captures: numbered(string_views(names@), 0, old(self)@.captures),
                ..old(self)@
            }),
    {
        let ghost views = string_views(names@);
        let mut i: usize = 0;
        while i < names.len()
            invariant
                self.wf(),
                i <= names@.len() <= MAX_OPERANDS,
                views == string_views(names@),
                self@ == (Gen { captures: self@.captures, ..old(self)@ }),
                numbered(views, 0, old(self)@.captures) == numbered(
                    views,
                    i as int,
                    self@.captures,
                ),
            decreases names.len() - i,
        {
            assert(views[i as int] == names@[i as int]@);
            self.captures.insert(names[i].as_str(), CaptureId(i as u8));
            i = i + 1;
        }
    }

    /// Takes over the parameters.
    fn enter(&mut self, params: &Vec<String>)
        requires
            old(self).wf(),
            params@.len() <= MAX_OPERANDS,
        ensures
            final(self).wf(),
            final(self)@ == enter(string_views(params@), 0, old(self)@),
    {
        let ghost views = string_views(params@);
        let mut i: usize = 0;
        while i < params.len()
            invariant
                self.wf(),
                i <= params@.len() <= MAX_OPERANDS,
                views == string_views(params@),
                enter(views, 0, old(self)@) == enter(views, i as int, self@),
            decreases params.len() - i,
        {
            assert(views[i as int] == params@[i as int]@);
            let register = Register(i as u8);
            let cell = self.boxed.contains(params[i].as_str());
            self.name_local(params[i].as_str(), register, cell);
            if cell {
                self.push(Instruction::MakeUpvalue { dst: register, src: register }, None);
            }
            i = i + 1;
        }
    }

    /// Makes a variable visible.
    fn name_local(&mut self, name: &str, register: Register, cell: bool)
        requires
            old(self).wf(),
        ensures
            final(self).wf(),
            final(self)@ == named_local(name@, register, cell, old(self)@),
    {
        self.locals.insert(name, Local { register, cell });
    }

    /// Appends an instruction.
    fn push(&mut self, instruction: Instruction, span: Option<SourceSpan>)
        requires
            old(self).wf(),
        ensures
            final(self).wf(),
            final(self)@ == emit(old(self)@, instruction, span),
    {
        self.chunk.push_instruction_with_span(instruction, span);
    }

    /// Hands out the functions of the function literals so far.
    pub(crate) fn take_generated(&mut self) -> (generated: Vec<Function>)
        requires
            old(self).wf(),
        ensures
            final(self).wf(),
            function_views(generated@) == old(self)@.generated,
            final(self)@ == (Gen { generated: Seq::empty(), ..old(self)@ }),
    {
        let mut generated: Vec<Function> = Vec::new();
        std::mem::swap(&mut generated, &mut self.generated_functions);
        assert(function_views(self.generated_functions@) =~= Seq::empty());
        generated
    }

    /// Ends the code of the function.
    pub(crate) fn finish(self) -> (result: Result<Function, CompileError>)
        requires
            self.wf(),
        ensures
            match result {
                Ok(function) => finished(self@) matches Ok(chunk) && function@
                    == bytecode_function(chunk),
                Err(error) => failed(finished(self@), error@),
            },
    {
        if self.next_register > 255 {
            return Err(CompileError::new(CompileErrorKind::TooManyRegisters, None));
        }
        let mut chunk = self.chunk;
        chunk.register_count = self.next_register as u8;
        assert(chunk@ =~= finished(self@)->Ok_0);
        Ok(Function::bytecode(chunk))
    }

    /// Generates a statement.
    pub(crate) fn compile_stmt(&mut self, stmt: &Stmt, functions: &NameMap<FunctionId>) -> (result:
        Result<(), CompileError>)
        requires
            old(self).wf(),
        ensures
            match result {
                Ok(_) => final(self).grown(old(self)) && done(
                    gen_stmt(stmt@, old(self)@, functions@),
                    final(self)@,
                ),
                Err(error) => failed(gen_stmt(stmt@, old(self)@, functions@), error@),
            },
        decreases *stmt, 1int,
    {
        match stmt {
            Stmt::Import { .. } => Ok(()),
            Stmt::Function { .. } => Ok(()),
            Stmt::Let { name, initializer, span, exported } => {
                self.compile_let(name, initializer, *exported, *span, functions)
            },
            Stmt::Assign { .. } => self.compile_assign(stmt, functions),
            Stmt::IndexAssign { target, index, value, span } => {
                let target = self.compile_expr(target, functions)?;
                let index = self.compile_expr(index, functions)?;
                let value = self.compile_expr(value, functions)?;
                self.push(Instruction::IndexSet { target, index, value }, Some(*span));
                Ok(())
            },
            Stmt::Return { value, span } => {
                let src = self.compile_expr(value, functions)?;
                self.push(Instruction::Return { src }, Some(*span));
                Ok(())
            },
            Stmt::Expr { value, .. } => {
                self.compile_expr(value, functions)?;
                Ok(())
            },
            Stmt::If { .. } => self.compile_if(stmt, functions),
            Stmt::While { .. } => self.compile_while(stmt, functions),
            Stmt::Block { statements, .. } => self.compile_block(statements, functions),
        }
    }

    /// Generates a binding.
    fn compile_let(
        &mut self,
        name: &String,
        initializer: &Expr,
        exported: bool,
        span: SourceSpan,
        functions: &NameMap<FunctionId>,
    ) -> (result: Result<(), CompileError>)
        requires
            old(self).wf(),
        ensures
            ({
                let stmt = StmtView::Let { name: name@, initializer: initializer@, exported, span };
                match result {
                    Ok(_) => final(self).grown(old(self)) && done(
                        gen_stmt(stmt, old(self)@, functions@),
                        final(self)@,
                    ),
                    Err(error) => failed(gen_stmt(stmt, old(self)@, functions@), error@),
                }
            }),
        decreases *initializer, 2int,
    {
        let boxed = self.boxed.contains(name.as_str());
        let register = self.alloc_register()?;
        if !boxed {
            self.compile_expr_into(initializer, register, functions)?;
            self.name_local(name.as_str(), register, false);
        } else if matches!(initializer, Expr::Function { .. }) {
            self.push(Instruction::MakeUpvalue { dst: register, src: register }, Some(span));
            self.name_local(name.as_str(), register, true);
            let src = self.compile_expr(initializer, functions)?;
            self.store(name.as_str(), span, src);
        } else {
            self.compile_expr_into(initializer, register, functions)?;
            self.push(Instruction::MakeUpvalue { dst: register, src: register }, Some(span));
            self.name_local(name.as_str(), register, true);
        }
        Ok(())
    }

    /// Generates an assignment.
    fn compile_assign(&mut self, stmt: &Stmt, functions: &NameMap<FunctionId>) -> (result: Result<
        (),
        CompileError,
    >)
        requires
            old(self).wf(),
            *stmt is Assign,
        ensures
            match result {
                Ok(_) => final(self).grown(old(self)) && done(
                    gen_stmt(stmt@, old(self)@, functions@),
                    final(self)@,
                ),
                Err(error) => failed(gen_stmt(stmt@, old(self)@, functions@), error@),
            },
        decreases *stmt, 0int,
    {
        if let Stmt::Assign { name, value, span } = stmt {
            if let Some(local) = self.locals.get(name.as_str()) {
                if !local.cell {
                    return self.compile_expr_into(value, local.register, functions);
                }
            } else if !self.captures.contains(name.as_str()) {
                return Err(undefined_variable(name.as_str(), *span));
            }
            let src = self.compile_expr(value, functions)?;
            self.store(name.as_str(), *span, src);
        }
        Ok(())
    }

    /// Generates a conditional.
    fn compile_if(&mut self, stmt: &Stmt, functions: &NameMap<FunctionId>) -> (result: Result<
        (),
        CompileError,
    >)
        requires
            old(self).wf(),
            *stmt is If,
        ensures
            match result {
                Ok(_) => final(self).grown(old(self)) && done(
                    gen_stmt(stmt@, old(self)@, functions@),
                    final(self)@,
                ),
                Err(error) => failed(gen_stmt(stmt@, old(self)@, functions@), error@),
            },
        decreases *stmt, 0int,
    {
        if let Stmt::If { condition, then_branch, else_branch, span } = stmt {
            assert(stmt_views(else_branch@).len() == else_branch@.len());
            let condition = self.compile_expr(condition, functions)?;
            let to_else: usize = self.chunk.instructions.len();
            self.push(
                Instruction::JumpIfFalse { condition, target: JumpTarget(u32::MAX) },
                Some(*span),
            );
            self.compile_block(then_branch, functions)?;
            if else_branch.len() == 0 {
                self.patch_jump(to_else)
            } else if statements_definitely_return(then_branch) {
                self.patch_jump(to_else)?;
                self.compile_block(else_branch, functions)
            } else {
                let to_end: usize = self.chunk.instructions.len();
                self.push(Instruction::Jump { target: JumpTarget(u32::MAX) }, Some(*span));
                self.patch_jump(to_else)?;
                self.compile_block(else_branch, functions)?;
                self.patch_jump(to_end)
            }
        } else {
            Ok(())
        }
    }

    /// Generates a loop.
    fn compile_while(&mut self, stmt: &Stmt, functions: &NameMap<FunctionId>) -> (result: Result<
        (),
        CompileError,
    >)
        requires
            old(self).wf(),
            *stmt is While,
        ensures
            match result {
                Ok(_) => final(self).grown(old(self)) && done(
                    gen_stmt(stmt@, old(self)@, functions@),
                    final(self)@,
                ),
                Err(error) => failed(gen_stmt(stmt@, old(self)@, functions@), error@),
            },
        decreases *stmt, 0int,
    {
        if let Stmt::While { condition, body, span } = stmt {
            let loop_start = self.current_instruction_index()?;
            let condition = self.compile_expr(condition, functions)?;
            let to_end: usize = self.chunk.instructions.len();
            self.push(
                Instruction::JumpIfFalse { condition, target: JumpTarget(u32::MAX) },
                Some(*span),
            );
            self.compile_block(body, functions)?;
            self.push(Instruction::Jump { target: JumpTarget(loop_start) }, Some(*span));
            self.patch_jump(to_end)
        } else {
            Ok(())
        }
    }

    /// Generates statements.
    pub(crate) fn compile_stmts(&mut self, stmts: &Vec<Stmt>, functions: &NameMap<FunctionId>) -> (
        result: Result<(), CompileError>)
        requires
            old(self).wf(),
        ensures
            match result {
                Ok(_) => final(self).wf() && final(self).grown(old(self)) && done(
                    gen_stmts(stmt_views(stmts@), 0, old(self)@, functions@),
                    final(self)@,
                ),
                Err(error) => failed(
                    gen_stmts(stmt_views(stmts@), 0, old(self)@, functions@),
                    error@,
                ),
            },
        decreases *stmts, 0int,
    {
        let ghost views = stmt_views(stmts@);
        let mut i: usize = 0;
        while i < stmts.len()
            invariant
                self.grown(old(self)),
                i <= stmts@.len(),
                views == stmt_views(stmts@),
                gen_stmts(views, 0, old(self)@, functions@) == gen_stmts(
                    views,
                    i as int,
                    self@,
                    functions@,
                ),
            decreases stmts.len() - i,
        {
            assert(views[i as int] == stmt_view(stmts@[i as int]));
            self.compile_stmt(&stmts[i], functions)?;
            i = i + 1;
        }
        Ok(())
    }

    /// Generates a block; its variables are not visible behind it.
    fn compile_block(&mut self, stmts: &Vec<Stmt>, functions: &NameMap<FunctionId>) -> (result:
        Result<(), CompileError>)
        requires
            old(self).wf(),
        ensures
            match result {
                Ok(_) => final(self).extended(old(self)) && done(
                    gen_block(stmt_views(stmts@), old(self)@, functions@),
                    final(self)@,
                ),
                Err(error) => failed(
                    gen_block(stmt_views(stmts@), old(self)@, functions@),
                    error@,
                ),
            },
        decreases *stmts, 1int,
    {
        let saved = self.locals.clone();
        self.compile_stmts(stmts, functions)?;
        self.locals = saved;
        Ok(())
    }

    /// Generates an expression into its own register or a fresh one.
    fn compile_expr(&mut self, expr: &Expr, functions: &NameMap<FunctionId>) -> (result: Result<
        Register,
        CompileError,
    >)
        requires
            old(self).wf(),
        ensures
            match result {
                Ok(register) => final(self).extended(old(self)) && done(
                    gen_expr(expr@, old(self)@, functions@),
                    (final(self)@, register),
                ),
                Err(error) => failed(gen_expr(expr@, old(self)@, functions@), error@),
            },
        decreases *expr, 1int,
    {
        if let Expr::Variable { name, span } = expr {
            self.read(name.as_str(), *span)
        } else {
            let dst = self.alloc_register()?;
            self.compile_expr_into(expr, dst, functions)?;
            Ok(dst)
        }
    }

    /// Finds a register that holds the value of a variable.
    fn read(&mut self, name: &str, span: SourceSpan) -> (result: Result<Register, CompileError>)
        requires
            old(self).wf(),
        ensures
            match result {
                Ok(register) => final(self).extended(old(self)) && done(
                    read_variable(name@, span, old(self)@),
                    (final(self)@, register),
                ),
                Err(error) => failed(read_variable(name@, span, old(self)@), error@),
            },
    {
        if let Some(local) = self.locals.get(name) {
            if !local.cell {
                return Ok(local.register);
            }
        } else if !self.captures.contains(name) {
            return Err(undefined_variable(name, span));
        }
        let dst = self.alloc_register()?;
        self.load(name, span, dst)?;
        Ok(dst)
    }

    /// Puts the value of a variable into a register.
    fn load(&mut self, name: &str, span: SourceSpan, dst: Register) -> (result: Result<
        (),
        CompileError,
    >)
        requires
            old(self).wf(),
        ensures
            match result {
                Ok(_) => final(self).extended(old(self)) && done(
                    load_variable(name@, span, dst, old(self)@),
                    final(self)@,
                ),
                Err(error) => failed(load_variable(name@, span, dst, old(self)@), error@),
            },
    {
        match self.locals.get(name) {
            Some(local) => {
                if local.cell {
                    self.push(
                        Instruction::LoadUpvalue { dst, upvalue: local.register },
                        Some(span),
                    );
                } else if local.register.0 != dst.0 {
                    self.push(Instruction::Move { dst, src: local.register }, Some(span));
                }
                Ok(())
            },
            None => match self.captures.get(name) {
                Some(capture) => {
                    self.push(Instruction::LoadCapture { dst, capture }, Some(span));
                    Ok(())
                },
                None => Err(undefined_variable(name, span)),
            },
        }
    }

    /// Stores a register in a variable that lives in a cell or outside the function.
    fn store(&mut self, name: &str, span: SourceSpan, src: Register)
        requires
            old(self).wf(),
            old(self)@.locals.contains_key(name@) || old(self)@.captures.contains_key(name@),
        ensures
            final(self).wf(),
            final(self)@ == store_variable(name@, span, src, old(self)@),
    {
        match self.locals.get(name) {
            Some(local) => {
                self.push(Instruction::StoreUpvalue { upvalue: local.register, src }, Some(span));
            },
            None => {
                if let Some(capture) = self.captures.get(name) {
                    self.push(Instruction::StoreCapture { capture, src }, Some(span));
                }
            },
        }
    }

    /// Generates an expression into a register.
    fn compile_expr_into(
        &mut self,
        expr: &Expr,
        dst: Register,
        functions: &NameMap<FunctionId>,
    ) -> (result: Result<(), CompileError>)
        requires
            old(self).wf(),
        ensures
            match result {
                Ok(_) => final(self).extended(old(self)) && done(
                    gen_into(expr@, dst, old(self)@, functions@),
                    final(self)@,
                ),
                Err(error) => failed(gen_into(expr@, dst, old(self)@, functions@), error@),
            },
        decreases *expr, 0int,
    {
        match expr {
            Expr::Literal { value, span } => self.compile_literal_into(value, dst, *span),
            Expr::Variable { name, span } => self.load(name.as_str(), *span, dst),
            Expr::Binary { op, lhs, rhs, span } => {
                let lhs = self.compile_expr(lhs, functions)?;
                let rhs = self.compile_expr(rhs, functions)?;
                let instruction = match op {
                    BinaryOp::Add => Instruction::Add { dst, lhs, rhs },
                    BinaryOp::Sub => Instruction::Sub { dst, lhs, rhs },
                    BinaryOp::Mul => Instruction::Mul { dst, lhs, rhs },
                    BinaryOp::Div => Instruction::Div { dst, lhs, rhs },
                    BinaryOp::Equal => Instruction::Equal { dst, lhs, rhs },
                    BinaryOp::NotEqual => Instruction::NotEqual { dst, lhs, rhs },
                    BinaryOp::Less => Instruction::Less { dst, lhs, rhs },
                    BinaryOp::LessEqual => Instruction::LessEqual { dst, lhs, rhs },
                    BinaryOp::Greater => Instruction::Greater { dst, lhs, rhs },
                    BinaryOp::GreaterEqual => Instruction::GreaterEqual { dst, lhs, rhs },
                };
                self.push(instruction, Some(*span));
                Ok(())
            },
            Expr::Array { elements, span } => {
                assert(expr_views(elements@).len() == elements@.len());
                if elements.len() > MAX_OPERANDS {
                    return Err(
                        CompileError::new(
                            CompileErrorKind::TooManyArrayElements { max: MAX_OPERANDS },
                            Some(*span),
                        ),
                    );
                }
                let elements_start = self.compile_row(elements, functions)?;
                let element_count: u8 = elements.len() as u8;
                self.push(
                    Instruction::ArrayNew { dst, elements_start, element_count },
                    Some(*span),
                );
                Ok(())
            },
            Expr::MapLiteral { entries, span } => {
                assert(entry_views(entries@).len() == entries@.len());
                if entries.len() > MAX_OPERANDS {
                    return Err(
                        CompileError::new(
                            CompileErrorKind::TooManyMapEntries { max: MAX_OPERANDS },
                            Some(*span),
                        ),
                    );
                }
                let entries_start = self.alloc_registers(2 * entries.len())?;
                self.compile_entries(entries, entries_start, functions)?;
                let entry_count: u8 = entries.len() as u8;
                self.push(Instruction::MapNew { dst, entries_start, entry_count }, Some(*span));
                Ok(())
            },
            Expr::Index { target, index, span } => {
                let target = self.compile_expr(target, functions)?;
                let index = self.compile_expr(index, functions)?;
                self.push(Instruction::IndexGet { dst, target, index }, Some(*span));
                Ok(())
            },
            Expr::Call { callee, args, span } => {
                assert(expr_views(args@).len() == args@.len());
                if args.len() > MAX_OPERANDS {
                    return Err(
                        CompileError::new(
                            CompileErrorKind::TooManyArguments { max: MAX_OPERANDS },
                            Some(*span),
                        ),
                    );
                }
                let args_start = self.compile_row(args, functions)?;
                let arg_count: u8 = args.len() as u8;
                match functions.get(callee.as_str()) {
                    Some(function) => {
                        self.push(
                            Instruction::CallFunction { dst, function, args_start, arg_count },
                            Some(*span),
                        );
                    },
                    None => {
                        let callee = self.read(callee.as_str(), *span)?;
                        self.push(
                            Instruction::CallValue { dst, callee, args_start, arg_count },
                            Some(*span),
                        );
                    },
                }
                Ok(())
            },
            Expr::Function { params, body, span } => {
                self.compile_function_literal_into(params, body, dst, *span, functions)
            },
            Expr::Grouping { expr, .. } => self.compile_expr_into(expr, dst, functions),
        }
    }

    /// Generates a literal into a register.
    fn compile_literal_into(&mut self, value: &Literal, dst: Register, span: SourceSpan) -> (result:
        Result<(), CompileError>)
        requires
            old(self).wf(),
        ensures
            match result {
                Ok(_) => final(self).extended(old(self)) && done(
                    load_literal(value@, span, dst, old(self)@),
                    final(self)@,
                ),
                Err(error) => failed(load_literal(value@, span, dst, old(self)@), error@),
            },
    {
        match value {
            Literal::Int(value) => self.compile_constant_into(Value::Int(*value), dst, span),
            Literal::Bool(value) => self.compile_constant_into(Value::Bool(*value), dst, span),
            Literal::Nil => self.compile_constant_into(Value::Nil, dst, span),
            Literal::String(text) => {
                match self.chunk.add_string(text.as_str()) {
                    Ok(string) => {
                        self.push(Instruction::LoadString { dst, string }, Some(span));
                        Ok(())
                    },
                    Err(error) => Err(map_chunk_error(error)),
                }
            },
        }
    }

    /// Generates a constant into a register.
    fn compile_constant_into(&mut self, value: Value, dst: Register, span: SourceSpan) -> (result:
        Result<(), CompileError>)
        requires
            old(self).wf(),
        ensures
            match result {
                Ok(_) => final(self).extended(old(self)) && done(
                    load_constant(value, span, dst, old(self)@),
                    final(self)@,
                ),
                Err(error) => failed(load_constant(value, span, dst, old(self)@), error@),
            },
    {
        match self.chunk.add_constant(value) {
            Ok(constant) => {
                self.push(Instruction::LoadConst { dst, constant }, Some(span));
                Ok(())
            },
            Err(error) => Err(map_chunk_error(error)),
        }
    }

    /// Generates expressions into fresh registers in a row.
    fn compile_row(&mut self, exprs: &Vec<Expr>, functions: &NameMap<FunctionId>) -> (result:
        Result<Register, CompileError>)
        requires
            old(self).wf(),
            exprs@.len() <= MAX_OPERANDS,
        ensures
            match result {
                Ok(start) => final(self).extended(old(self)) && done(
                    gen_row(expr_views(exprs@), old(self)@, functions@),
                    (final(self)@, start),
                ),
                Err(error) => failed(gen_row(expr_views(exprs@), old(self)@, functions@), error@),
            },
        decreases *exprs, 0int,
    {
        let ghost views = expr_views(exprs@);
        let start = self.alloc_registers(exprs.len())?;
        let ghost from = self@;
        let mut i: usize = 0;
        while i < exprs.len()
            invariant
                self.extended(old(self)),
                i <= exprs@.len() <= MAX_OPERANDS,
                views == expr_views(exprs@),
                exprs@.len() > 0 ==> start.0 + exprs@.len() <= MAX_OPERANDS + 1,
                done(reserve(old(self)@, views.len()), (from, start)),
                gen_list(views, 0, start, from, functions@) == gen_list(
                    views,
                    i as int,
                    start,
                    self@,
                    functions@,
                ),
            decreases exprs.len() - i,
        {
            assert(views[i as int] == expr_view(exprs@[i as int]));
            let register = Register(start.0 + i as u8);
            self.compile_expr_into(&exprs[i], register, functions)?;
            i = i + 1;
        }
        Ok(start)
    }

    /// Generates key/value pairs into registers in a row.
    fn compile_entries(
        &mut self,
        entries: &Vec<(Expr, Expr)>,
        start: Register,
        functions: &NameMap<FunctionId>,
    ) -> (result: Result<(), CompileError>)
        requires
            old(self).wf(),
            entries@.len() > 0 ==> start.0 + 2 * entries@.len() <= MAX_OPERANDS + 1,
        ensures
            match result {
                Ok(_) => final(self).extended(old(self)) && done(
                    gen_entries(entry_views(entries@), 0, start, old(self)@, functions@),
                    final(self)@,
                ),
                Err(error) => failed(
                    gen_entries(entry_views(entries@), 0, start, old(self)@, functions@),
                    error@,
                ),
            },
        decreases *entries, 0int,
    {
        let ghost views = entry_views(entries@);
        let mut i: usize = 0;
        while i < entries.len()
            invariant
                self.extended(old(self)),
                i <= entries@.len(),
                views == entry_views(entries@),
                entries@.len() > 0 ==> start.0 + 2 * entries@.len() <= MAX_OPERANDS + 1,
                gen_entries(views, 0, start, old(self)@, functions@) == gen_entries(
                    views,
                    i as int,
                    start,
                    self@,
                    functions@,
                ),
            decreases entries.len() - i,
        {
            assert(views[i as int] == (expr_view(entries@[i as int].0), expr_view(
                entries@[i as int].1,
            )));
            let entry = &entries[i];
            assert(decreases_to!(*entries => entries@[i as int]));
            let key = Register(start.0 + (2 * i) as u8);
            let value = Register(start.0 + (2 * i + 1) as u8);
            self.compile_expr_into(&entry.0, key, functions)?;
            self.compile_expr_into(&entry.1, value, functions)?;
            i = i + 1;
        }
        Ok(())
    }

    /// Generates a function literal: its function, and the closure over its captures.
    fn compile_function_literal_into(
        &mut self,
        params: &Vec<String>,
        body: &Vec<Stmt>,
        dst: Register,
        span: SourceSpan,
        functions: &NameMap<FunctionId>,
    ) -> (result: Result<(), CompileError>)
        requires
            old(self).wf(),
        ensures
            ({
                let literal = ExprView::Function {
                    params: string_views(params@),
                    body: stmt_views(body@),
                    span,
                };
                match result {
                    Ok(_) => final(self).extended(old(self)) && done(
                        gen_into(literal, dst, old(self)@, functions@),
                        final(self)@,
                    ),
                    Err(error) => failed(gen_into(literal, dst, old(self)@, functions@), error@),
                }
            }),
        decreases *body, 1int,
    {
        let free = free_variables(body, params, functions);
        let names = self.known(free);
        let function_id: u16 = self.next_function_id;
        if function_id as usize >= MAX_FUNCTIONS {
            return Err(
                CompileError::new(
                    CompileErrorKind::TooManyFunctions { max: MAX_FUNCTIONS },
                    Some(span),
                ),
            );
        }
        let mut name = String::from_str("closure#");
        push_decimal(&mut name, function_id as u64);
        let boxed = captured_names(body, functions);
        let mut inner = Codegen::new(name.as_str(), params, &names, boxed, function_id + 1)?;
        inner.compile_stmts(body, functions)?;
        self.next_function_id = inner.next_function_id;
        let ghost inner_view = inner@;
        let generated = inner.take_generated();
        let function = inner.finish()?;
        let ghost before = self@;
        self.generated_functions.push(function);
        assert(function_views(self.generated_functions@) =~= before.generated.push(function@));
        self.append_generated(generated);
        assert(string_views(names@).len() == names@.len());
        let captures_start = self.alloc_registers(names.len())?;
        self.load_captures(&names, captures_start, span)?;
        let capture_count: u8 = names.len() as u8;
        self.push(
            Instruction::MakeClosure {
                dst,
                function: FunctionId(function_id),
                captures_start,
                capture_count,
            },
            Some(span),
        );
        Ok(())
    }

    /// Takes over the functions of an inner function.
    fn append_generated(&mut self, functions: Vec<Function>)
        requires
            old(self).wf(),
        ensures
            final(self).wf(),
            final(self)@ == (Gen {
                generated: old(self)@.generated + function_views(functions@),
                ..old(self)@
            }),
    {
        let mut functions = functions;
        let ghost added = functions@;
        let ghost before = self.generated_functions@;
        self.generated_functions.append(&mut functions);
        assert(function_views(self.generated_functions@) =~= function_views(before)
            + function_views(added));
    }

    /// The names that are variables of the function or come from outside it.
    fn known(&self, names: Vec<String>) -> (kept: Vec<String>)
        ensures
            string_views(kept@) == known_names(string_views(names@), 0, self@),
    {
        let ghost views = string_views(names@);
        let mut kept: Vec<String> = Vec::new();
        let mut i: usize = 0;
        assert(string_views(kept@) + known_names(views, 0, self@) =~= known_names(views, 0, self@));
        while i < names.len()
            invariant
                i <= names@.len(),
                views == string_views(names@),
                known_names(views, 0, self@) == string_views(kept@) + known_names(
                    views,
                    i as int,
                    self@,
                ),
            decreases names.len() - i,
        {
            assert(views[i as int] == names@[i as int]@);
            let name = names[i].as_str();
            if self.locals.contains(name) || self.captures.contains(name) {
                let ghost before = string_views(kept@);
                let ghost rest = known_names(views, i + 1, self@);
                kept.push(names[i].clone());
                assert(string_views(kept@) =~= before.push(views[i as int]));
                assert(before + (seq![views[i as int]] + rest) =~= before.push(views[i as int])
                    + rest);
            }
            i = i + 1;
        }
        assert(string_views(kept@) + Seq::<Seq<char>>::empty() =~= string_views(kept@));
        kept
    }

    /// Puts the cells of variables into registers in a row.
    fn load_captures(&mut self, names: &Vec<String>, start: Register, span: SourceSpan) -> (result:
        Result<(), CompileError>)
        requires
            old(self).wf(),
            names@.len() > 0 ==> start.0 + names@.len() <= MAX_OPERANDS + 1,
        ensures
            match result {
                Ok(_) => final(self).extended(old(self)) && done(
                    load_cells(string_views(names@), 0, start, span, old(self)@),
                    final(self)@,
                ),
                Err(error) => failed(
                    load_cells(string_views(names@), 0, start, span, old(self)@),
                    error@,
                ),
            },
    {
        let ghost views = string_views(names@);
        let mut i: usize = 0;
        while i < names.len()
            invariant
                self.extended(old(self)),
                i <= names@.len(),
                views == string_views(names@),
                names@.len() > 0 ==> start.0 + names@.len() <= MAX_OPERANDS + 1,
                load_cells(views, 0, start, span, old(self)@) == load_cells(
                    views,
                    i as int,
                    start,
                    span,
                    self@,
                ),
            decreases names.len() - i,
        {
            assert(views[i as int] == names@[i as int]@);
            let name = names[i].as_str();
            let dst = Register(start.0 + i as u8);
            match self.locals.get(name) {
                Some(local) => {
                    self.push(Instruction::Move { dst, src: local.register }, Some(span));
                },
                None => {
                    match self.captures.get(name) {
                        Some(capture) => {
                            self.push(Instruction::LoadCaptureCell { dst, capture }, Some(span));
                        },
                        None => {
                            return Err(undefined_variable(name, span));
                        },
                    }
                },
            }
            i = i + 1;
        }
        Ok(())
    }

    /// Takes a fresh register.
    fn alloc_register(&mut self) -> (result: Result<Register, CompileError>)
        requires
            old(self).wf(),
        ensures
            match result {
                Ok(register) => final(self).extended(old(self)) && done(
                    fresh(old(self)@),
                    (final(self)@, register),
                ),
                Err(error) => failed(fresh(old(self)@), error@),
            },
    {
        if self.next_register > 255 {
            return Err(CompileError::new(CompileErrorKind::TooManyRegisters, None));
        }
        let register = Register(self.next_register as u8);
        self.next_register = self.next_register + 1;
        Ok(register)
    }

    /// Takes fresh registers in a row.
    fn alloc_registers(&mut self, count: usize) -> (result: Result<Register, CompileError>)
        requires
            old(self).wf(),
            count <= 2 * MAX_OPERANDS,
        ensures
            match result {
                Ok(start) => {
                    &&& final(self).extended(old(self))
                    &&& done(reserve(old(self)@, count as nat), (final(self)@, start))
                    &&& count > 0 ==> start.0 + count <= MAX_OPERANDS + 1
                },
                Err(error) => failed(reserve(old(self)@, count as nat), error@),
            },
    {
        if count == 0 {
            return Ok(Register(0));
        }
        if self.next_register as usize + count > MAX_OPERANDS + 1 {
            return Err(CompileError::new(CompileErrorKind::TooManyRegisters, None));
        }
        let start = Register(self.next_register as u8);
        self.next_register = self.next_register + count as u16;
        Ok(start)
    }

    /// Points a jump at the next instruction.
    fn patch_jump(&mut self, index: usize) -> (result: Result<(), CompileError>)
        requires
            old(self).wf(),
            index < old(self)@.code.len(),
        ensures
            match result {
                Ok(_) => final(self).extended(old(self)) && done(
                    patch_here(old(self)@, index as nat),
                    final(self)@,
                ),
                Err(error) => failed(patch_here(old(self)@, index as nat), error@),
            },
    {
        let target = self.current_instruction_index()?;
        let patched = match &self.chunk.instructions[index] {
            Instruction::Jump { .. } => Instruction::Jump { target: JumpTarget(target) },
            Instruction::JumpIfFalse { condition, .. } => Instruction::JumpIfFalse {
                condition: *condition,
                target: JumpTarget(target),
            },
            _ => {
                assert(self@.code.update(index as int, self@.code[index as int]) =~= self@.code);
                return Ok(());
            },
        };
        self.chunk.instructions[index] = patched;
        Ok(())
    }

    /// The position of the next instruction.
    fn current_instruction_index(&self) -> (result: Result<u32, CompileError>)
        ensures
            match result {
                Ok(index) => done(here(self@), index),
                Err(error) => failed(here(self@), error@),
            },
    {
        if self.chunk.instructions.len() > u32::MAX as usize {
            return Err(CompileError::new(CompileErrorKind::TooManyInstructions, None));
        }
        Ok(self.chunk.instructions.len() as u32)
    }
}

} // verus!
