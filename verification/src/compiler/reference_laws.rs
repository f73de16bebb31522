//! What code generation guarantees of programs that semantic analysis accepts: only limits stop
//! it, every call and every closure refers to a function that fits, and a program in which all
//! functions return on every path is accepted by verification.

use vstd::prelude::*;

use crate::bytecode::chunk::ChunkView;
use crate::bytecode::format::max_instruction_count;
use crate::bytecode::instruction::{
    FunctionId, Instruction, InstructionView, JumpTarget, Register, OP_CALL_FUNCTION,
    OP_MAKE_CLOSURE,
};
use crate::bytecode::program::{FunctionKindView, FunctionView};
use crate::bytecode::verification::valid_chunk;
use crate::compiler::ast::{ExprView, StmtView};
use crate::compiler::captures::{always_return, captured_in_stmts, free_names, with_names};
use crate::compiler::code_laws::{
    bounds, in_order, lemma_begin, lemma_block, lemma_emit, lemma_expr, lemma_fresh, lemma_into,
    lemma_named, lemma_reserve, lemma_returning, lemma_row, lemma_stmt, lemma_stmts, row_fits,
};
use crate::compiler::emitter::{
    begin, boxed_register, bytecode_function, closure_name, emit, finished, fresh, gen_block,
    gen_call, gen_closure, gen_entries, gen_expr, gen_into, gen_list, gen_row, gen_stmt, gen_stmts,
    here, known_names, load_cell, load_cells, load_literal, load_variable, named_local, nth,
    open_jump, open_jump_if_false, operation, patch_here, read_variable, reserve, store_variable,
    Emitted, FunctionIds, Gen, MAX_FUNCTIONS, MAX_OPERANDS,
};
use crate::compiler::error::{CompileErrorKindView, CompileErrorView};
use crate::compiler::name_laws::{
    apart, enough, boxes, boxes_stmt, lemma_apart_with_names, lemma_boxes_inside, lemma_boxes_parts, lemma_restrict_stmts, lemma_without_name, lemma_with_names, names_behind, no_functions,
    resolved_entries, resolved_expr, resolved_exprs, resolved_stmt, resolved_stmts, Arities,
};
use crate::diagnostics::span::SourceSpan;

verus! {

/// What code refers to: the functions by name with their numbers of parameters, and the number of
/// the first function literal.
pub struct Context {
    pub base: nat,
    pub fs: FunctionIds,
    pub arities: Arities,
    /// Whether the bodies of function literals return on every path.
    pub strict: bool,
}

/// An error that a limit causes.
pub open spec fn is_limit(kind: CompileErrorKindView) -> bool {
    match kind {
        CompileErrorKindView::TooManyParameters { .. } => true,
        CompileErrorKindView::TooManyArguments { .. } => true,
        CompileErrorKindView::TooManyArrayElements { .. } => true,
        CompileErrorKindView::TooManyMapEntries { .. } => true,
        CompileErrorKindView::TooManyRegisters => true,
        CompileErrorKindView::TooManyInstructions => true,
        CompileErrorKindView::TooManyConstants { .. } => true,
        CompileErrorKindView::TooManyStrings { .. } => true,
        CompileErrorKindView::TooManyFunctions { .. } => true,
        _ => false,
    }
}

/// A call of a function by its name.
pub open spec fn calls_by_name(name: Seq<char>, v: InstructionView, ctx: Context) -> bool {
    &&& ctx.fs.contains_key(name)
    &&& v.function() == Some(ctx.fs[name])
    &&& ctx.arities[name] == v.count_at(3)
}

/// A call refers to a function with as many parameters as there are arguments, and a closure to a
/// function literal with as many captures.
pub open spec fn refers(v: InstructionView, generated: Seq<FunctionView>, ctx: Context) -> bool {
    &&& v.opcode == OP_CALL_FUNCTION ==> exists|name: Seq<char>| calls_by_name(name, v, ctx)
    &&& v.opcode == OP_MAKE_CLOSURE ==> {
        &&& v.function() matches Some(id)
        &&& ctx.base <= id.0 < ctx.base + generated.len()
        &&& generated[id.0 - ctx.base].capture_count == v.count_at(3)
    }
}

/// The function of a function literal refers to functions that fit.
pub open spec fn function_refers(
    f: FunctionView,
    generated: Seq<FunctionView>,
    ctx: Context,
) -> bool {
    &&& f.kind matches FunctionKindView::Bytecode(c)
    &&& f == bytecode_function(c)
    &&& forall|ip: int|
        0 <= ip < c.instructions.len() ==> refers(#[trigger] c.instructions[ip], generated, ctx)
    &&& ctx.strict && c.instructions.len() <= max_instruction_count() ==> valid_chunk(c)
}

pub open spec fn is_jump(instruction: Instruction) -> bool {
    instruction is Jump || instruction is JumpIfFalse
}

/// Code that has been added behind other code refers to functions that fit.
pub open spec fn adds(g: Gen, h: Gen, ctx: Context) -> bool {
    &&& g.code.len() <= h.code.len()
    &&& forall|i: int|
        0 <= i < g.code.len() ==> #[trigger] h.code[i] == g.code[i] || is_jump(h.code[i])
    &&& forall|i: int|
        g.code.len() <= i < h.code.len() ==> refers((#[trigger] h.code[i])@, h.generated, ctx)
    &&& g.generated.is_prefix_of(h.generated)
    &&& h.next_function_id == ctx.base + h.generated.len()
    &&& forall|i: int|
        g.generated.len() <= i < h.generated.len() ==> function_refers(
            #[trigger] h.generated[i],
            h.generated,
            ctx,
        )
}

/// Generation succeeds, or a limit stops it.
pub open spec fn fine(result: Emitted, g: Gen, ctx: Context) -> bool {
    match result {
        Ok(h) => adds(g, h, ctx),
        Err(error) => is_limit(error.kind),
    }
}

pub open spec fn fine_read(
    result: Result<(Gen, Register), CompileErrorView>,
    g: Gen,
    ctx: Context,
) -> bool {
    match result {
        Ok((h, _)) => adds(g, h, ctx),
        Err(error) => is_limit(error.kind),
    }
}

/// The variables of the code hold some names.
pub open spec fn knows(g: Gen, names: Set<Seq<char>>) -> bool {
    forall|name: Seq<char>| #[trigger]
        names.contains(name) ==> g.locals.contains_key(name) || g.captures.contains_key(name)
}

/// The state of the generator before code in which names resolve.
pub open spec fn ready(g: Gen, names: Set<Seq<char>>, ctx: Context) -> bool {
    &&& in_order(g)
    &&& knows(g, names)
    &&& apart(names, ctx.fs, ctx.arities)
    &&& g.next_function_id == ctx.base + g.generated.len()
}

pub(crate) proof fn lemma_refers_in_more(
    v: InstructionView,
    generated: Seq<FunctionView>,
    more: Seq<FunctionView>,
    ctx: Context,
)
    requires
        refers(v, generated, ctx),
        generated.is_prefix_of(more),
    ensures
        refers(v, more, ctx),
{
}

proof fn lemma_function_refers_in_more(
    f: FunctionView,
    generated: Seq<FunctionView>,
    more: Seq<FunctionView>,
    ctx: Context,
)
    requires
        function_refers(f, generated, ctx),
        generated.is_prefix_of(more),
    ensures
        function_refers(f, more, ctx),
{
    if let FunctionKindView::Bytecode(c) = f.kind {
        assert forall|ip: int| 0 <= ip < c.instructions.len() implies refers(
            #[trigger] c.instructions[ip],
            more,
            ctx,
        ) by {
            lemma_refers_in_more(c.instructions[ip], generated, more, ctx);
        }
    }
}

proof fn lemma_adds_nothing(g: Gen, ctx: Context)
    requires
        g.next_function_id == ctx.base + g.generated.len(),
    ensures
        adds(g, g, ctx),
{
}

proof fn lemma_adds_both(f: Gen, g: Gen, h: Gen, ctx: Context)
    requires
        adds(f, g, ctx),
        adds(g, h, ctx),
    ensures
        adds(f, h, ctx),
{
    assert forall|i: int| 0 <= i < f.code.len() implies #[trigger] h.code[i] == f.code[i]
        || is_jump(h.code[i]) by {
        assert(h.code[i] == g.code[i] || is_jump(h.code[i]));
    }
    assert forall|i: int| f.code.len() <= i < h.code.len() implies refers(
        (#[trigger] h.code[i])@,
        h.generated,
        ctx,
    ) by {
        if i < g.code.len() && h.code[i] == g.code[i] {
            lemma_refers_in_more(g.code[i]@, g.generated, h.generated, ctx);
        }
    }
    assert forall|i: int| f.generated.len() <= i < h.generated.len() implies function_refers(
        #[trigger] h.generated[i],
        h.generated,
        ctx,
    ) by {
        if i < g.generated.len() {
            assert(h.generated[i] == g.generated[i]);
            lemma_function_refers_in_more(g.generated[i], g.generated, h.generated, ctx);
        }
    }
}

/// An instruction that refers to no function.
pub open spec fn harmless(instruction: Instruction) -> bool {
    !(instruction is CallFunction) && !(instruction is MakeClosure)
}

proof fn lemma_adds_harmless(g: Gen, instruction: Instruction, span: Option<SourceSpan>, ctx: Context)
    requires
        g.next_function_id == ctx.base + g.generated.len(),
        harmless(instruction),
    ensures
        adds(g, emit(g, instruction, span), ctx),
{
}

/// One more instruction that refers to no function.
proof fn lemma_then_harmless(
    f: Gen,
    g: Gen,
    instruction: Instruction,
    span: Option<SourceSpan>,
    ctx: Context,
)
    requires
        adds(f, g, ctx),
        harmless(instruction),
    ensures
        adds(f, emit(g, instruction, span), ctx),
{
    lemma_adds_harmless(g, instruction, span, ctx);
    lemma_adds_both(f, g, emit(g, instruction, span), ctx);
}

/// The same code in another state.
proof fn lemma_adds_same_code(g: Gen, h: Gen, ctx: Context)
    requires
        h.code == g.code,
        h.generated == g.generated,
        h.next_function_id == ctx.base + h.generated.len(),
    ensures
        adds(g, h, ctx),
{
}

/// A jump that gets its target.
proof fn lemma_adds_patched(f: Gen, g: Gen, index: nat, ctx: Context)
    requires
        adds(f, g, ctx),
        index < g.code.len(),
    ensures
        fine(patch_here(g, index), f, ctx),
        patch_here(g, index) matches Ok(h) ==> h.code.len() == g.code.len(),
{
    if let Ok(h) = patch_here(g, index) {
        assert forall|i: int| 0 <= i < f.code.len() implies #[trigger] h.code[i] == f.code[i]
            || is_jump(h.code[i]) by {
            assert(g.code[i] == f.code[i] || is_jump(g.code[i]));
        }
        assert forall|i: int| f.code.len() <= i < h.code.len() implies refers(
            (#[trigger] h.code[i])@,
            h.generated,
            ctx,
        ) by {
            assert(refers(g.code[i]@, g.generated, ctx));
        }
    }
}

// ---------------------------------------------------------------------------
// Variables
// ---------------------------------------------------------------------------

proof fn lemma_fine_fresh(g: Gen, ctx: Context)
    requires
        g.next_function_id == ctx.base + g.generated.len(),
    ensures
        fine_read(fresh(g), g, ctx),
{
    if let Ok((h, _)) = fresh(g) {
        lemma_adds_same_code(g, h, ctx);
    }
}

proof fn lemma_fine_reserve(g: Gen, count: nat, ctx: Context)
    requires
        g.next_function_id == ctx.base + g.generated.len(),
    ensures
        fine_read(reserve(g, count), g, ctx),
{
    if let Ok((h, _)) = reserve(g, count) {
        lemma_adds_same_code(g, h, ctx);
    }
}

proof fn lemma_fine_load(name: Seq<char>, span: SourceSpan, dst: Register, g: Gen, ctx: Context)
    requires
        g.next_function_id == ctx.base + g.generated.len(),
        g.locals.contains_key(name) || g.captures.contains_key(name),
    ensures
        fine(load_variable(name, span, dst, g), g, ctx),
{
    lemma_adds_nothing(g, ctx);
    if g.locals.contains_key(name) {
        let local = g.locals[name];
        lemma_adds_harmless(
            g,
            Instruction::LoadUpvalue { dst, upvalue: local.register },
            Some(span),
            ctx,
        );
        lemma_adds_harmless(g, Instruction::Move { dst, src: local.register }, Some(span), ctx);
    } else {
        lemma_adds_harmless(
            g,
            Instruction::LoadCapture { dst, capture: g.captures[name] },
            Some(span),
            ctx,
        );
    }
}

proof fn lemma_fine_variable(name: Seq<char>, span: SourceSpan, g: Gen, ctx: Context)
    requires
        g.next_function_id == ctx.base + g.generated.len(),
        g.locals.contains_key(name) || g.captures.contains_key(name),
    ensures
        fine_read(read_variable(name, span, g), g, ctx),
{
    lemma_adds_nothing(g, ctx);
    lemma_fine_fresh(g, ctx);
    if let Ok((f, dst)) = fresh(g) {
        lemma_fine_load(name, span, dst, f, ctx);
        if let Ok(h) = load_variable(name, span, dst, f) {
            lemma_adds_both(g, f, h, ctx);
        }
    }
}

proof fn lemma_fine_store(name: Seq<char>, span: SourceSpan, src: Register, g: Gen, ctx: Context)
    requires
        g.next_function_id == ctx.base + g.generated.len(),
    ensures
        adds(g, store_variable(name, span, src, g), ctx),
{
    lemma_adds_harmless(
        g,
        Instruction::StoreUpvalue { upvalue: g.locals[name].register, src },
        Some(span),
        ctx,
    );
    lemma_adds_harmless(
        g,
        Instruction::StoreCapture { capture: g.captures[name], src },
        Some(span),
        ctx,
    );
}

proof fn lemma_fine_literal(
    value: crate::compiler::ast::LiteralView,
    span: SourceSpan,
    dst: Register,
    g: Gen,
    ctx: Context,
)
    requires
        g.next_function_id == ctx.base + g.generated.len(),
    ensures
        fine(load_literal(value, span, dst, g), g, ctx),
{
    if let Ok(h) = load_literal(value, span, dst, g) {
        assert(h.code.len() == g.code.len() + 1);
        assert(harmless(h.code[g.code.len() as int]));
        assert forall|i: int| g.code.len() <= i < h.code.len() implies refers(
            (#[trigger] h.code[i])@,
            h.generated,
            ctx,
        ) by {}
    }
}

proof fn lemma_fine_cells(
    names: Seq<Seq<char>>,
    i: int,
    start: Register,
    span: SourceSpan,
    g: Gen,
    ctx: Context,
)
    requires
        g.next_function_id == ctx.base + g.generated.len(),
        0 <= i <= names.len(),
        forall|k: int|
            0 <= k < names.len() ==> g.locals.contains_key(#[trigger] names[k])
                || g.captures.contains_key(names[k]),
    ensures
        fine(load_cells(names, i, start, span, g), g, ctx),
    decreases names.len() - i,
{
    lemma_adds_nothing(g, ctx);
    if i < names.len() {
        let dst = nth(start, i);
        let name = names[i];
        lemma_adds_harmless(
            g,
            Instruction::Move { dst, src: g.locals[name].register },
            Some(span),
            ctx,
        );
        lemma_adds_harmless(
            g,
            Instruction::LoadCaptureCell { dst, capture: g.captures[name] },
            Some(span),
            ctx,
        );
        assert(g.locals.contains_key(name) || g.captures.contains_key(name));
        if let Ok(f) = load_cell(name, span, dst, g) {
            lemma_fine_cells(names, i + 1, start, span, f, ctx);
            if let Ok(h) = load_cells(names, i + 1, start, span, f) {
                lemma_adds_both(g, f, h, ctx);
            }
        }
    }
}

// ---------------------------------------------------------------------------
// Expressions
// ---------------------------------------------------------------------------

proof fn lemma_fine_expr(expr: ExprView, g: Gen, names: Set<Seq<char>>, ctx: Context)
    requires
        ready(g, names, ctx),
        resolved_expr(expr, names, ctx.arities, ctx.strict),
    ensures
        fine_read(gen_expr(expr, g, ctx.fs), g, ctx),
    decreases expr, 1int,
{
    if let ExprView::Variable { name, span } = expr {
        assert(names.contains(name));
        lemma_fine_variable(name, span, g, ctx);
    } else {
        lemma_fresh(g);
        lemma_fine_fresh(g, ctx);
        if let Ok((f, dst)) = fresh(g) {
            lemma_fine_into(expr, dst, f, names, ctx);
            if let Ok(h) = gen_into(expr, dst, f, ctx.fs) {
                lemma_adds_both(g, f, h, ctx);
            }
        }
    }
}

#[verifier::rlimit(40)]
proof fn lemma_fine_into(expr: ExprView, dst: Register, g: Gen, names: Set<Seq<char>>, ctx: Context)
    requires
        ready(g, names, ctx),
        dst.0 < g.next_register,
        resolved_expr(expr, names, ctx.arities, ctx.strict),
    ensures
        fine(gen_into(expr, dst, g, ctx.fs), g, ctx),
    decreases expr, 0int,
{
    let fs = ctx.fs;
    match expr {
        ExprView::Literal { value, span } => lemma_fine_literal(value, span, dst, g, ctx),
        ExprView::Variable { name, span } => {
            assert(names.contains(name));
            lemma_fine_load(name, span, dst, g, ctx);
        },
        ExprView::Binary { op, lhs, rhs, span } => {
            lemma_fine_expr(*lhs, g, names, ctx);
            lemma_expr(*lhs, g, fs);
            if let Ok((f, left)) = gen_expr(*lhs, g, fs) {
                lemma_fine_expr(*rhs, f, names, ctx);
                if let Ok((h, right)) = gen_expr(*rhs, f, fs) {
                    lemma_adds_both(g, f, h, ctx);
                    lemma_then_harmless(g, h, operation(op, dst, left, right), Some(span), ctx);
                }
            }
        },
        ExprView::Array { elements, span } => {
            lemma_fine_row(elements, g, names, ctx);
            if let Ok((f, elements_start)) = gen_row(elements, g, fs) {
                lemma_then_harmless(
                    g,
                    f,
                    Instruction::ArrayNew {
                        dst,
                        elements_start,
                        element_count: elements.len() as u8,
                    },
                    Some(span),
                    ctx,
                );
            }
        },
        ExprView::MapLiteral { entries, span } => {
            lemma_reserve(g, 2 * entries.len());
            lemma_fine_reserve(g, 2 * entries.len(), ctx);
            if let Ok((f, entries_start)) = reserve(g, 2 * entries.len()) {
                lemma_fine_entries(entries, 0, entries_start, f, names, ctx);
                if let Ok(h) = gen_entries(entries, 0, entries_start, f, fs) {
                    lemma_adds_both(g, f, h, ctx);
                    lemma_then_harmless(
                        g,
                        h,
                        Instruction::MapNew {
                            dst,
                            entries_start,
                            entry_count: entries.len() as u8,
                        },
                        Some(span),
                        ctx,
                    );
                }
            }
        },
        ExprView::Index { target, index, span } => {
            lemma_fine_expr(*target, g, names, ctx);
            lemma_expr(*target, g, fs);
            if let Ok((f, target)) = gen_expr(*target, g, fs) {
                lemma_fine_expr(*index, f, names, ctx);
                if let Ok((h, index)) = gen_expr(*index, f, fs) {
                    lemma_adds_both(g, f, h, ctx);
                    lemma_then_harmless(
                        g,
                        h,
                        Instruction::IndexGet { dst, target, index },
                        Some(span),
                        ctx,
                    );
                }
            }
        },
        ExprView::Call { callee, args, span } => {
            lemma_fine_row(args, g, names, ctx);
            lemma_row(args, g, fs);
            if args.len() <= MAX_OPERANDS {
                if let Ok((f, args_start)) = gen_row(args, g, fs) {
                    lemma_fine_call(callee, args_start, args.len() as u8, span, dst, g, f, names, ctx);
                }
            }
        },
        ExprView::Function { params, body, span } => {
            lemma_fine_function(params, body, span, dst, g, names, ctx);
            assert(gen_into(expr, dst, g, fs) == function_code(params, body, span, dst, g, fs));
        },
        ExprView::Grouping { expr, .. } => lemma_fine_into(*expr, dst, g, names, ctx),
    }
}

proof fn lemma_fine_call(
    callee: Seq<char>,
    args_start: Register,
    arg_count: u8,
    span: SourceSpan,
    dst: Register,
    g: Gen,
    f: Gen,
    names: Set<Seq<char>>,
    ctx: Context,
)
    requires
        ready(f, names, ctx),
        adds(g, f, ctx),
        if ctx.arities.contains_key(callee) {
            ctx.arities[callee] == arg_count
        } else {
            names.contains(callee)
        },
    ensures
        fine(gen_call(callee, args_start, arg_count, span, dst, f, ctx.fs), g, ctx),
{
    if ctx.fs.contains_key(callee) {
        assert(ctx.arities.dom().contains(callee));
        let instruction = Instruction::CallFunction {
            dst,
            function: ctx.fs[callee],
            args_start,
            arg_count,
        };
        let h = emit(f, instruction, Some(span));
        assert(calls_by_name(callee, instruction@, ctx));
        assert(adds(f, h, ctx));
        lemma_adds_both(g, f, h, ctx);
    } else {
        assert(!ctx.arities.dom().contains(callee));
        lemma_fine_variable(callee, span, f, ctx);
        if let Ok((h, callee)) = read_variable(callee, span, f) {
            lemma_adds_both(g, f, h, ctx);
            lemma_then_harmless(
                g,
                h,
                Instruction::CallValue { dst, callee, args_start, arg_count },
                Some(span),
                ctx,
            );
        }
    }
}

/// The code of a function literal.
spec fn function_code(
    params: Seq<Seq<char>>,
    body: Seq<StmtView>,
    span: SourceSpan,
    dst: Register,
    g: Gen,
    fs: FunctionIds,
) -> Emitted {
    gen_into(ExprView::Function { params, body, span }, dst, g, fs)
}

proof fn lemma_known_names(names: Seq<Seq<char>>, i: int, g: Gen)
    requires
        0 <= i <= names.len(),
    ensures
        forall|k: int| #![trigger known_names(names, i, g)[k]]
            0 <= k < known_names(names, i, g).len() ==> g.locals.contains_key(
                known_names(names, i, g)[k],
            ) || g.captures.contains_key(known_names(names, i, g)[k]),
        forall|k: int|
            i <= k < names.len() && (g.locals.contains_key(#[trigger] names[k])
                || g.captures.contains_key(names[k])) ==> known_names(names, i, g).contains(names[k]),
    decreases names.len() - i,
{
    if i < names.len() {
        lemma_known_names(names, i + 1, g);
        let rest = known_names(names, i + 1, g);
        let all = known_names(names, i, g);
        if g.locals.contains_key(names[i]) || g.captures.contains_key(names[i]) {
            assert(all == seq![names[i]] + rest);
            assert forall|k: int| #![trigger all[k]] 0 <= k < all.len() implies g.locals.contains_key(
                all[k],
            ) || g.captures.contains_key(all[k]) by {
                if k > 0 {
                    assert(all[k] == rest[k - 1]);
                }
            }
            assert forall|k: int|
                i <= k < names.len() && (g.locals.contains_key(#[trigger] names[k])
                    || g.captures.contains_key(names[k])) implies all.contains(names[k]) by {
                if k == i {
                    assert(all[0] == names[k]);
                } else {
                    let m = choose|m: int| 0 <= m < rest.len() && rest[m] == names[k];
                    assert(rest.contains(names[k]));
                    assert(all[m + 1] == names[k]);
                }
            }
        } else {
            assert(all == rest);
        }
    }
}

/// The context of the body of a function literal.
spec fn inside(ctx: Context, id: nat) -> Context {
    Context { base: id + 1, ..ctx }
}

/// What a function literal refers to, seen from outside of it.
proof fn lemma_rebase(
    v: InstructionView,
    inner: Seq<FunctionView>,
    before: Seq<FunctionView>,
    f: FunctionView,
    ctx: Context,
)
    requires
        refers(v, inner, inside(ctx, ctx.base + before.len())),
    ensures
        refers(v, before.push(f) + inner, ctx),
{
    let id = ctx.base + before.len();
    let all = before.push(f) + inner;
    if v.opcode == OP_CALL_FUNCTION {
        let name = choose|name: Seq<char>| calls_by_name(name, v, inside(ctx, id));
        assert(calls_by_name(name, v, ctx));
    }
    if v.opcode == OP_MAKE_CLOSURE {
        let x = v.function()->0;
        assert(all[x.0 - ctx.base] == inner[x.0 - (id + 1)]);
    }
}

/// The functions of a function literal behind those before it.
proof fn lemma_functions_added(g: Gen, first: Gen, last: Gen, body: Seq<StmtView>, chunk: ChunkView, ctx: Context)
    requires
        g.next_function_id == ctx.base + g.generated.len(),
        forall|k: int| 0 <= k < first.code.len() ==> #[trigger] first.code[k] is MakeUpvalue,
        first.generated.len() == 0,
        adds(first, last, inside(ctx, g.next_function_id)),
        finished(last) == Ok::<ChunkView, CompileErrorView>(chunk),
        ctx.strict && chunk.instructions.len() <= max_instruction_count() ==> valid_chunk(chunk),
    ensures
        ({
            let all = g.generated.push(bytecode_function(chunk)) + last.generated;
            adds(
                g,
                (Gen { next_function_id: last.next_function_id, generated: all, ..g }),
                ctx,
            )
        }),
{
    let inner = inside(ctx, g.next_function_id);
    let all = g.generated.push(bytecode_function(chunk)) + last.generated;
    let f = bytecode_function(chunk);
    assert(chunk.instructions.len() == last.code.len());
    assert forall|ip: int| 0 <= ip < chunk.instructions.len() implies refers(
        #[trigger] chunk.instructions[ip],
        all,
        ctx,
    ) by {
        assert(chunk.instructions[ip] == last.code[ip]@);
        if ip < first.code.len() {
            assert(last.code[ip] == first.code[ip] || is_jump(last.code[ip]));
            assert(harmless(last.code[ip]));
        } else {
            lemma_rebase(last.code[ip]@, last.generated, g.generated, f, ctx);
        }
    }
    assert(g.generated.is_prefix_of(all));
    assert forall|i: int| g.generated.len() <= i < all.len() implies function_refers(
        #[trigger] all[i],
        all,
        ctx,
    ) by {
        let j = i - g.generated.len() - 1;
        if j >= 0 {
            let deep = last.generated[j];
            assert(all[i] == deep);
            assert(function_refers(deep, last.generated, inner));
            if let FunctionKindView::Bytecode(c) = deep.kind {
                assert forall|ip: int| 0 <= ip < c.instructions.len() implies refers(
                    #[trigger] c.instructions[ip],
                    all,
                    ctx,
                ) by {
                    lemma_rebase(c.instructions[ip], last.generated, g.generated, f, ctx);
                }
            }
        }
    }
}

/// The names that a function literal uses from outside of it, and its parameters, are variables of
/// its code.
proof fn lemma_inner_names(
    params: Seq<Seq<char>>,
    body: Seq<StmtView>,
    names: Set<Seq<char>>,
    g: Gen,
    first: Gen,
    ctx: Context,
) -> (small: Set<Seq<char>>)
    requires
        ready(g, names, ctx),
        no_functions(params, ctx.arities),
        resolved_stmts(body, 0, with_names(params, 0, names), ctx.arities, ctx.strict),
        forall|k: int| 0 <= k < params.len() ==> first.locals.contains_key(#[trigger] params[k]),
        ({
            let used = known_names(free_names(params, body, ctx.fs), 0, g);
            forall|k: int| 0 <= k < used.len() ==> first.captures.contains_key(#[trigger] used[k])
        }),
    ensures
        knows(first, small),
        apart(small, ctx.fs, ctx.arities),
        resolved_stmts(body, 0, small, ctx.arities, ctx.strict),
{
    let free = free_names(params, body, ctx.fs);
    let used = known_names(free, 0, g);
    let kept = Set::new(|name: Seq<char>| names.contains(name) && free.contains(name));
    let small = with_names(params, 0, kept);
    let big = with_names(params, 0, names);
    let bound = with_names(params, 0, Set::empty());
    lemma_with_names(params, 0, kept);
    lemma_with_names(params, 0, names);
    lemma_with_names(params, 0, Set::empty());
    lemma_known_names(free, 0, g);
    assert forall|name: Seq<char>| #[trigger] small.contains(name) implies first.locals.contains_key(
        name,
    ) || first.captures.contains_key(name) by {
        if kept.contains(name) {
            assert(names.contains(name));
            let k = choose|k: int| 0 <= k < free.len() && free[k] == name;
            assert(free.contains(name));
            assert(used.contains(free[k]));
            let m = choose|m: int| 0 <= m < used.len() && used[m] == free[k];
            assert(first.captures.contains_key(used[m]));
        } else {
            let k = choose|k: int| 0 <= k < params.len() && params[k] == name;
            assert(first.locals.contains_key(params[k]));
        }
    }
    lemma_apart_with_names(names, ctx.fs, ctx.arities, params);
    assert(enough(small, big, bound, free));
    assert(apart(small, ctx.fs, ctx.arities)) by {
        assert forall|name: Seq<char>| #[trigger]
            small.contains(name) implies !ctx.arities.contains_key(name) by {
            assert(big.contains(name));
        }
    }
    lemma_restrict_stmts(
        body,
        0,
        small,
        big,
        bound,
        ctx.fs,
        ctx.arities,
        Seq::empty(),
        ctx.strict,
    );
    small
}

proof fn lemma_fine_function(
    params: Seq<Seq<char>>,
    body: Seq<StmtView>,
    span: SourceSpan,
    dst: Register,
    g: Gen,
    names: Set<Seq<char>>,
    ctx: Context,
)
    requires
        ready(g, names, ctx),
        dst.0 < g.next_register,
        no_functions(params, ctx.arities),
        ctx.strict ==> always_return(body),
        resolved_stmts(body, 0, with_names(params, 0, names), ctx.arities, ctx.strict),
    ensures
        fine(function_code(params, body, span, dst, g, ctx.fs), g, ctx),
    decreases body, body.len() + 1,
{
    let fs = ctx.fs;
    let used = known_names(free_names(params, body, fs), 0, g);
    let id = g.next_function_id;
    let boxed = captured_in_stmts(body, 0, fs, Set::empty());
    let start = begin(closure_name(id), params, used, boxed, id + 1);
    if id < MAX_FUNCTIONS {
        lemma_begin(closure_name(id), params, used, boxed, id + 1);
        if let Ok(first) = start {
            let small = lemma_inner_names(params, body, names, g, first, ctx);
            lemma_fine_stmts(body, 0, first, small, inside(ctx, id));
            lemma_stmts(body, 0, first, fs);
            if let Ok(last) = gen_stmts(body, 0, first, fs) {
                if let Ok(chunk) = finished(last) {
                    if ctx.strict && chunk.instructions.len() <= max_instruction_count() {
                        lemma_returning(first, body, fs, last, chunk);
                    }
                    lemma_functions_added(g, first, last, body, chunk, ctx);
                    lemma_known_names(free_names(params, body, fs), 0, g);
                    lemma_fine_closure(used, id, span, last, chunk, dst, g, ctx);
                }
                assert(function_code(params, body, span, dst, g, fs) == gen_closure(
                    used,
                    id,
                    span,
                    last,
                    dst,
                    g,
                ));
            }
        }
    }
}

proof fn lemma_fine_closure(
    used: Seq<Seq<char>>,
    id: nat,
    span: SourceSpan,
    last: Gen,
    chunk: ChunkView,
    dst: Register,
    g: Gen,
    ctx: Context,
)
    requires
        id == g.next_function_id,
        id < MAX_FUNCTIONS,
        id == ctx.base + g.generated.len(),
        used.len() <= MAX_OPERANDS,
        finished(last) == Ok::<ChunkView, CompileErrorView>(chunk),
        last.capture_count == used.len(),
        ({
            let all = g.generated.push(bytecode_function(chunk)) + last.generated;
            adds(
                g,
                (Gen { next_function_id: last.next_function_id, generated: all, ..g }),
                ctx,
            )
        }),
        forall|k: int|
            0 <= k < used.len() ==> g.locals.contains_key(#[trigger] used[k])
                || g.captures.contains_key(used[k]),
    ensures
        fine(gen_closure(used, id, span, last, dst, g), g, ctx),
{
    let all = g.generated.push(bytecode_function(chunk)) + last.generated;
    let f = Gen { next_function_id: last.next_function_id, generated: all, ..g };
    lemma_fine_reserve(f, used.len(), ctx);
    if let Ok((k, captures_start)) = reserve(f, used.len()) {
        lemma_adds_both(g, f, k, ctx);
        lemma_fine_cells(used, 0, captures_start, span, k, ctx);
        if let Ok(h) = load_cells(used, 0, captures_start, span, k) {
            lemma_adds_both(g, k, h, ctx);
            let instruction = Instruction::MakeClosure {
                dst,
                function: FunctionId(id as u16),
                captures_start,
                capture_count: used.len() as u8,
            };
            let after = emit(h, instruction, Some(span));
            assert(h.generated[g.generated.len() as int] == bytecode_function(chunk)) by {
                assert(k.generated[g.generated.len() as int] == all[g.generated.len() as int]);
            }
            assert(refers(instruction@, after.generated, ctx));
            assert(adds(h, after, ctx));
            lemma_adds_both(g, h, after, ctx);
        }
    }
}

proof fn lemma_fine_row(exprs: Seq<ExprView>, g: Gen, names: Set<Seq<char>>, ctx: Context)
    requires
        ready(g, names, ctx),
        g.next_register > 0,
        resolved_exprs(exprs, 0, names, ctx.arities, ctx.strict),
    ensures
        fine_read(gen_row(exprs, g, ctx.fs), g, ctx),
    decreases exprs, exprs.len() + 1,
{
    lemma_reserve(g, exprs.len());
    lemma_fine_reserve(g, exprs.len(), ctx);
    if let Ok((f, start)) = reserve(g, exprs.len()) {
        lemma_fine_list(exprs, 0, start, f, names, ctx);
        if let Ok(h) = gen_list(exprs, 0, start, f, ctx.fs) {
            lemma_adds_both(g, f, h, ctx);
        }
    }
}

proof fn lemma_fine_list(
    exprs: Seq<ExprView>,
    i: int,
    start: Register,
    g: Gen,
    names: Set<Seq<char>>,
    ctx: Context,
)
    requires
        ready(g, names, ctx),
        0 <= i <= exprs.len(),
        row_fits(start, exprs.len(), bounds(g)),
        resolved_exprs(exprs, i, names, ctx.arities, ctx.strict),
    ensures
        fine(gen_list(exprs, i, start, g, ctx.fs), g, ctx),
    decreases exprs, exprs.len() - i,
{
    lemma_adds_nothing(g, ctx);
    if i < exprs.len() {
        lemma_fine_into(exprs[i], nth(start, i), g, names, ctx);
        lemma_into(exprs[i], nth(start, i), g, ctx.fs);
        if let Ok(f) = gen_into(exprs[i], nth(start, i), g, ctx.fs) {
            lemma_fine_list(exprs, i + 1, start, f, names, ctx);
            if let Ok(h) = gen_list(exprs, i + 1, start, f, ctx.fs) {
                lemma_adds_both(g, f, h, ctx);
            }
        }
    }
}

proof fn lemma_fine_entries(
    entries: Seq<(ExprView, ExprView)>,
    i: int,
    start: Register,
    g: Gen,
    names: Set<Seq<char>>,
    ctx: Context,
)
    requires
        ready(g, names, ctx),
        0 <= i <= entries.len(),
        row_fits(start, 2 * entries.len(), bounds(g)),
        resolved_entries(entries, i, names, ctx.arities, ctx.strict),
    ensures
        fine(gen_entries(entries, i, start, g, ctx.fs), g, ctx),
    decreases entries, entries.len() - i,
{
    lemma_adds_nothing(g, ctx);
    if i < entries.len() {
        lemma_fine_into(entries[i].0, nth(start, 2 * i), g, names, ctx);
        lemma_into(entries[i].0, nth(start, 2 * i), g, ctx.fs);
        if let Ok(e) = gen_into(entries[i].0, nth(start, 2 * i), g, ctx.fs) {
            lemma_fine_into(entries[i].1, nth(start, 2 * i + 1), e, names, ctx);
            lemma_into(entries[i].1, nth(start, 2 * i + 1), e, ctx.fs);
            if let Ok(f) = gen_into(entries[i].1, nth(start, 2 * i + 1), e, ctx.fs) {
                lemma_adds_both(g, e, f, ctx);
                lemma_fine_entries(entries, i + 1, start, f, names, ctx);
                if let Ok(h) = gen_entries(entries, i + 1, start, f, ctx.fs) {
                    lemma_adds_both(g, f, h, ctx);
                }
            }
        }
    }
}

// ---------------------------------------------------------------------------
// Statements
// ---------------------------------------------------------------------------

pub(crate) proof fn lemma_fine_stmts(
    stmts: Seq<StmtView>,
    i: int,
    g: Gen,
    names: Set<Seq<char>>,
    ctx: Context,
)
    requires
        ready(g, names, ctx),
        0 <= i <= stmts.len(),
        resolved_stmts(stmts, i, names, ctx.arities, ctx.strict),
        boxes(stmts, i, ctx.fs, g.boxed),
    ensures
        fine(gen_stmts(stmts, i, g, ctx.fs), g, ctx),
    decreases stmts, stmts.len() - i,
{
    lemma_adds_nothing(g, ctx);
    if i < stmts.len() {
        lemma_boxes_parts(stmts, i, ctx.fs, g.boxed);
        lemma_fine_stmt(stmts[i], g, names, ctx);
        lemma_stmt(stmts[i], g, ctx.fs);
        if let Ok(f) = gen_stmt(stmts[i], g, ctx.fs) {
            lemma_stmt_names(stmts[i], g, names, ctx);
            lemma_fine_stmts(stmts, i + 1, f, names_behind(stmts[i], names), ctx);
            if let Ok(h) = gen_stmts(stmts, i + 1, f, ctx.fs) {
                lemma_adds_both(g, f, h, ctx);
            }
        }
    }
}

/// The variables behind a statement are variables of the code behind it.
proof fn lemma_stmt_names(stmt: StmtView, g: Gen, names: Set<Seq<char>>, ctx: Context)
    requires
        ready(g, names, ctx),
        resolved_stmt(stmt, names, ctx.arities, ctx.strict),
    ensures
        gen_stmt(stmt, g, ctx.fs) matches Ok(h) ==> {
            &&& knows(h, names_behind(stmt, names))
            &&& apart(names_behind(stmt, names), ctx.fs, ctx.arities)
        },
{
    lemma_stmt(stmt, g, ctx.fs);
    if let Ok(h) = gen_stmt(stmt, g, ctx.fs) {
        if let StmtView::Let { name, .. } = stmt {
            assert forall|n: Seq<char>| #[trigger]
                names_behind(stmt, names).contains(n) implies h.locals.contains_key(n)
                || h.captures.contains_key(n) by {
                assert(h.locals.dom().contains(n) == g.locals.dom().insert(name).contains(n));
                if n != name {
                    assert(names.contains(n));
                }
            }
        }
    }
}

proof fn lemma_fine_block(stmts: Seq<StmtView>, g: Gen, names: Set<Seq<char>>, ctx: Context)
    requires
        ready(g, names, ctx),
        resolved_stmts(stmts, 0, names, ctx.arities, ctx.strict),
        boxes(stmts, 0, ctx.fs, g.boxed),
    ensures
        fine(gen_block(stmts, g, ctx.fs), g, ctx),
    decreases stmts, stmts.len() + 1,
{
    lemma_fine_stmts(stmts, 0, g, names, ctx);
    if let Ok(f) = gen_stmts(stmts, 0, g, ctx.fs) {
        let h = Gen { locals: g.locals, ..f };
        lemma_adds_same_code(f, h, ctx);
        lemma_adds_both(g, f, h, ctx);
    }
}

proof fn lemma_fine_let(stmt: StmtView, g: Gen, names: Set<Seq<char>>, ctx: Context)
    requires
        ready(g, names, ctx),
        stmt is Let,
        resolved_stmt(stmt, names, ctx.arities, ctx.strict),
        boxes_stmt(stmt, ctx.fs, g.boxed),
    ensures
        fine(gen_stmt(stmt, g, ctx.fs), g, ctx),
    decreases stmt, 0int,
{
    let name = stmt->Let_name;
    let initializer = stmt->initializer;
    let span = stmt->Let_span;
    lemma_fresh(g);
    lemma_fine_fresh(g, ctx);
    if let Ok((f, register)) = fresh(g) {
        let instruction = Instruction::MakeUpvalue { dst: register, src: register };
        if g.boxed.contains(name) && initializer is Function {
            lemma_then_harmless(g, f, instruction, Some(span), ctx);
            lemma_emit(f, instruction, Some(span));
            let boxed = boxed_register(register, span, f);
            let named = named_local(name, register, true, boxed);
            lemma_named(name, register, true, boxed);
            lemma_adds_same_code(boxed, named, ctx);
            lemma_adds_both(g, boxed, named, ctx);
            assert(ready(named, names.insert(name), ctx)) by {
                assert(knows(named, names.insert(name)));
            }
            lemma_fine_expr(initializer, named, names.insert(name), ctx);
            if let Ok((k, src)) = gen_expr(initializer, named, ctx.fs) {
                lemma_adds_both(g, named, k, ctx);
                lemma_fine_store(name, span, src, k, ctx);
                lemma_adds_both(g, k, store_variable(name, span, src, k), ctx);
            }
        } else {
            if initializer is Function {
                lemma_without_name(
                    initializer,
                    name,
                    names,
                    ctx.fs,
                    ctx.arities,
                    ctx.strict,
                    g.boxed,
                );
            }
            lemma_fine_into(initializer, register, f, names, ctx);
            if let Ok(k) = gen_into(initializer, register, f, ctx.fs) {
                lemma_adds_both(g, f, k, ctx);
                lemma_then_harmless(g, k, instruction, Some(span), ctx);
                let boxed = boxed_register(register, span, k);
                let named = named_local(name, register, true, boxed);
                lemma_adds_same_code(boxed, named, ctx);
                lemma_adds_both(g, boxed, named, ctx);
                let plain = named_local(name, register, false, k);
                lemma_adds_same_code(k, plain, ctx);
                lemma_adds_both(g, k, plain, ctx);
            }
        }
    }
}

proof fn lemma_fine_stmt(stmt: StmtView, g: Gen, names: Set<Seq<char>>, ctx: Context)
    requires
        ready(g, names, ctx),
        resolved_stmt(stmt, names, ctx.arities, ctx.strict),
        boxes_stmt(stmt, ctx.fs, g.boxed),
    ensures
        fine(gen_stmt(stmt, g, ctx.fs), g, ctx),
    decreases stmt, 1int,
{
    let fs = ctx.fs;
    lemma_adds_nothing(g, ctx);
    lemma_boxes_inside(stmt, fs, g.boxed);
    match stmt {
        StmtView::Import { .. } => {},
        StmtView::Function { .. } => {},
        StmtView::Let { .. } => lemma_fine_let(stmt, g, names, ctx),
        StmtView::Assign { name, value, span } => {
            assert(names.contains(name));
            if g.locals.contains_key(name) && !g.locals[name].cell {
                lemma_fine_into(value, g.locals[name].register, g, names, ctx);
            } else {
                lemma_fine_expr(value, g, names, ctx);
                if let Ok((f, src)) = gen_expr(value, g, fs) {
                    lemma_fine_store(name, span, src, f, ctx);
                    lemma_adds_both(g, f, store_variable(name, span, src, f), ctx);
                }
            }
        },
        StmtView::IndexAssign { target, index, value, span } => {
            lemma_fine_expr(target, g, names, ctx);
            lemma_expr(target, g, fs);
            if let Ok((e, target)) = gen_expr(target, g, fs) {
                lemma_fine_expr(index, e, names, ctx);
                lemma_expr(index, e, fs);
                if let Ok((f, index)) = gen_expr(index, e, fs) {
                    lemma_adds_both(g, e, f, ctx);
                    lemma_fine_expr(value, f, names, ctx);
                    if let Ok((h, value)) = gen_expr(value, f, fs) {
                        lemma_adds_both(g, f, h, ctx);
                        lemma_then_harmless(
                            g,
                            h,
                            Instruction::IndexSet { target, index, value },
                            Some(span),
                            ctx,
                        );
                    }
                }
            }
        },
        StmtView::Return { value, span } => {
            lemma_fine_expr(value, g, names, ctx);
            if let Ok((h, src)) = gen_expr(value, g, fs) {
                lemma_then_harmless(g, h, Instruction::Return { src }, Some(span), ctx);
            }
        },
        StmtView::Expr { value, .. } => lemma_fine_expr(value, g, names, ctx),
        StmtView::If { .. } => lemma_fine_if(stmt, g, names, ctx),
        StmtView::While { .. } => lemma_fine_while(stmt, g, names, ctx),
        StmtView::Block { statements, .. } => lemma_fine_block(statements, g, names, ctx),
    }
}

#[verifier::rlimit(40)]
proof fn lemma_fine_if(stmt: StmtView, g: Gen, names: Set<Seq<char>>, ctx: Context)
    requires
        ready(g, names, ctx),
        stmt is If,
        resolved_stmt(stmt, names, ctx.arities, ctx.strict),
        boxes(stmt->then_branch, 0, ctx.fs, g.boxed),
        boxes(stmt->else_branch, 0, ctx.fs, g.boxed),
    ensures
        fine(gen_stmt(stmt, g, ctx.fs), g, ctx),
    decreases stmt, 0int,
{
    let fs = ctx.fs;
    let condition = stmt->If_condition;
    let then_branch = stmt->then_branch;
    let else_branch = stmt->else_branch;
    let span = stmt->If_span;
    lemma_fine_expr(condition, g, names, ctx);
    lemma_expr(condition, g, fs);
    if let Ok((e, condition)) = gen_expr(condition, g, fs) {
        let to_else = e.code.len();
        let jumped = emit(e, open_jump_if_false(condition), Some(span));
        lemma_then_harmless(g, e, open_jump_if_false(condition), Some(span), ctx);
        assert(ready(jumped, names, ctx));
        lemma_fine_block(then_branch, jumped, names, ctx);
        lemma_block(then_branch, jumped, fs);
        if let Ok(f) = gen_block(then_branch, jumped, fs) {
            lemma_adds_both(g, jumped, f, ctx);
            if else_branch.len() == 0 {
                lemma_adds_patched(g, f, to_else, ctx);
            } else if always_return(then_branch) {
                lemma_adds_patched(g, f, to_else, ctx);
                if let Ok(k) = patch_here(f, to_else) {
                    assert(ready(k, names, ctx));
                    lemma_fine_block(else_branch, k, names, ctx);
                    if let Ok(h) = gen_block(else_branch, k, fs) {
                        lemma_adds_both(g, k, h, ctx);
                    }
                }
            } else {
                let to_end = f.code.len();
                let ended = emit(f, open_jump(), Some(span));
                lemma_then_harmless(g, f, open_jump(), Some(span), ctx);
                lemma_adds_patched(g, ended, to_else, ctx);
                if let Ok(k) = patch_here(ended, to_else) {
                    assert(ready(k, names, ctx));
                    lemma_fine_block(else_branch, k, names, ctx);
                    lemma_block(else_branch, k, fs);
                    if let Ok(l) = gen_block(else_branch, k, fs) {
                        lemma_adds_both(g, k, l, ctx);
                        lemma_adds_patched(g, l, to_end, ctx);
                    }
                }
            }
        }
    }
}

proof fn lemma_fine_while(stmt: StmtView, g: Gen, names: Set<Seq<char>>, ctx: Context)
    requires
        ready(g, names, ctx),
        stmt is While,
        resolved_stmt(stmt, names, ctx.arities, ctx.strict),
        boxes(stmt->While_body, 0, ctx.fs, g.boxed),
    ensures
        fine(gen_stmt(stmt, g, ctx.fs), g, ctx),
    decreases stmt, 0int,
{
    let fs = ctx.fs;
    let condition = stmt->While_condition;
    let body = stmt->While_body;
    let span = stmt->While_span;
    lemma_fine_expr(condition, g, names, ctx);
    lemma_expr(condition, g, fs);
    if let Ok(loop_start) = here(g) {
        if let Ok((e, condition)) = gen_expr(condition, g, fs) {
            let to_end = e.code.len();
            let jumped = emit(e, open_jump_if_false(condition), Some(span));
            lemma_then_harmless(g, e, open_jump_if_false(condition), Some(span), ctx);
            assert(ready(jumped, names, ctx));
            lemma_fine_block(body, jumped, names, ctx);
            lemma_block(body, jumped, fs);
            if let Ok(f) = gen_block(body, jumped, fs) {
                lemma_adds_both(g, jumped, f, ctx);
                let back = Instruction::Jump { target: JumpTarget(loop_start) };
                lemma_then_harmless(g, f, back, Some(span), ctx);
                lemma_adds_patched(g, emit(f, back, Some(span)), to_end, ctx);
            }
        }
    }
}

} // verus!
