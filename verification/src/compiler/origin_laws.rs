//! Where the instructions of a program come from.

use vstd::prelude::*;

use crate::bytecode::instruction::{FunctionId, Instruction, JumpTarget, Register};
use crate::compiler::ast::{ExprView, StmtView};
use crate::compiler::captures::{always_return, captured_in_stmts, free_names};
use crate::compiler::codegen::body_code;
use crate::compiler::emitter::{
    begin, boxed_register, bytecode_function, closure_name, emit, enter, finished, fresh, gen_block,
    gen_call, gen_closure, gen_entries, gen_expr, gen_into, gen_list, gen_row, gen_stmt, gen_stmts,
    here, known_names, load_cell, load_cells,
    named_local, nth, open_jump, open_jump_if_false, operation, patch_here, read_variable, reserve,
    store_variable, FunctionIds, Gen, Local,
};
use crate::diagnostics::span::SourceSpan;

verus! {

/// The place of a statement.
pub open spec fn stmt_place(stmt: StmtView) -> SourceSpan {
    match stmt {
        StmtView::Import { span, .. } => span,
        StmtView::Let { span, .. } => span,
        StmtView::Function { span, .. } => span,
        StmtView::Assign { span, .. } => span,
        StmtView::IndexAssign { span, .. } => span,
        StmtView::Return { span, .. } => span,
        StmtView::If { span, .. } => span,
        StmtView::While { span, .. } => span,
        StmtView::Block { span, .. } => span,
        StmtView::Expr { span, .. } => span,
    }
}

/// Whether a place is that of an expression or of a part of it; the bodies of function literals are
/// no parts.
pub open spec fn place_in(expr: ExprView, place: SourceSpan) -> bool
    decreases expr,
{
    place == expr.span() || match expr {
        ExprView::Literal { .. } | ExprView::Variable { .. } | ExprView::Function { .. } => false,
        ExprView::Binary { lhs, rhs, .. } => place_in(*lhs, place) || place_in(*rhs, place),
        ExprView::Call { args, .. } => exists|i: int|
            0 <= i < args.len() && place_in(#[trigger] args[i], place),
        ExprView::Index { target, index, .. } => place_in(*target, place) || place_in(
            *index,
            place,
        ),
        ExprView::Array { elements, .. } => exists|i: int|
            0 <= i < elements.len() && place_in(#[trigger] elements[i], place),
        ExprView::MapLiteral { entries, .. } => exists|i: int|
            0 <= i < entries.len() && (place_in((#[trigger] entries[i]).0, place) || place_in(
                entries[i].1,
                place,
            )),
        ExprView::Grouping { expr, .. } => place_in(*expr, place),
    }
}

/// Whether a place is that of a statement or of a part of it; the bodies of functions are no parts.
pub open spec fn place_in_stmt(stmt: StmtView, place: SourceSpan) -> bool
    decreases stmt,
{
    place == stmt_place(stmt) || match stmt {
        StmtView::Import { .. } | StmtView::Function { .. } => false,
        StmtView::Let { initializer, .. } => place_in(initializer, place),
        StmtView::Assign { value, .. } => place_in(value, place),
        StmtView::IndexAssign { target, index, value, .. } => place_in(target, place) || place_in(
            index,
            place,
        ) || place_in(value, place),
        StmtView::Return { value, .. } => place_in(value, place),
        StmtView::Expr { value, .. } => place_in(value, place),
        StmtView::If { condition, then_branch, else_branch, .. } => {
            ||| place_in(condition, place)
            ||| exists|i: int|
                0 <= i < then_branch.len() && place_in_stmt(#[trigger] then_branch[i], place)
            ||| exists|i: int|
                0 <= i < else_branch.len() && place_in_stmt(#[trigger] else_branch[i], place)
        },
        StmtView::While { condition, body, .. } => place_in(condition, place) || exists|i: int|
            0 <= i < body.len() && place_in_stmt(#[trigger] body[i], place),
        StmtView::Block { statements, .. } => exists|i: int|
            0 <= i < statements.len() && place_in_stmt(#[trigger] statements[i], place),
    }
}

/// Whether a place is in one of the expressions from `i` on.
spec fn place_in_list(exprs: Seq<ExprView>, i: int, place: SourceSpan) -> bool {
    exists|k: int| i <= k < exprs.len() && place_in(#[trigger] exprs[k], place)
}

/// Whether a place is in one of the pairs from `i` on.
spec fn place_in_entries(entries: Seq<(ExprView, ExprView)>, i: int, place: SourceSpan) -> bool {
    exists|k: int|
        i <= k < entries.len() && (place_in((#[trigger] entries[k]).0, place) || place_in(
            entries[k].1,
            place,
        ))
}

/// Whether a place is in one of the statements from `i` on.
pub open spec fn place_in_stmts(stmts: Seq<StmtView>, i: int, place: SourceSpan) -> bool {
    exists|k: int| i <= k < stmts.len() && place_in_stmt(#[trigger] stmts[k], place)
}

/// Whether code grows by instructions that come from some places.
pub open spec fn grows_from(g: Gen, h: Gen, from: spec_fn(SourceSpan) -> bool) -> bool {
    &&& g.spans.len() <= h.spans.len()
    &&& forall|i: int| 0 <= i < g.spans.len() ==> #[trigger] h.spans[i] == g.spans[i]
    &&& forall|i: int|
        g.spans.len() <= i < h.spans.len() ==> (#[trigger] h.spans[i] matches Some(place) && from(
            place,
        ))
}

proof fn lemma_both(
    f: Gen,
    g: Gen,
    h: Gen,
    first: spec_fn(SourceSpan) -> bool,
    second: spec_fn(SourceSpan) -> bool,
    all: spec_fn(SourceSpan) -> bool,
)
    requires
        grows_from(f, g, first),
        grows_from(g, h, second),
        forall|place: SourceSpan| #[trigger] first(place) ==> all(place),
        forall|place: SourceSpan| #[trigger] second(place) ==> all(place),
    ensures
        grows_from(f, h, all),
{
    assert forall|i: int| 0 <= i < f.spans.len() implies #[trigger] h.spans[i] == f.spans[i] by {
        assert(h.spans[i] == g.spans[i]);
        assert(g.spans[i] == f.spans[i]);
    }
    assert forall|i: int| f.spans.len() <= i < h.spans.len() implies (#[trigger] h.spans[i] matches
        Some(place) && all(place)) by {
        if i < g.spans.len() {
            assert(h.spans[i] == g.spans[i]);
            assert(first(g.spans[i]->0));
        } else {
            assert(second(h.spans[i]->0));
        }
    }
}

proof fn lemma_emit(
    g: Gen,
    h: Gen,
    instruction: Instruction,
    place: SourceSpan,
    first: spec_fn(SourceSpan) -> bool,
    all: spec_fn(SourceSpan) -> bool,
)
    requires
        grows_from(g, h, first),
        forall|place: SourceSpan| #[trigger] first(place) ==> all(place),
        all(place),
    ensures
        grows_from(g, emit(h, instruction, Some(place)), all),
{
    let k = emit(h, instruction, Some(place));
    assert forall|i: int| g.spans.len() <= i < k.spans.len() implies (#[trigger] k.spans[i] matches
        Some(p) && all(p)) by {
        if i < h.spans.len() {
            assert(k.spans[i] == h.spans[i]);
            assert(first(h.spans[i]->0));
        }
    }
    assert forall|i: int| 0 <= i < g.spans.len() implies #[trigger] k.spans[i] == g.spans[i] by {
        assert(h.spans[i] == g.spans[i]);
    }
}

proof fn lemma_variable(name: Seq<char>, span: SourceSpan, g: Gen)
    ensures
        read_variable(name, span, g) matches Ok((h, _)) ==> grows_from(
            g,
            h,
            |place: SourceSpan| place == span,
        ),
{
}

proof fn lemma_cells(names: Seq<Seq<char>>, i: int, start: Register, span: SourceSpan, g: Gen)
    ensures
        load_cells(names, i, start, span, g) matches Ok(h) ==> grows_from(
            g,
            h,
            |place: SourceSpan| place == span,
        ),
    decreases names.len() - i,
{
    if 0 <= i < names.len() {
        if let Ok(f) = load_cell(names[i], span, nth(start, i), g) {
            lemma_cells(names, i + 1, start, span, f);
            let only = |place: SourceSpan| place == span;
            if let Ok(h) = load_cells(names, i + 1, start, span, f) {
                lemma_both(g, f, h, only, only, only);
            }
        }
    }
}

proof fn lemma_expr(expr: ExprView, g: Gen, fs: FunctionIds)
    ensures
        gen_expr(expr, g, fs) matches Ok((h, _)) ==> grows_from(
            g,
            h,
            |place: SourceSpan| place_in(expr, place),
        ),
    decreases expr, 1int,
{
    if let ExprView::Variable { name, span } = expr {
        lemma_variable(name, span, g);
    } else {
        if let Ok((f, dst)) = fresh(g) {
            lemma_into(expr, dst, f, fs);
        }
    }
}

proof fn lemma_into(expr: ExprView, dst: Register, g: Gen, fs: FunctionIds)
    ensures
        gen_into(expr, dst, g, fs) matches Ok(h) ==> grows_from(
            g,
            h,
            |place: SourceSpan| place_in(expr, place),
        ),
    decreases expr, 0int,
{
    let all = |place: SourceSpan| place_in(expr, place);
    match expr {
        ExprView::Literal { .. } => {},
        ExprView::Variable { .. } => {},
        ExprView::Binary { op, lhs, rhs, span } => {
            lemma_expr(*lhs, g, fs);
            if let Ok((f, left)) = gen_expr(*lhs, g, fs) {
                lemma_expr(*rhs, f, fs);
                if let Ok((k, right)) = gen_expr(*rhs, f, fs) {
                    let a = |place: SourceSpan| place_in(*lhs, place);
                    let b = |place: SourceSpan| place_in(*rhs, place);
                    lemma_both(g, f, k, a, b, all);
                    lemma_emit(g, k, operation(op, dst, left, right), span, all, all);
                }
            }
        },
        ExprView::Index { target, index, span } => {
            lemma_expr(*target, g, fs);
            if let Ok((f, t)) = gen_expr(*target, g, fs) {
                lemma_expr(*index, f, fs);
                if let Ok((k, i)) = gen_expr(*index, f, fs) {
                    let a = |place: SourceSpan| place_in(*target, place);
                    let b = |place: SourceSpan| place_in(*index, place);
                    lemma_both(g, f, k, a, b, all);
                    lemma_emit(
                        g,
                        k,
                        Instruction::IndexGet { dst, target: t, index: i },
                        span,
                        all,
                        all,
                    );
                }
            }
        },
        ExprView::Array { elements, span } => {
            lemma_row(elements, g, fs);
            if let Ok((f, elements_start)) = gen_row(elements, g, fs) {
                let a = |place: SourceSpan| place_in_list(elements, 0, place);
                lemma_emit(
                    g,
                    f,
                    Instruction::ArrayNew {
                        dst,
                        elements_start,
                        element_count: elements.len() as u8,
                    },
                    span,
                    a,
                    all,
                );
            }
        },
        ExprView::Call { callee, args, span } => {
            lemma_row(args, g, fs);
            if let Ok((f, start)) = gen_row(args, g, fs) {
                let a = |place: SourceSpan| place_in_list(args, 0, place);
                let only = |place: SourceSpan| place == span;
                lemma_call(callee, start, args.len() as u8, span, dst, f, fs);
                if let Ok(h) = gen_call(callee, start, args.len() as u8, span, dst, f, fs) {
                    lemma_both(g, f, h, a, only, all);
                }
            }
        },
        ExprView::MapLiteral { entries, span } => {
            if let Ok((f, entries_start)) = reserve(g, 2 * entries.len()) {
                lemma_entries(entries, 0, entries_start, f, fs);
                if let Ok(k) = gen_entries(entries, 0, entries_start, f, fs) {
                    let a = |place: SourceSpan| place_in_entries(entries, 0, place);
                    assert(grows_from(g, k, a));
                    lemma_emit(
                        g,
                        k,
                        Instruction::MapNew {
                            dst,
                            entries_start,
                            entry_count: entries.len() as u8,
                        },
                        span,
                        a,
                        all,
                    );
                }
            }
        },
        ExprView::Function { params, body, span } => {
            let names = known_names(free_names(params, body, fs), 0, g);
            let id = g.next_function_id;
            let boxed = captured_in_stmts(body, 0, fs, Set::empty());
            if let Ok(first) = begin(closure_name(id), params, names, boxed, id + 1) {
                if let Ok(inner) = gen_stmts(body, 0, first, fs) {
                    lemma_closure(names, id, span, inner, dst, g);
                    if let Ok(h) = gen_closure(names, id, span, inner, dst, g) {
                        let only = |place: SourceSpan| place == span;
                        lemma_both(g, g, h, only, only, all);
                    }
                }
            }
        },
        ExprView::Grouping { expr: inner, .. } => {
            lemma_into(*inner, dst, g, fs);
            if let Ok(h) = gen_into(*inner, dst, g, fs) {
                let a = |place: SourceSpan| place_in(*inner, place);
                lemma_both(g, g, h, a, a, all);
            }
        },
    }
}

proof fn lemma_call(
    callee: Seq<char>,
    start: Register,
    count: u8,
    span: SourceSpan,
    dst: Register,
    g: Gen,
    fs: FunctionIds,
)
    ensures
        gen_call(callee, start, count, span, dst, g, fs) matches Ok(h) ==> grows_from(
            g,
            h,
            |place: SourceSpan| place == span,
        ),
{
    let only = |place: SourceSpan| place == span;
    lemma_variable(callee, span, g);
    if !fs.contains_key(callee) {
        if let Ok((f, value)) = read_variable(callee, span, g) {
            lemma_emit(
                g,
                f,
                Instruction::CallValue { dst, callee: value, args_start: start, arg_count: count },
                span,
                only,
                only,
            );
        }
    }
}

proof fn lemma_closure(
    names: Seq<Seq<char>>,
    id: nat,
    span: SourceSpan,
    inner: Gen,
    dst: Register,
    g: Gen,
)
    ensures
        gen_closure(names, id, span, inner, dst, g) matches Ok(h) ==> grows_from(
            g,
            h,
            |place: SourceSpan| place == span,
        ),
{
    let only = |place: SourceSpan| place == span;
    if let Ok(chunk) = finished(inner) {
        let f = Gen {
            next_function_id: inner.next_function_id,
            generated: g.generated.push(bytecode_function(chunk)) + inner.generated,
            ..g
        };
        if let Ok((k, start)) = reserve(f, names.len()) {
            lemma_cells(names, 0, start, span, k);
            if let Ok(m) = load_cells(names, 0, start, span, k) {
                assert(grows_from(g, m, only));
                lemma_emit(
                    g,
                    m,
                    Instruction::MakeClosure {
                        dst,
                        function: FunctionId(id as u16),
                        captures_start: start,
                        capture_count: names.len() as u8,
                    },
                    span,
                    only,
                    only,
                );
            }
        }
    }
}

proof fn lemma_row(exprs: Seq<ExprView>, g: Gen, fs: FunctionIds)
    ensures
        gen_row(exprs, g, fs) matches Ok((h, _)) ==> grows_from(
            g,
            h,
            |place: SourceSpan| place_in_list(exprs, 0, place),
        ),
    decreases exprs, exprs.len() + 1,
{
    if let Ok((f, start)) = reserve(g, exprs.len()) {
        lemma_list(exprs, 0, start, f, fs);
    }
}

proof fn lemma_list(exprs: Seq<ExprView>, i: int, start: Register, g: Gen, fs: FunctionIds)
    requires
        0 <= i <= exprs.len(),
    ensures
        gen_list(exprs, i, start, g, fs) matches Ok(h) ==> grows_from(
            g,
            h,
            |place: SourceSpan| place_in_list(exprs, i, place),
        ),
    decreases exprs, exprs.len() - i,
{
    if i < exprs.len() {
        let dst = nth(start, i);
        lemma_into(exprs[i], dst, g, fs);
        if let Ok(f) = gen_into(exprs[i], dst, g, fs) {
            lemma_list(exprs, i + 1, start, f, fs);
            if let Ok(h) = gen_list(exprs, i + 1, start, f, fs) {
                lemma_both(
                    g,
                    f,
                    h,
                    |place: SourceSpan| place_in(exprs[i], place),
                    |place: SourceSpan| place_in_list(exprs, i + 1, place),
                    |place: SourceSpan| place_in_list(exprs, i, place),
                );
            }
        }
    }
}

proof fn lemma_entries(
    entries: Seq<(ExprView, ExprView)>,
    i: int,
    start: Register,
    g: Gen,
    fs: FunctionIds,
)
    requires
        0 <= i <= entries.len(),
    ensures
        gen_entries(entries, i, start, g, fs) matches Ok(h) ==> grows_from(
            g,
            h,
            |place: SourceSpan| place_in_entries(entries, i, place),
        ),
    decreases entries, entries.len() - i,
{
    if i < entries.len() {
        let first = nth(start, 2 * i);
        let second = nth(start, 2 * i + 1);
        let all = |place: SourceSpan| place_in_entries(entries, i, place);
        lemma_into(entries[i].0, first, g, fs);
        if let Ok(f) = gen_into(entries[i].0, first, g, fs) {
            lemma_into(entries[i].1, second, f, fs);
            if let Ok(k) = gen_into(entries[i].1, second, f, fs) {
                lemma_both(
                    g,
                    f,
                    k,
                    |place: SourceSpan| place_in(entries[i].0, place),
                    |place: SourceSpan| place_in(entries[i].1, place),
                    all,
                );
                lemma_entries(entries, i + 1, start, k, fs);
                if let Ok(h) = gen_entries(entries, i + 1, start, k, fs) {
                    lemma_both(
                        g,
                        k,
                        h,
                        all,
                        |place: SourceSpan| place_in_entries(entries, i + 1, place),
                        all,
                    );
                }
            }
        }
    }
}

proof fn lemma_stmts(stmts: Seq<StmtView>, i: int, g: Gen, fs: FunctionIds)
    requires
        0 <= i <= stmts.len(),
    ensures
        gen_stmts(stmts, i, g, fs) matches Ok(h) ==> grows_from(
            g,
            h,
            |place: SourceSpan| place_in_stmts(stmts, i, place),
        ),
    decreases stmts, stmts.len() - i,
{
    if i < stmts.len() {
        lemma_stmt(stmts[i], g, fs);
        if let Ok(f) = gen_stmt(stmts[i], g, fs) {
            lemma_stmts(stmts, i + 1, f, fs);
            if let Ok(h) = gen_stmts(stmts, i + 1, f, fs) {
                lemma_both(
                    g,
                    f,
                    h,
                    |place: SourceSpan| place_in_stmt(stmts[i], place),
                    |place: SourceSpan| place_in_stmts(stmts, i + 1, place),
                    |place: SourceSpan| place_in_stmts(stmts, i, place),
                );
            }
        }
    }
}

proof fn lemma_block(stmts: Seq<StmtView>, g: Gen, fs: FunctionIds)
    ensures
        gen_block(stmts, g, fs) matches Ok(h) ==> grows_from(
            g,
            h,
            |place: SourceSpan| place_in_stmts(stmts, 0, place),
        ),
    decreases stmts, stmts.len() + 1,
{
    lemma_stmts(stmts, 0, g, fs);
}

proof fn lemma_let(stmt: StmtView, g: Gen, fs: FunctionIds)
    requires
        stmt is Let,
    ensures
        gen_stmt(stmt, g, fs) matches Ok(h) ==> grows_from(
            g,
            h,
            |place: SourceSpan| place_in_stmt(stmt, place),
        ),
    decreases stmt, 0int,
{
    let name = stmt->Let_name;
    let initializer = stmt->Let_initializer;
    let span = stmt->Let_span;
    let all = |place: SourceSpan| place_in_stmt(stmt, place);
    let a = |place: SourceSpan| place_in(initializer, place);
    let only = |place: SourceSpan| place == span;
    if let Ok((f, register)) = fresh(g) {
        let put = Instruction::MakeUpvalue { dst: register, src: register };
        lemma_into(initializer, register, f, fs);
        if let Ok(k) = gen_into(initializer, register, f, fs) {
            assert(grows_from(g, k, a));
            lemma_both(g, k, k, a, a, all);
            lemma_emit(g, k, put, span, a, all);
        }
        let boxed = named_local(name, register, true, boxed_register(register, span, f));
        assert(grows_from(g, boxed, only));
        lemma_expr(initializer, boxed, fs);
        if let Ok((k, src)) = gen_expr(initializer, boxed, fs) {
            lemma_both(g, boxed, k, only, a, all);
            lemma_stored(name, span, src, g, k, all);
        }
    }
}

proof fn lemma_stored(
    name: Seq<char>,
    span: SourceSpan,
    src: Register,
    g: Gen,
    k: Gen,
    all: spec_fn(SourceSpan) -> bool,
)
    requires
        grows_from(g, k, all),
        all(span),
    ensures
        grows_from(g, store_variable(name, span, src, k), all),
{
    if k.locals.contains_key(name) {
        lemma_emit(
            g,
            k,
            Instruction::StoreUpvalue { upvalue: k.locals[name].register, src },
            span,
            all,
            all,
        );
    } else {
        lemma_emit(
            g,
            k,
            Instruction::StoreCapture { capture: k.captures[name], src },
            span,
            all,
            all,
        );
    }
}

proof fn lemma_if(stmt: StmtView, g: Gen, fs: FunctionIds)
    requires
        stmt is If,
    ensures
        gen_stmt(stmt, g, fs) matches Ok(h) ==> grows_from(
            g,
            h,
            |place: SourceSpan| place_in_stmt(stmt, place),
        ),
    decreases stmt, 0int,
{
    let condition = stmt->If_condition;
    let first = stmt->If_then_branch;
    let second = stmt->If_else_branch;
    let span = stmt->If_span;
    let all = |place: SourceSpan| place_in_stmt(stmt, place);
    let c = |place: SourceSpan| place_in(condition, place);
    let x = |place: SourceSpan| place_in_stmts(first, 0, place);
    let y = |place: SourceSpan| place_in_stmts(second, 0, place);
    lemma_expr(condition, g, fs);
    if let Ok((e, register)) = gen_expr(condition, g, fs) {
        let jumped = emit(e, open_jump_if_false(register), Some(span));
        lemma_emit(g, e, open_jump_if_false(register), span, c, all);
        lemma_block(first, jumped, fs);
        if let Ok(f) = gen_block(first, jumped, fs) {
            let to_else = e.code.len();
            lemma_both(g, jumped, f, all, x, all);
            if second.len() > 0 {
                if always_return(first) {
                    if let Ok(k) = patch_here(f, to_else) {
                        lemma_block(second, k, fs);
                        if let Ok(h) = gen_block(second, k, fs) {
                            assert(grows_from(g, k, all));
                            lemma_both(g, k, h, all, y, all);
                        }
                    }
                } else {
                    lemma_emit(g, f, open_jump(), span, all, all);
                    if let Ok(k) = patch_here(emit(f, open_jump(), Some(span)), to_else) {
                        lemma_block(second, k, fs);
                        if let Ok(h) = gen_block(second, k, fs) {
                            assert(grows_from(g, k, all));
                            lemma_both(g, k, h, all, y, all);
                        }
                    }
                }
            }
        }
    }
}

proof fn lemma_while(stmt: StmtView, g: Gen, fs: FunctionIds)
    requires
        stmt is While,
    ensures
        gen_stmt(stmt, g, fs) matches Ok(h) ==> grows_from(
            g,
            h,
            |place: SourceSpan| place_in_stmt(stmt, place),
        ),
    decreases stmt, 0int,
{
    let condition = stmt->While_condition;
    let body = stmt->While_body;
    let span = stmt->While_span;
    let all = |place: SourceSpan| place_in_stmt(stmt, place);
    let c = |place: SourceSpan| place_in(condition, place);
    let x = |place: SourceSpan| place_in_stmts(body, 0, place);
    lemma_expr(condition, g, fs);
    if let Ok(start) = here(g) {
        if let Ok((e, register)) = gen_expr(condition, g, fs) {
            let jumped = emit(e, open_jump_if_false(register), Some(span));
            lemma_emit(g, e, open_jump_if_false(register), span, c, all);
            lemma_block(body, jumped, fs);
            if let Ok(f) = gen_block(body, jumped, fs) {
                lemma_both(g, jumped, f, all, x, all);
                lemma_emit(g, f, Instruction::Jump { target: JumpTarget(start) }, span, all, all);
            }
        }
    }
}

proof fn lemma_stmt(stmt: StmtView, g: Gen, fs: FunctionIds)
    ensures
        gen_stmt(stmt, g, fs) matches Ok(h) ==> grows_from(
            g,
            h,
            |place: SourceSpan| place_in_stmt(stmt, place),
        ),
    decreases stmt, 1int,
{
    let all = |place: SourceSpan| place_in_stmt(stmt, place);
    match stmt {
        StmtView::Import { .. } => {},
        StmtView::Function { .. } => {},
        StmtView::Let { .. } => lemma_let(stmt, g, fs),
        StmtView::Assign { name, value, span } => {
            let a = |place: SourceSpan| place_in(value, place);
            if g.locals.contains_key(name) && !g.locals[name].cell {
                let register = g.locals[name].register;
                lemma_into(value, register, g, fs);
                if let Ok(h) = gen_into(value, register, g, fs) {
                    lemma_both(g, h, h, a, a, all);
                }
            } else {
                lemma_expr(value, g, fs);
                if let Ok((k, src)) = gen_expr(value, g, fs) {
                    lemma_both(g, k, k, a, a, all);
                    lemma_stored(name, span, src, g, k, all);
                }
            }
        },
        StmtView::IndexAssign { target, index, value, span } => {
            let a = |place: SourceSpan| place_in(target, place);
            let b = |place: SourceSpan| place_in(index, place);
            let c = |place: SourceSpan| place_in(value, place);
            lemma_expr(target, g, fs);
            if let Ok((e, t)) = gen_expr(target, g, fs) {
                lemma_expr(index, e, fs);
                if let Ok((f, i)) = gen_expr(index, e, fs) {
                    lemma_both(g, e, f, a, b, all);
                    lemma_expr(value, f, fs);
                    if let Ok((k, v)) = gen_expr(value, f, fs) {
                        lemma_both(g, f, k, all, c, all);
                        lemma_emit(
                            g,
                            k,
                            Instruction::IndexSet { target: t, index: i, value: v },
                            span,
                            all,
                            all,
                        );
                    }
                }
            }
        },
        StmtView::Return { value, span } => {
            let a = |place: SourceSpan| place_in(value, place);
            lemma_expr(value, g, fs);
            if let Ok((k, src)) = gen_expr(value, g, fs) {
                lemma_emit(g, k, Instruction::Return { src }, span, a, all);
            }
        },
        StmtView::Expr { value, .. } => {
            let a = |place: SourceSpan| place_in(value, place);
            lemma_expr(value, g, fs);
            if let Ok((k, _)) = gen_expr(value, g, fs) {
                lemma_both(g, k, k, a, a, all);
            }
        },
        StmtView::If { .. } => lemma_if(stmt, g, fs),
        StmtView::While { .. } => lemma_while(stmt, g, fs),
        StmtView::Block { statements, .. } => {
            lemma_block(statements, g, fs);
            if let Ok(h) = gen_block(statements, g, fs) {
                let x = |place: SourceSpan| place_in_stmts(statements, 0, place);
                lemma_both(g, h, h, x, x, all);
            }
        },
    }
}

proof fn lemma_enter(params: Seq<Seq<char>>, i: int, g: Gen)
    requires
        0 <= i <= params.len(),
        forall|k: int| 0 <= k < g.spans.len() ==> #[trigger] g.spans[k] is None,
    ensures
        forall|k: int|
            0 <= k < enter(params, i, g).spans.len() ==> #[trigger] enter(params, i, g).spans[k]
                is None,
        enter(params, i, g).spans.len() <= g.spans.len() + params.len() - i,
    decreases params.len() - i,
{
    if i < params.len() {
        let register = Register(i as u8);
        let cell = g.boxed.contains(params[i]);
        let named = Gen { locals: g.locals.insert(params[i], Local { register, cell }), ..g };
        let entered = if cell {
            emit(named, Instruction::MakeUpvalue { dst: register, src: register }, None)
        } else {
            named
        };
        lemma_enter(params, i + 1, entered);
    }
}

/// Every instruction of a function comes from a place in the function's body, but for those that
/// take over its parameters, which come first.
pub proof fn instructions_come_from_their_source(
    name: Seq<char>,
    params: Seq<Seq<char>>,
    body: Seq<StmtView>,
    next_function_id: nat,
    ids: FunctionIds,
) -> (entered: nat)
    ensures
        entered <= params.len(),
        body_code(name, params, body, next_function_id, ids) matches Ok(g) ==> {
            &&& entered <= g.spans.len()
            &&& forall|i: int| 0 <= i < entered ==> #[trigger] g.spans[i] is None
            &&& forall|i: int|
                entered <= i < g.spans.len() ==> (#[trigger] g.spans[i] matches Some(place)
                    && place_in_stmts(body, 0, place))
        },
{
    let boxed = captured_in_stmts(body, 0, ids, Set::empty());
    if let Ok(first) = begin(name, params, Seq::empty(), boxed, next_function_id) {
        assert forall|g: Gen| g.spans.len() == 0 implies (#[trigger] enter(params, 0, g)).spans.len()
            <= params.len() && forall|k: int|
            0 <= k < enter(params, 0, g).spans.len() ==> #[trigger] enter(params, 0, g).spans[k]
                is None by {
            lemma_enter(params, 0, g);
        }
        lemma_stmts(body, 0, first, ids);
        first.spans.len()
    } else {
        0
    }
}

} // verus!
