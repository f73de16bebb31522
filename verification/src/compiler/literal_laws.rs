//! The functions of function literals are numbered in the order of the literals.

use vstd::prelude::*;

use crate::bytecode::instruction::{Instruction, Register};
use crate::compiler::ast::{ExprView, StmtView};
use crate::compiler::captures::{always_return, captured_in_stmts, free_names};
use crate::compiler::emitter::{
    begin, boxed_register, closure_name, emit, enter, fresh, gen_block, gen_entries, gen_expr,
    gen_into, gen_list, gen_row, gen_stmt, gen_stmts, known_names, load_cell, load_cells,
    named_local, nth, open_jump, open_jump_if_false, patch_here, reserve, FunctionIds, Gen, Local,
};
use crate::compiler::meaning::{
    literals_in, literals_in_entries, literals_in_list, literals_in_stmt, literals_in_stmts,
};
use crate::diagnostics::span::SourceSpan;

verus! {

proof fn lemma_cells_keep_count(
    names: Seq<Seq<char>>,
    i: int,
    start: Register,
    span: SourceSpan,
    g: Gen,
)
    ensures
        load_cells(names, i, start, span, g) matches Ok(h) ==> h.next_function_id
            == g.next_function_id,
    decreases names.len() - i,
{
    if 0 <= i < names.len() {
        if let Ok(f) = load_cell(names[i], span, nth(start, i), g) {
            lemma_cells_keep_count(names, i + 1, start, span, f);
        }
    }
}

proof fn lemma_enter_keeps_count(params: Seq<Seq<char>>, i: int, g: Gen)
    ensures
        enter(params, i, g).next_function_id == g.next_function_id,
    decreases params.len() - i,
{
    if 0 <= i < params.len() {
        let register = Register(i as u8);
        let cell = g.boxed.contains(params[i]);
        let named = Gen { locals: g.locals.insert(params[i], Local { register, cell }), ..g };
        let entered = if cell {
            emit(named, Instruction::MakeUpvalue { dst: register, src: register }, None)
        } else {
            named
        };
        lemma_enter_keeps_count(params, i + 1, entered);
    }
}

/// The code of an expression takes as many numbers as there are function literals in it.
pub(crate) proof fn lemma_expr_literals(expr: ExprView, g: Gen, fs: FunctionIds)
    ensures
        gen_expr(expr, g, fs) matches Ok((h, _)) ==> h.next_function_id == g.next_function_id
            + literals_in(expr),
    decreases expr, 1int,
{
    if !(expr is Variable) {
        if let Ok((f, dst)) = fresh(g) {
            lemma_into_literals(expr, dst, f, fs);
        }
    }
}

pub(crate) proof fn lemma_into_literals(expr: ExprView, dst: Register, g: Gen, fs: FunctionIds)
    ensures
        gen_into(expr, dst, g, fs) matches Ok(h) ==> h.next_function_id == g.next_function_id
            + literals_in(expr),
    decreases expr, 0int,
{
    match expr {
        ExprView::Literal { .. } => {},
        ExprView::Variable { .. } => {},
        ExprView::Binary { lhs, rhs, .. } => {
            lemma_expr_literals(*lhs, g, fs);
            if let Ok((f, _)) = gen_expr(*lhs, g, fs) {
                lemma_expr_literals(*rhs, f, fs);
            }
        },
        ExprView::Index { target, index, .. } => {
            lemma_expr_literals(*target, g, fs);
            if let Ok((f, _)) = gen_expr(*target, g, fs) {
                lemma_expr_literals(*index, f, fs);
            }
        },
        ExprView::Array { elements, .. } => lemma_row_literals(elements, g, fs),
        ExprView::Call { args, .. } => lemma_row_literals(args, g, fs),
        ExprView::MapLiteral { entries, .. } => {
            if let Ok((f, start)) = reserve(g, 2 * entries.len()) {
                lemma_entries_literals(entries, 0, start, f, fs);
            }
        },
        ExprView::Function { params, body, span } => {
            let names = known_names(free_names(params, body, fs), 0, g);
            let id = g.next_function_id;
            let boxed = captured_in_stmts(body, 0, fs, Set::empty());
            lemma_begin_literals(closure_name(id), params, names, boxed, id + 1);
            if let Ok(first) = begin(closure_name(id), params, names, boxed, id + 1) {
                lemma_stmts_literals(body, 0, first, fs);
                if let Ok(inner) = gen_stmts(body, 0, first, fs) {
                    assert forall|f: Gen, start: Register| true implies (
                    #[trigger] load_cells(names, 0, start, span, f) matches Ok(h)
                        ==> h.next_function_id == f.next_function_id) by {
                        lemma_cells_keep_count(names, 0, start, span, f);
                    }
                }
            }
        },
        ExprView::Grouping { expr: inner, .. } => lemma_into_literals(*inner, dst, g, fs),
    }
}

pub(crate) proof fn lemma_begin_literals(
    name: Seq<char>,
    params: Seq<Seq<char>>,
    captures: Seq<Seq<char>>,
    boxed: Set<Seq<char>>,
    next_function_id: nat,
)
    ensures
        begin(name, params, captures, boxed, next_function_id) matches Ok(g) ==> g.next_function_id
            == next_function_id,
{
    assert forall|g: Gen| (#[trigger] enter(params, 0, g)).next_function_id
        == g.next_function_id by {
        lemma_enter_keeps_count(params, 0, g);
    }
}

pub(crate) proof fn lemma_row_literals(exprs: Seq<ExprView>, g: Gen, fs: FunctionIds)
    ensures
        gen_row(exprs, g, fs) matches Ok((h, _)) ==> h.next_function_id == g.next_function_id
            + literals_in_list(exprs, 0),
    decreases exprs, exprs.len() + 1,
{
    if let Ok((f, start)) = reserve(g, exprs.len()) {
        lemma_list_literals(exprs, 0, start, f, fs);
    }
}

pub(crate) proof fn lemma_list_literals(
    exprs: Seq<ExprView>,
    i: int,
    start: Register,
    g: Gen,
    fs: FunctionIds,
)
    requires
        0 <= i <= exprs.len(),
    ensures
        gen_list(exprs, i, start, g, fs) matches Ok(h) ==> h.next_function_id == g.next_function_id
            + literals_in_list(exprs, i),
    decreases exprs, exprs.len() - i,
{
    if i < exprs.len() {
        let dst = nth(start, i);
        lemma_into_literals(exprs[i], dst, g, fs);
        if let Ok(f) = gen_into(exprs[i], dst, g, fs) {
            lemma_list_literals(exprs, i + 1, start, f, fs);
        }
    }
}

pub(crate) proof fn lemma_entries_literals(
    entries: Seq<(ExprView, ExprView)>,
    i: int,
    start: Register,
    g: Gen,
    fs: FunctionIds,
)
    requires
        0 <= i <= entries.len(),
    ensures
        gen_entries(entries, i, start, g, fs) matches Ok(h) ==> h.next_function_id
            == g.next_function_id + literals_in_entries(entries, i),
    decreases entries, entries.len() - i,
{
    if i < entries.len() {
        let first = nth(start, 2 * i);
        let second = nth(start, 2 * i + 1);
        lemma_into_literals(entries[i].0, first, g, fs);
        if let Ok(f) = gen_into(entries[i].0, first, g, fs) {
            lemma_into_literals(entries[i].1, second, f, fs);
            if let Ok(k) = gen_into(entries[i].1, second, f, fs) {
                lemma_entries_literals(entries, i + 1, start, k, fs);
            }
        }
    }
}

pub(crate) proof fn lemma_stmts_literals(stmts: Seq<StmtView>, i: int, g: Gen, fs: FunctionIds)
    requires
        0 <= i <= stmts.len(),
    ensures
        gen_stmts(stmts, i, g, fs) matches Ok(h) ==> h.next_function_id == g.next_function_id
            + literals_in_stmts(stmts, i),
    decreases stmts, stmts.len() - i,
{
    if i < stmts.len() {
        lemma_stmt_literals(stmts[i], g, fs);
        if let Ok(f) = gen_stmt(stmts[i], g, fs) {
            lemma_stmts_literals(stmts, i + 1, f, fs);
        }
    }
}

pub(crate) proof fn lemma_block_literals(stmts: Seq<StmtView>, g: Gen, fs: FunctionIds)
    ensures
        gen_block(stmts, g, fs) matches Ok(h) ==> h.next_function_id == g.next_function_id
            + literals_in_stmts(stmts, 0),
    decreases stmts, stmts.len() + 1,
{
    lemma_stmts_literals(stmts, 0, g, fs);
}

pub(crate) proof fn lemma_stmt_literals(stmt: StmtView, g: Gen, fs: FunctionIds)
    ensures
        gen_stmt(stmt, g, fs) matches Ok(h) ==> h.next_function_id == g.next_function_id
            + literals_in_stmt(stmt),
    decreases stmt, 0int,
{
    match stmt {
        StmtView::Import { .. } => {},
        StmtView::Function { .. } => {},
        StmtView::Let { name, initializer, span, .. } => {
            if let Ok((f, register)) = fresh(g) {
                lemma_into_literals(initializer, register, f, fs);
                lemma_expr_literals(
                    initializer,
                    named_local(name, register, true, boxed_register(register, span, f)),
                    fs,
                );
            }
        },
        StmtView::Assign { name, value, .. } => {
            lemma_expr_literals(value, g, fs);
            if g.locals.contains_key(name) {
                lemma_into_literals(value, g.locals[name].register, g, fs);
            }
        },
        StmtView::IndexAssign { target, index, value, .. } => {
            lemma_expr_literals(target, g, fs);
            if let Ok((e, _)) = gen_expr(target, g, fs) {
                lemma_expr_literals(index, e, fs);
                if let Ok((f, _)) = gen_expr(index, e, fs) {
                    lemma_expr_literals(value, f, fs);
                }
            }
        },
        StmtView::Return { value, .. } => lemma_expr_literals(value, g, fs),
        StmtView::Expr { value, .. } => lemma_expr_literals(value, g, fs),
        StmtView::If { condition, then_branch, else_branch, span } => {
            lemma_expr_literals(condition, g, fs);
            if let Ok((e, register)) = gen_expr(condition, g, fs) {
                let jumped = emit(e, open_jump_if_false(register), Some(span));
                lemma_block_literals(then_branch, jumped, fs);
                if let Ok(f) = gen_block(then_branch, jumped, fs) {
                    let to_else = e.code.len();
                    if else_branch.len() == 0 {
                        assert(literals_in_stmts(else_branch, 0) == 0);
                    } else if always_return(then_branch) {
                        if let Ok(k) = patch_here(f, to_else) {
                            lemma_block_literals(else_branch, k, fs);
                        }
                    } else {
                        if let Ok(k) = patch_here(emit(f, open_jump(), Some(span)), to_else) {
                            lemma_block_literals(else_branch, k, fs);
                        }
                    }
                }
            }
        },
        StmtView::While { condition, body, span } => {
            lemma_expr_literals(condition, g, fs);
            if let Ok((e, register)) = gen_expr(condition, g, fs) {
                lemma_block_literals(body, emit(e, open_jump_if_false(register), Some(span)), fs);
            }
        },
        StmtView::Block { statements, .. } => lemma_block_literals(statements, g, fs),
    }
}

} // verus!
