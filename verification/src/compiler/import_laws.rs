//! Which modules programs depend on, and what reports count.

use vstd::prelude::*;

use crate::bytecode::optimizer::{transformation_sum, OptimizationReport};
use crate::bytecode::program::{FunctionKindView, FunctionView};
use crate::compiler::analysis::{
    all_imports, bytecode_count, capabilities, entries_imports, expr_imports, exprs_imports,
    instruction_count, native_names, pass_count, stmt_imports, stmts_imports, transformation_count,
};
use crate::compiler::ast::{ExprView, ProgramAst, StmtView};

verus! {

/// Whether an import of a module stands somewhere in an expression.
pub open spec fn imports_in(expr: ExprView, module: Seq<char>) -> bool
    decreases expr,
{
    match expr {
        ExprView::Literal { .. } | ExprView::Variable { .. } => false,
        ExprView::Binary { lhs, rhs, .. } => imports_in(*lhs, module) || imports_in(*rhs, module),
        ExprView::Call { args, .. } => exists|i: int|
            0 <= i < args.len() && imports_in(#[trigger] args[i], module),
        ExprView::Function { body, .. } => exists|i: int|
            0 <= i < body.len() && imports(#[trigger] body[i], module),
        ExprView::Index { target, index, .. } => imports_in(*target, module) || imports_in(
            *index,
            module,
        ),
        ExprView::Array { elements, .. } => exists|i: int|
            0 <= i < elements.len() && imports_in(#[trigger] elements[i], module),
        ExprView::MapLiteral { entries, .. } => exists|i: int|
            0 <= i < entries.len() && (imports_in((#[trigger] entries[i]).0, module) || imports_in(
                entries[i].1,
                module,
            )),
        ExprView::Grouping { expr, .. } => imports_in(*expr, module),
    }
}

/// Whether a statement is or holds an import of a module.
pub open spec fn imports(stmt: StmtView, module: Seq<char>) -> bool
    decreases stmt,
{
    match stmt {
        StmtView::Import { module: m, .. } => m == module,
        StmtView::Let { initializer, .. } => imports_in(initializer, module),
        StmtView::Function { body, .. } => exists|i: int|
            0 <= i < body.len() && imports(#[trigger] body[i], module),
        StmtView::Assign { value, .. } => imports_in(value, module),
        StmtView::IndexAssign { target, index, value, .. } => imports_in(target, module)
            || imports_in(index, module) || imports_in(value, module),
        StmtView::Return { value, .. } => imports_in(value, module),
        StmtView::Expr { value, .. } => imports_in(value, module),
        StmtView::If { condition, then_branch, else_branch, .. } => {
            ||| imports_in(condition, module)
            ||| exists|i: int|
                0 <= i < then_branch.len() && imports(#[trigger] then_branch[i], module)
            ||| exists|i: int|
                0 <= i < else_branch.len() && imports(#[trigger] else_branch[i], module)
        },
        StmtView::While { condition, body, .. } => imports_in(condition, module) || exists|i: int|
            0 <= i < body.len() && imports(#[trigger] body[i], module),
        StmtView::Block { statements, .. } => exists|i: int|
            0 <= i < statements.len() && imports(#[trigger] statements[i], module),
    }
}

proof fn lemma_expr(expr: ExprView, module: Seq<char>, set: Set<Seq<char>>)
    ensures
        expr_imports(expr, set).contains(module) <==> set.contains(module) || imports_in(
            expr,
            module,
        ),
    decreases expr, 0int,
{
    match expr {
        ExprView::Literal { .. } | ExprView::Variable { .. } => {},
        ExprView::Binary { lhs, rhs, .. } => {
            lemma_expr(*lhs, module, set);
            lemma_expr(*rhs, module, expr_imports(*lhs, set));
        },
        ExprView::Call { args, .. } => {
            lemma_exprs(args, 0, module, set);
        },
        ExprView::Function { body, .. } => {
            lemma_stmts(body, 0, module, set);
        },
        ExprView::Index { target, index, .. } => {
            lemma_expr(*target, module, set);
            lemma_expr(*index, module, expr_imports(*target, set));
        },
        ExprView::Array { elements, .. } => {
            lemma_exprs(elements, 0, module, set);
        },
        ExprView::MapLiteral { entries, .. } => {
            lemma_entries(entries, 0, module, set);
        },
        ExprView::Grouping { expr, .. } => {
            lemma_expr(*expr, module, set);
        },
    }
}

proof fn lemma_exprs(exprs: Seq<ExprView>, i: int, module: Seq<char>, set: Set<Seq<char>>)
    requires
        0 <= i <= exprs.len(),
    ensures
        exprs_imports(exprs, i, set).contains(module) <==> set.contains(module) || exists|k: int|
            i <= k < exprs.len() && imports_in(#[trigger] exprs[k], module),
    decreases exprs, exprs.len() - i,
{
    if i < exprs.len() {
        lemma_expr(exprs[i], module, set);
        lemma_exprs(exprs, i + 1, module, expr_imports(exprs[i], set));
        if exists|k: int| i <= k < exprs.len() && imports_in(#[trigger] exprs[k], module) {
            let k = choose|k: int| i <= k < exprs.len() && imports_in(#[trigger] exprs[k], module);
            assert(k == i || imports_in(exprs[k], module));
        }
    }
}

proof fn lemma_entries(
    entries: Seq<(ExprView, ExprView)>,
    i: int,
    module: Seq<char>,
    set: Set<Seq<char>>,
)
    requires
        0 <= i <= entries.len(),
    ensures
        entries_imports(entries, i, set).contains(module) <==> set.contains(module) || exists|
            k: int,
        |
            i <= k < entries.len() && (imports_in((#[trigger] entries[k]).0, module) || imports_in(
                entries[k].1,
                module,
            )),
    decreases entries, entries.len() - i,
{
    if i < entries.len() {
        let keys = expr_imports(entries[i].0, set);
        lemma_expr(entries[i].0, module, set);
        lemma_expr(entries[i].1, module, keys);
        lemma_entries(entries, i + 1, module, expr_imports(entries[i].1, keys));
        if exists|k: int|
            i <= k < entries.len() && (imports_in((#[trigger] entries[k]).0, module) || imports_in(
                entries[k].1,
                module,
            )) {
            let k = choose|k: int|
                i <= k < entries.len() && (imports_in((#[trigger] entries[k]).0, module)
                    || imports_in(entries[k].1, module));
            assert(k == i || imports_in(entries[k].0, module) || imports_in(entries[k].1, module));
        }
    }
}

proof fn lemma_stmt(stmt: StmtView, module: Seq<char>, set: Set<Seq<char>>)
    ensures
        stmt_imports(stmt, set).contains(module) <==> set.contains(module) || imports(stmt, module),
    decreases stmt, 0int,
{
    match stmt {
        StmtView::Import { .. } => {},
        StmtView::Let { initializer, .. } => {
            lemma_expr(initializer, module, set);
        },
        StmtView::Function { body, .. } => {
            lemma_stmts(body, 0, module, set);
        },
        StmtView::Assign { value, .. } => {
            lemma_expr(value, module, set);
        },
        StmtView::IndexAssign { target, index, value, .. } => {
            let first = expr_imports(target, set);
            lemma_expr(target, module, set);
            lemma_expr(index, module, first);
            lemma_expr(value, module, expr_imports(index, first));
        },
        StmtView::Return { value, .. } => {
            lemma_expr(value, module, set);
        },
        StmtView::Expr { value, .. } => {
            lemma_expr(value, module, set);
        },
        StmtView::If { condition, then_branch, else_branch, .. } => {
            let first = expr_imports(condition, set);
            lemma_expr(condition, module, set);
            lemma_stmts(then_branch, 0, module, first);
            lemma_stmts(else_branch, 0, module, stmts_imports(then_branch, 0, first));
        },
        StmtView::While { condition, body, .. } => {
            lemma_expr(condition, module, set);
            lemma_stmts(body, 0, module, expr_imports(condition, set));
        },
        StmtView::Block { statements, .. } => {
            lemma_stmts(statements, 0, module, set);
        },
    }
}

proof fn lemma_stmts(stmts: Seq<StmtView>, i: int, module: Seq<char>, set: Set<Seq<char>>)
    requires
        0 <= i <= stmts.len(),
    ensures
        stmts_imports(stmts, i, set).contains(module) <==> set.contains(module) || exists|k: int|
            i <= k < stmts.len() && imports(#[trigger] stmts[k], module),
    decreases stmts, stmts.len() - i,
{
    if i < stmts.len() {
        lemma_stmt(stmts[i], module, set);
        lemma_stmts(stmts, i + 1, module, stmt_imports(stmts[i], set));
        if exists|k: int| i <= k < stmts.len() && imports(#[trigger] stmts[k], module) {
            let k = choose|k: int| i <= k < stmts.len() && imports(#[trigger] stmts[k], module);
            assert(k == i || imports(stmts[k], module));
        }
    }
}

/// Whether a program imports a module somewhere.
pub open spec fn program_imports(stmts: Seq<StmtView>, module: Seq<char>) -> bool {
    exists|k: int| 0 <= k < stmts.len() && imports(#[trigger] stmts[k], module)
}

proof fn lemma_programs(
    programs: Seq<&ProgramAst>,
    i: int,
    module: Seq<char>,
    set: Set<Seq<char>>,
)
    requires
        0 <= i <= programs.len(),
    ensures
        all_imports(programs, i, set).contains(module) <==> set.contains(module) || exists|k: int|
            i <= k < programs.len() && program_imports((#[trigger] programs[k])@, module),
    decreases programs.len() - i,
{
    if i < programs.len() {
        lemma_stmts(programs[i]@, 0, module, set);
        lemma_programs(programs, i + 1, module, stmts_imports(programs[i]@, 0, set));
        if exists|k: int|
            i <= k < programs.len() && program_imports((#[trigger] programs[k])@, module) {
            let k = choose|k: int|
                i <= k < programs.len() && program_imports((#[trigger] programs[k])@, module);
            assert(k == i || program_imports(programs[k]@, module));
        }
    }
}

/// Programs depend on just the modules that an import in one of them names.
pub proof fn dependencies_are_imported(programs: Seq<&ProgramAst>, module: Seq<char>)
    ensures
        all_imports(programs, 0, Set::empty()).contains(module) <==> exists|k: int|
            0 <= k < programs.len() && program_imports((#[trigger] programs[k])@, module),
{
    lemma_programs(programs, 0, module, Set::empty());
}

/// A program needs to call natives just where it has one, and to write output just where it can
/// print.
pub proof fn natives_need_capabilities(functions: Seq<FunctionView>)
    ensures
        ({
            let needed = capabilities(native_names(functions));
            &&& needed.contains("native.call"@) <==> exists|i: int|
                0 <= i < functions.len() && (#[trigger] functions[i]).kind is Native
            &&& needed.contains("io.output"@) <==> exists|i: int|
                0 <= i < functions.len() && (#[trigger] functions[i]).kind
                    == FunctionKindView::Native("print"@)
            &&& needed.len() <= 2
        }),
{
    reveal_strlit("native.call");
    reveal_strlit("io.output");
    let names = native_names(functions);
    let needed = capabilities(names);
    assert("native.call"@.len() == 11 && "io.output"@.len() == 9);
    if exists|i: int| 0 <= i < functions.len() && (#[trigger] functions[i]).kind is Native {
        let i = choose|i: int| 0 <= i < functions.len() && (#[trigger] functions[i]).kind is Native;
        assert(names.contains(functions[i].kind->Native_0));
    } else {
        assert(names =~= Set::empty());
    }
    if names.contains("print"@) {
        assert(needed[0] == "io.output"@);
        assert(needed[1] == "native.call"@);
    } else if !(names =~= Set::empty()) {
        assert(needed[0] == "native.call"@);
        assert(exists|name: Seq<char>| names.contains(name)) by {
            if forall|name: Seq<char>| !names.contains(name) {
                assert(names =~= Set::empty());
            }
        }
        let name = choose|name: Seq<char>| names.contains(name);
        let i = choose|i: int|
            0 <= i < functions.len() && (#[trigger] functions[i]).kind == FunctionKindView::Native(
                name,
            );
        assert(functions[i].kind is Native);
    }
}

/// The number of instructions of a function.
pub open spec fn size(function: FunctionView) -> nat {
    match function.kind {
        FunctionKindView::Bytecode(chunk) => chunk.instructions.len(),
        FunctionKindView::Native(_) => 0,
    }
}

/// Functions with code and instructions are counted over all functions: a table in two parts has
/// as many as its parts together.
pub proof fn counts_add_up(front: Seq<FunctionView>, function: FunctionView, i: int)
    requires
        0 <= i <= front.len(),
    ensures
        bytecode_count(front.push(function), i) == bytecode_count(front, i) + if function.kind
            is Bytecode {
            1nat
        } else {
            0nat
        },
        instruction_count(front.push(function), i) == instruction_count(front, i) + size(function),
        bytecode_count(Seq::empty(), 0) == 0,
        instruction_count(Seq::empty(), 0) == 0,
    decreases front.len() - i,
{
    let all = front.push(function);
    if i < front.len() {
        counts_add_up(front, function, i + 1);
        assert(all[i] == front[i]);
    } else {
        assert(all[i] == function);
        assert(bytecode_count(all, i + 1) == 0);
        assert(instruction_count(all, i + 1) == 0);
    }
}

/// Passes and transformations are counted over all reports.
pub proof fn reports_add_up(front: Seq<OptimizationReport>, report: OptimizationReport, i: int)
    requires
        0 <= i <= front.len(),
    ensures
        pass_count(front.push(report), i) == pass_count(front, i) + report.passes@.len(),
        transformation_count(front.push(report), i) == transformation_count(front, i)
            + transformation_sum(report.passes@),
        pass_count(Seq::empty(), 0) == 0,
        transformation_count(Seq::empty(), 0) == 0,
    decreases front.len() - i,
{
    let all = front.push(report);
    if i < front.len() {
        reports_add_up(front, report, i + 1);
        assert(all[i] == front[i]);
    } else {
        assert(all[i] == report);
        assert(pass_count(all, i + 1) == 0);
        assert(transformation_count(all, i + 1) == 0);
    }
}

} // verus!
