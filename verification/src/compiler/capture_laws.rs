//! Which variables a function literal takes from outside, and which variables live in cells.

use vstd::prelude::*;

use crate::bytecode::instruction::FunctionId;
use crate::compiler::ast::{ExprView, StmtView};
use crate::compiler::captures::{
    captured_in_entries, captured_in_expr, captured_in_exprs, captured_in_stmt, captured_in_stmts,
    free_in_entries, free_in_expr, free_in_exprs, free_in_stmt, free_in_stmts, free_names, noted,
    with_names,
};

verus! {

/// Whether an expression uses a variable of a name that is not bound inside the expression.
pub open spec fn uses(expr: ExprView, name: Seq<char>) -> bool
    decreases expr, 0int,
{
    match expr {
        ExprView::Literal { .. } => false,
        ExprView::Variable { name: n, .. } => n == name,
        ExprView::Binary { lhs, rhs, .. } => uses(*lhs, name) || uses(*rhs, name),
        ExprView::Call { callee, args, .. } => callee == name || exists|i: int|
            0 <= i < args.len() && uses(#[trigger] args[i], name),
        ExprView::Function { params, body, .. } => !params.contains(name) && body_uses(
            body,
            0,
            name,
        ),
        ExprView::Index { target, index, .. } => uses(*target, name) || uses(*index, name),
        ExprView::Array { elements, .. } => exists|i: int|
            0 <= i < elements.len() && uses(#[trigger] elements[i], name),
        ExprView::MapLiteral { entries, .. } => exists|i: int|
            0 <= i < entries.len() && (uses((#[trigger] entries[i]).0, name) || uses(
                entries[i].1,
                name,
            )),
        ExprView::Grouping { expr, .. } => uses(*expr, name),
    }
}

/// Whether a statement uses a variable of a name that is not bound inside the statement. A function
/// literal that is bound to a name is not outside that name.
pub open spec fn stmt_uses(stmt: StmtView, name: Seq<char>) -> bool
    decreases stmt, 0int,
{
    match stmt {
        StmtView::Import { .. } | StmtView::Function { .. } => false,
        StmtView::Let { name: n, initializer, .. } => uses(initializer, name) && !(
        initializer is Function && n == name),
        StmtView::Assign { name: n, value, .. } => n == name || uses(value, name),
        StmtView::IndexAssign { target, index, value, .. } => uses(target, name) || uses(
            index,
            name,
        ) || uses(value, name),
        StmtView::Return { value, .. } => uses(value, name),
        StmtView::Expr { value, .. } => uses(value, name),
        StmtView::If { condition, then_branch, else_branch, .. } => uses(condition, name)
            || body_uses(then_branch, 0, name) || body_uses(else_branch, 0, name),
        StmtView::While { condition, body, .. } => uses(condition, name) || body_uses(
            body,
            0,
            name,
        ),
        StmtView::Block { statements, .. } => body_uses(statements, 0, name),
    }
}

/// Whether statements from `i` on use a variable of a name that none of them has bound before.
pub open spec fn body_uses(stmts: Seq<StmtView>, i: int, name: Seq<char>) -> bool
    decreases stmts, stmts.len() - i,
{
    0 <= i < stmts.len() && (stmt_uses(stmts[i], name) || (!(stmts[i] matches StmtView::Let {
        name: n,
        ..
    } && n == name) && body_uses(stmts, i + 1, name)))
}

/// Whether a list of names is another one with one more name or none: the name where it is used
/// and neither bound nor a function.
spec fn adds(
    before: Seq<Seq<char>>,
    after: Seq<Seq<char>>,
    name: Seq<char>,
    used: bool,
    bound: Set<Seq<char>>,
    functions: Map<Seq<char>, FunctionId>,
) -> bool {
    after.contains(name) <==> before.contains(name) || (used && !bound.contains(name)
        && !functions.contains_key(name))
}

proof fn lemma_noted(
    n: Seq<char>,
    name: Seq<char>,
    bound: Set<Seq<char>>,
    functions: Map<Seq<char>, FunctionId>,
    free: Seq<Seq<char>>,
)
    ensures
        adds(free, noted(n, bound, functions, free), name, n == name, bound, functions),
{
    let after = free.push(n);
    assert(after.contains(name) <==> free.contains(name) || n == name) by {
        if free.contains(name) {
            let k = choose|k: int| 0 <= k < free.len() && free[k] == name;
            assert(after[k] == name);
        }
        assert(after[free.len() as int] == n);
        if after.contains(name) && n != name {
            let k = choose|k: int| 0 <= k < after.len() && after[k] == name;
            assert(free[k] == name);
        }
    }
}

proof fn lemma_with_names(names: Seq<Seq<char>>, i: int, set: Set<Seq<char>>, name: Seq<char>)
    requires
        0 <= i <= names.len(),
    ensures
        with_names(names, i, set).contains(name) <==> set.contains(name) || exists|k: int|
            i <= k < names.len() && #[trigger] names[k] == name,
    decreases names.len() - i,
{
    if i < names.len() {
        lemma_with_names(names, i + 1, set.insert(names[i]), name);
        if exists|k: int| i <= k < names.len() && #[trigger] names[k] == name {
            let k = choose|k: int| i <= k < names.len() && #[trigger] names[k] == name;
            if k > i {
                assert(names[k] == name);
            }
        }
    }
}

proof fn lemma_expr(
    expr: ExprView,
    name: Seq<char>,
    bound: Set<Seq<char>>,
    functions: Map<Seq<char>, FunctionId>,
    free: Seq<Seq<char>>,
)
    ensures
        adds(
            free,
            free_in_expr(expr, bound, functions, free),
            name,
            uses(expr, name),
            bound,
            functions,
        ),
    decreases expr, 0int,
{
    match expr {
        ExprView::Literal { .. } => {},
        ExprView::Variable { name: n, .. } => {
            lemma_noted(n, name, bound, functions, free);
        },
        ExprView::Binary { lhs, rhs, .. } => {
            lemma_expr(*lhs, name, bound, functions, free);
            lemma_expr(*rhs, name, bound, functions, free_in_expr(*lhs, bound, functions, free));
        },
        ExprView::Call { callee, args, .. } => {
            lemma_noted(callee, name, bound, functions, free);
            lemma_exprs(args, 0, name, bound, functions, noted(callee, bound, functions, free));
        },
        ExprView::Function { params, body, .. } => {
            lemma_with_names(params, 0, bound, name);
            lemma_stmts(body, 0, name, with_names(params, 0, bound), functions, free);
            if params.contains(name) {
                let k = choose|k: int| 0 <= k < params.len() && params[k] == name;
                assert(params[k] == name);
            }
        },
        ExprView::Index { target, index, .. } => {
            lemma_expr(*target, name, bound, functions, free);
            lemma_expr(*index, name, bound, functions, free_in_expr(*target, bound, functions, free));
        },
        ExprView::Array { elements, .. } => {
            lemma_exprs(elements, 0, name, bound, functions, free);
        },
        ExprView::MapLiteral { entries, .. } => {
            lemma_entries(entries, 0, name, bound, functions, free);
        },
        ExprView::Grouping { expr, .. } => {
            lemma_expr(*expr, name, bound, functions, free);
        },
    }
}

proof fn lemma_exprs(
    exprs: Seq<ExprView>,
    i: int,
    name: Seq<char>,
    bound: Set<Seq<char>>,
    functions: Map<Seq<char>, FunctionId>,
    free: Seq<Seq<char>>,
)
    requires
        0 <= i <= exprs.len(),
    ensures
        adds(
            free,
            free_in_exprs(exprs, i, bound, functions, free),
            name,
            exists|k: int| i <= k < exprs.len() && uses(#[trigger] exprs[k], name),
            bound,
            functions,
        ),
    decreases exprs, exprs.len() - i,
{
    if i < exprs.len() {
        let more = free_in_expr(exprs[i], bound, functions, free);
        lemma_expr(exprs[i], name, bound, functions, free);
        lemma_exprs(exprs, i + 1, name, bound, functions, more);
        if exists|k: int| i <= k < exprs.len() && uses(#[trigger] exprs[k], name) {
            let k = choose|k: int| i <= k < exprs.len() && uses(#[trigger] exprs[k], name);
            assert(k == i || uses(exprs[k], name));
        }
    }
}

proof fn lemma_entries(
    entries: Seq<(ExprView, ExprView)>,
    i: int,
    name: Seq<char>,
    bound: Set<Seq<char>>,
    functions: Map<Seq<char>, FunctionId>,
    free: Seq<Seq<char>>,
)
    requires
        0 <= i <= entries.len(),
    ensures
        adds(
            free,
            free_in_entries(entries, i, bound, functions, free),
            name,
            exists|k: int|
                i <= k < entries.len() && (uses((#[trigger] entries[k]).0, name) || uses(
                    entries[k].1,
                    name,
                )),
            bound,
            functions,
        ),
    decreases entries, entries.len() - i,
{
    if i < entries.len() {
        let keys = free_in_expr(entries[i].0, bound, functions, free);
        let more = free_in_expr(entries[i].1, bound, functions, keys);
        lemma_expr(entries[i].0, name, bound, functions, free);
        lemma_expr(entries[i].1, name, bound, functions, keys);
        lemma_entries(entries, i + 1, name, bound, functions, more);
        if exists|k: int|
            i <= k < entries.len() && (uses((#[trigger] entries[k]).0, name) || uses(
                entries[k].1,
                name,
            )) {
            let k = choose|k: int|
                i <= k < entries.len() && (uses((#[trigger] entries[k]).0, name) || uses(
                    entries[k].1,
                    name,
                ));
            assert(k == i || uses(entries[k].0, name) || uses(entries[k].1, name));
        }
    }
}

proof fn lemma_stmt(
    stmt: StmtView,
    name: Seq<char>,
    bound: Set<Seq<char>>,
    functions: Map<Seq<char>, FunctionId>,
    free: Seq<Seq<char>>,
)
    ensures
        adds(
            free,
            free_in_stmt(stmt, bound, functions, free).1,
            name,
            stmt_uses(stmt, name),
            bound,
            functions,
        ),
        free_in_stmt(stmt, bound, functions, free).0 == (match stmt {
            StmtView::Let { name: n, .. } => bound.insert(n),
            _ => bound,
        }),
    decreases stmt, 0int,
{
    match stmt {
        StmtView::Import { .. } | StmtView::Function { .. } => {},
        StmtView::Let { name: n, initializer, .. } => {
            if initializer is Function {
                lemma_expr(initializer, name, bound.insert(n), functions, free);
            } else {
                lemma_expr(initializer, name, bound, functions, free);
            }
        },
        StmtView::Assign { name: n, value, .. } => {
            lemma_noted(n, name, bound, functions, free);
            lemma_expr(value, name, bound, functions, noted(n, bound, functions, free));
        },
        StmtView::IndexAssign { target, index, value, .. } => {
            let first = free_in_expr(target, bound, functions, free);
            let second = free_in_expr(index, bound, functions, first);
            lemma_expr(target, name, bound, functions, free);
            lemma_expr(index, name, bound, functions, first);
            lemma_expr(value, name, bound, functions, second);
        },
        StmtView::Return { value, .. } => {
            lemma_expr(value, name, bound, functions, free);
        },
        StmtView::Expr { value, .. } => {
            lemma_expr(value, name, bound, functions, free);
        },
        StmtView::If { condition, then_branch, else_branch, .. } => {
            let first = free_in_expr(condition, bound, functions, free);
            let second = free_in_stmts(then_branch, 0, bound, functions, first).1;
            lemma_expr(condition, name, bound, functions, free);
            lemma_stmts(then_branch, 0, name, bound, functions, first);
            lemma_stmts(else_branch, 0, name, bound, functions, second);
        },
        StmtView::While { condition, body, .. } => {
            let first = free_in_expr(condition, bound, functions, free);
            lemma_expr(condition, name, bound, functions, free);
            lemma_stmts(body, 0, name, bound, functions, first);
        },
        StmtView::Block { statements, .. } => {
            lemma_stmts(statements, 0, name, bound, functions, free);
        },
    }
}

proof fn lemma_stmts(
    stmts: Seq<StmtView>,
    i: int,
    name: Seq<char>,
    bound: Set<Seq<char>>,
    functions: Map<Seq<char>, FunctionId>,
    free: Seq<Seq<char>>,
)
    requires
        0 <= i <= stmts.len(),
    ensures
        adds(
            free,
            free_in_stmts(stmts, i, bound, functions, free).1,
            name,
            body_uses(stmts, i, name),
            bound,
            functions,
        ),
    decreases stmts, stmts.len() - i,
{
    if i < stmts.len() {
        let (next, more) = free_in_stmt(stmts[i], bound, functions, free);
        lemma_stmt(stmts[i], name, bound, functions, free);
        lemma_stmts(stmts, i + 1, name, next, functions, more);
    }
}

/// A function literal takes from outside just the variables that its body uses before it binds
/// them, without its parameters and the names of functions.
pub proof fn functions_take_what_they_use(
    params: Seq<Seq<char>>,
    body: Seq<StmtView>,
    functions: Map<Seq<char>, FunctionId>,
    name: Seq<char>,
)
    ensures
        free_names(params, body, functions).contains(name) <==> body_uses(body, 0, name)
            && !params.contains(name) && !functions.contains_key(name),
{
    let bound = with_names(params, 0, Set::empty());
    lemma_with_names(params, 0, Set::empty(), name);
    lemma_stmts(body, 0, name, bound, functions, Seq::empty());
    if params.contains(name) {
        let k = choose|k: int| 0 <= k < params.len() && params[k] == name;
        assert(params[k] == name);
    }
}

// ---------------------------------------------------------------------------
// Cells
// ---------------------------------------------------------------------------

/// Whether a function literal in an expression takes a variable of a name from outside.
pub open spec fn taken(expr: ExprView, name: Seq<char>) -> bool
    decreases expr, 0int,
{
    match expr {
        ExprView::Literal { .. } | ExprView::Variable { .. } => false,
        ExprView::Binary { lhs, rhs, .. } => taken(*lhs, name) || taken(*rhs, name),
        ExprView::Call { args, .. } => exists|i: int|
            0 <= i < args.len() && taken(#[trigger] args[i], name),
        ExprView::Function { .. } => uses(expr, name),
        ExprView::Index { target, index, .. } => taken(*target, name) || taken(*index, name),
        ExprView::Array { elements, .. } => exists|i: int|
            0 <= i < elements.len() && taken(#[trigger] elements[i], name),
        ExprView::MapLiteral { entries, .. } => exists|i: int|
            0 <= i < entries.len() && (taken((#[trigger] entries[i]).0, name) || taken(
                entries[i].1,
                name,
            )),
        ExprView::Grouping { expr, .. } => taken(*expr, name),
    }
}

/// Whether a function literal in a statement takes a variable of a name from outside.
pub open spec fn stmt_takes(stmt: StmtView, name: Seq<char>) -> bool
    decreases stmt, 0int,
{
    match stmt {
        StmtView::Import { .. } | StmtView::Function { .. } => false,
        StmtView::Let { initializer, .. } => taken(initializer, name),
        StmtView::Assign { value, .. } => taken(value, name),
        StmtView::IndexAssign { target, index, value, .. } => taken(target, name) || taken(
            index,
            name,
        ) || taken(value, name),
        StmtView::Return { value, .. } => taken(value, name),
        StmtView::Expr { value, .. } => taken(value, name),
        StmtView::If { condition, then_branch, else_branch, .. } => {
            ||| taken(condition, name)
            ||| exists|i: int|
                0 <= i < then_branch.len() && stmt_takes(#[trigger] then_branch[i], name)
            ||| exists|i: int|
                0 <= i < else_branch.len() && stmt_takes(#[trigger] else_branch[i], name)
        },
        StmtView::While { condition, body, .. } => taken(condition, name) || exists|i: int|
            0 <= i < body.len() && stmt_takes(#[trigger] body[i], name),
        StmtView::Block { statements, .. } => exists|i: int|
            0 <= i < statements.len() && stmt_takes(#[trigger] statements[i], name),
    }
}

proof fn lemma_taken(
    expr: ExprView,
    name: Seq<char>,
    functions: Map<Seq<char>, FunctionId>,
    names: Set<Seq<char>>,
)
    requires
        !functions.contains_key(name),
    ensures
        captured_in_expr(expr, functions, names).contains(name) <==> names.contains(name) || taken(
            expr,
            name,
        ),
    decreases expr, 0int,
{
    match expr {
        ExprView::Literal { .. } | ExprView::Variable { .. } => {},
        ExprView::Binary { lhs, rhs, .. } => {
            lemma_taken(*lhs, name, functions, names);
            lemma_taken(*rhs, name, functions, captured_in_expr(*lhs, functions, names));
        },
        ExprView::Call { args, .. } => {
            lemma_taken_list(args, 0, name, functions, names);
        },
        ExprView::Function { params, body, .. } => {
            let free = free_names(params, body, functions);
            functions_take_what_they_use(params, body, functions, name);
            lemma_with_names(free, 0, names, name);
            if free.contains(name) {
                let k = choose|k: int| 0 <= k < free.len() && free[k] == name;
                assert(free[k] == name);
            }
        },
        ExprView::Index { target, index, .. } => {
            lemma_taken(*target, name, functions, names);
            lemma_taken(*index, name, functions, captured_in_expr(*target, functions, names));
        },
        ExprView::Array { elements, .. } => {
            lemma_taken_list(elements, 0, name, functions, names);
        },
        ExprView::MapLiteral { entries, .. } => {
            lemma_taken_entries(entries, 0, name, functions, names);
        },
        ExprView::Grouping { expr, .. } => {
            lemma_taken(*expr, name, functions, names);
        },
    }
}

proof fn lemma_taken_list(
    exprs: Seq<ExprView>,
    i: int,
    name: Seq<char>,
    functions: Map<Seq<char>, FunctionId>,
    names: Set<Seq<char>>,
)
    requires
        0 <= i <= exprs.len(),
        !functions.contains_key(name),
    ensures
        captured_in_exprs(exprs, i, functions, names).contains(name) <==> names.contains(name)
            || exists|k: int| i <= k < exprs.len() && taken(#[trigger] exprs[k], name),
    decreases exprs, exprs.len() - i,
{
    if i < exprs.len() {
        let more = captured_in_expr(exprs[i], functions, names);
        lemma_taken(exprs[i], name, functions, names);
        lemma_taken_list(exprs, i + 1, name, functions, more);
        if exists|k: int| i <= k < exprs.len() && taken(#[trigger] exprs[k], name) {
            let k = choose|k: int| i <= k < exprs.len() && taken(#[trigger] exprs[k], name);
            assert(k == i || taken(exprs[k], name));
        }
    }
}

proof fn lemma_taken_entries(
    entries: Seq<(ExprView, ExprView)>,
    i: int,
    name: Seq<char>,
    functions: Map<Seq<char>, FunctionId>,
    names: Set<Seq<char>>,
)
    requires
        0 <= i <= entries.len(),
        !functions.contains_key(name),
    ensures
        captured_in_entries(entries, i, functions, names).contains(name) <==> names.contains(name)
            || exists|k: int|
            i <= k < entries.len() && (taken((#[trigger] entries[k]).0, name) || taken(
                entries[k].1,
                name,
            )),
    decreases entries, entries.len() - i,
{
    if i < entries.len() {
        let keys = captured_in_expr(entries[i].0, functions, names);
        let more = captured_in_expr(entries[i].1, functions, keys);
        lemma_taken(entries[i].0, name, functions, names);
        lemma_taken(entries[i].1, name, functions, keys);
        lemma_taken_entries(entries, i + 1, name, functions, more);
        if exists|k: int|
            i <= k < entries.len() && (taken((#[trigger] entries[k]).0, name) || taken(
                entries[k].1,
                name,
            )) {
            let k = choose|k: int|
                i <= k < entries.len() && (taken((#[trigger] entries[k]).0, name) || taken(
                    entries[k].1,
                    name,
                ));
            assert(k == i || taken(entries[k].0, name) || taken(entries[k].1, name));
        }
    }
}

proof fn lemma_takes(
    stmt: StmtView,
    name: Seq<char>,
    functions: Map<Seq<char>, FunctionId>,
    names: Set<Seq<char>>,
)
    requires
        !functions.contains_key(name),
    ensures
        captured_in_stmt(stmt, functions, names).contains(name) <==> names.contains(name)
            || stmt_takes(stmt, name),
    decreases stmt, 0int,
{
    match stmt {
        StmtView::Import { .. } | StmtView::Function { .. } => {},
        StmtView::Let { initializer, .. } => {
            lemma_taken(initializer, name, functions, names);
        },
        StmtView::Assign { value, .. } => {
            lemma_taken(value, name, functions, names);
        },
        StmtView::IndexAssign { target, index, value, .. } => {
            let first = captured_in_expr(target, functions, names);
            let second = captured_in_expr(index, functions, first);
            lemma_taken(target, name, functions, names);
            lemma_taken(index, name, functions, first);
            lemma_taken(value, name, functions, second);
        },
        StmtView::Return { value, .. } => {
            lemma_taken(value, name, functions, names);
        },
        StmtView::Expr { value, .. } => {
            lemma_taken(value, name, functions, names);
        },
        StmtView::If { condition, then_branch, else_branch, .. } => {
            let first = captured_in_expr(condition, functions, names);
            let second = captured_in_stmts(then_branch, 0, functions, first);
            lemma_taken(condition, name, functions, names);
            lemma_takes_all(then_branch, 0, name, functions, first);
            lemma_takes_all(else_branch, 0, name, functions, second);
        },
        StmtView::While { condition, body, .. } => {
            let first = captured_in_expr(condition, functions, names);
            lemma_taken(condition, name, functions, names);
            lemma_takes_all(body, 0, name, functions, first);
        },
        StmtView::Block { statements, .. } => {
            lemma_takes_all(statements, 0, name, functions, names);
        },
    }
}

proof fn lemma_takes_all(
    stmts: Seq<StmtView>,
    i: int,
    name: Seq<char>,
    functions: Map<Seq<char>, FunctionId>,
    names: Set<Seq<char>>,
)
    requires
        0 <= i <= stmts.len(),
        !functions.contains_key(name),
    ensures
        captured_in_stmts(stmts, i, functions, names).contains(name) <==> names.contains(name)
            || exists|k: int| i <= k < stmts.len() && stmt_takes(#[trigger] stmts[k], name),
    decreases stmts, stmts.len() - i,
{
    if i < stmts.len() {
        let more = captured_in_stmt(stmts[i], functions, names);
        lemma_takes(stmts[i], name, functions, names);
        lemma_takes_all(stmts, i + 1, name, functions, more);
        if exists|k: int| i <= k < stmts.len() && stmt_takes(#[trigger] stmts[k], name) {
            let k = choose|k: int| i <= k < stmts.len() && stmt_takes(#[trigger] stmts[k], name);
            assert(k == i || stmt_takes(stmts[k], name));
        }
    }
}

/// A variable of a function lives in a cell just where a function literal in the function's body
/// takes a variable of that name from outside.
pub proof fn taken_variables_live_in_cells(
    body: Seq<StmtView>,
    functions: Map<Seq<char>, FunctionId>,
    name: Seq<char>,
)
    requires
        !functions.contains_key(name),
    ensures
        captured_in_stmts(body, 0, functions, Set::empty()).contains(name) <==> exists|i: int|
            0 <= i < body.len() && stmt_takes(#[trigger] body[i], name),
{
    lemma_takes_all(body, 0, name, functions, Set::empty());
}

} // verus!
