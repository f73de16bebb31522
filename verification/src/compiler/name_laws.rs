//! What semantic analysis guarantees about names: every name that an accepted program uses stands
//! for a visible variable or for a function with as many parameters as there are arguments.

use vstd::prelude::*;

use crate::compiler::ast::{ExprView, StmtView};
use crate::compiler::captures::{
    always_return, captured_in_entries, captured_in_expr, captured_in_exprs, captured_in_stmt,
    captured_in_stmts, entries_call, expr_calls, exprs_call, free_in_entries, free_in_expr,
    free_in_exprs, free_in_stmt, free_in_stmts, free_names, noted, stmt_calls, stmts_call, with_names,
};
use crate::compiler::emitter::FunctionIds;
use crate::compiler::sema::{
    after_stmt, after_stmts, declared, entries_error, expr_error, exprs_error, opened, scoped_error,
    visible, with_params, with_params_from, Env, Scopes,
};
use crate::diagnostics::span::SourceSpan;

verus! {

/// The numbers of parameters of functions by name.
pub type Arities = Map<Seq<char>, nat>;

// ---------------------------------------------------------------------------
// Programs whose names resolve
// ---------------------------------------------------------------------------

/// Every name in an expression is one of some variables, or a function with as many parameters as
/// there are arguments. No variable has the name of a function. Where `strict` asks for it, the
/// bodies of function literals return on every path.
pub open spec fn resolved_expr(
    expr: ExprView,
    names: Set<Seq<char>>,
    arities: Arities,
    strict: bool,
) -> bool
    decreases expr, 0int,
{
    match expr {
        ExprView::Literal { .. } => true,
        ExprView::Variable { name, .. } => names.contains(name),
        ExprView::Binary { lhs, rhs, .. } => resolved_expr(*lhs, names, arities, strict)
            && resolved_expr(*rhs, names, arities, strict),
        ExprView::Array { elements, .. } => resolved_exprs(elements, 0, names, arities, strict),
        ExprView::MapLiteral { entries, .. } => resolved_entries(
            entries,
            0,
            names,
            arities,
            strict,
        ),
        ExprView::Index { target, index, .. } => resolved_expr(*target, names, arities, strict)
            && resolved_expr(*index, names, arities, strict),
        ExprView::Call { callee, args, .. } => {
            &&& if arities.contains_key(callee) {
                arities[callee] == args.len()
            } else {
                names.contains(callee)
            }
            &&& resolved_exprs(args, 0, names, arities, strict)
        },
        ExprView::Function { params, body, .. } => {
            &&& no_functions(params, arities)
            &&& strict ==> always_return(body)
            &&& resolved_stmts(body, 0, with_names(params, 0, names), arities, strict)
        },
        ExprView::Grouping { expr, .. } => resolved_expr(*expr, names, arities, strict),
    }
}

/// No name of a list is the name of a function.
pub open spec fn no_functions(names: Seq<Seq<char>>, arities: Arities) -> bool {
    forall|i: int| 0 <= i < names.len() ==> !arities.contains_key(#[trigger] names[i])
}

pub open spec fn resolved_exprs(
    exprs: Seq<ExprView>,
    i: int,
    names: Set<Seq<char>>,
    arities: Arities,
    strict: bool,
) -> bool
    decreases exprs, exprs.len() - i,
{
    0 <= i < exprs.len() ==> {
        &&& resolved_expr(exprs[i], names, arities, strict)
        &&& resolved_exprs(exprs, i + 1, names, arities, strict)
    }
}

pub open spec fn resolved_entries(
    entries: Seq<(ExprView, ExprView)>,
    i: int,
    names: Set<Seq<char>>,
    arities: Arities,
    strict: bool,
) -> bool
    decreases entries, entries.len() - i,
{
    0 <= i < entries.len() ==> {
        &&& resolved_expr(entries[i].0, names, arities, strict)
        &&& resolved_expr(entries[i].1, names, arities, strict)
        &&& resolved_entries(entries, i + 1, names, arities, strict)
    }
}

/// The variables behind a statement.
pub open spec fn names_behind(stmt: StmtView, names: Set<Seq<char>>) -> Set<Seq<char>> {
    match stmt {
        StmtView::Let { name, .. } => names.insert(name),
        _ => names,
    }
}

/// Every name in a statement resolves.
pub open spec fn resolved_stmt(
    stmt: StmtView,
    names: Set<Seq<char>>,
    arities: Arities,
    strict: bool,
) -> bool
    decreases stmt, 0int,
{
    match stmt {
        StmtView::Import { .. } => true,
        StmtView::Function { .. } => true,
        StmtView::Let { name, initializer, .. } => {
            &&& !arities.contains_key(name)
            &&& if initializer is Function {
                resolved_expr(initializer, names.insert(name), arities, strict)
            } else {
                resolved_expr(initializer, names, arities, strict)
            }
        },
        StmtView::Assign { name, value, .. } => names.contains(name) && resolved_expr(
            value,
            names,
            arities,
            strict,
        ),
        StmtView::IndexAssign { target, index, value, .. } => {
            &&& resolved_expr(target, names, arities, strict)
            &&& resolved_expr(index, names, arities, strict)
            &&& resolved_expr(value, names, arities, strict)
        },
        StmtView::Return { value, .. } => resolved_expr(value, names, arities, strict),
        StmtView::Expr { value, .. } => resolved_expr(value, names, arities, strict),
        StmtView::If { condition, then_branch, else_branch, .. } => {
            &&& resolved_expr(condition, names, arities, strict)
            &&& resolved_stmts(then_branch, 0, names, arities, strict)
            &&& resolved_stmts(else_branch, 0, names, arities, strict)
        },
        StmtView::While { condition, body, .. } => {
            &&& resolved_expr(condition, names, arities, strict)
            &&& resolved_stmts(body, 0, names, arities, strict)
        },
        StmtView::Block { statements, .. } => resolved_stmts(
            statements,
            0,
            names,
            arities,
            strict,
        ),
    }
}

/// Every name in the statements from `i` on resolves.
pub open spec fn resolved_stmts(
    stmts: Seq<StmtView>,
    i: int,
    names: Set<Seq<char>>,
    arities: Arities,
    strict: bool,
) -> bool
    decreases stmts, stmts.len() - i,
{
    0 <= i < stmts.len() ==> {
        &&& resolved_stmt(stmts[i], names, arities, strict)
        &&& resolved_stmts(stmts, i + 1, names_behind(stmts[i], names), arities, strict)
    }
}

// ---------------------------------------------------------------------------
// Programs without confusing names
// ---------------------------------------------------------------------------

/// No variable in an expression has the name of a function. Where `strict` asks for it, the
/// bodies of function literals return on every path.
pub open spec fn tidy_expr(expr: ExprView, arities: Arities, strict: bool) -> bool
    decreases expr, 0int,
{
    match expr {
        ExprView::Literal { .. } => true,
        ExprView::Variable { .. } => true,
        ExprView::Binary { lhs, rhs, .. } => tidy_expr(*lhs, arities, strict) && tidy_expr(
            *rhs,
            arities,
            strict,
        ),
        ExprView::Array { elements, .. } => tidy_exprs(elements, 0, arities, strict),
        ExprView::MapLiteral { entries, .. } => tidy_entries(entries, 0, arities, strict),
        ExprView::Index { target, index, .. } => tidy_expr(*target, arities, strict) && tidy_expr(
            *index,
            arities,
            strict,
        ),
        ExprView::Call { args, .. } => tidy_exprs(args, 0, arities, strict),
        ExprView::Function { params, body, .. } => {
            &&& no_functions(params, arities)
            &&& strict ==> always_return(body)
            &&& tidy_stmts(body, 0, arities, strict)
        },
        ExprView::Grouping { expr, .. } => tidy_expr(*expr, arities, strict),
    }
}

pub open spec fn tidy_exprs(exprs: Seq<ExprView>, i: int, arities: Arities, strict: bool) -> bool
    decreases exprs, exprs.len() - i,
{
    0 <= i < exprs.len() ==> tidy_expr(exprs[i], arities, strict) && tidy_exprs(
        exprs,
        i + 1,
        arities,
        strict,
    )
}

pub open spec fn tidy_entries(
    entries: Seq<(ExprView, ExprView)>,
    i: int,
    arities: Arities,
    strict: bool,
) -> bool
    decreases entries, entries.len() - i,
{
    0 <= i < entries.len() ==> {
        &&& tidy_expr(entries[i].0, arities, strict)
        &&& tidy_expr(entries[i].1, arities, strict)
        &&& tidy_entries(entries, i + 1, arities, strict)
    }
}

/// No variable in a statement has the name of a function.
pub open spec fn tidy_stmt(stmt: StmtView, arities: Arities, strict: bool) -> bool
    decreases stmt, 0int,
{
    match stmt {
        StmtView::Import { .. } => true,
        StmtView::Function { .. } => true,
        StmtView::Let { name, initializer, .. } => !arities.contains_key(name) && tidy_expr(
            initializer,
            arities,
            strict,
        ),
        StmtView::Assign { value, .. } => tidy_expr(value, arities, strict),
        StmtView::IndexAssign { target, index, value, .. } => {
            &&& tidy_expr(target, arities, strict)
            &&& tidy_expr(index, arities, strict)
            &&& tidy_expr(value, arities, strict)
        },
        StmtView::Return { value, .. } => tidy_expr(value, arities, strict),
        StmtView::Expr { value, .. } => tidy_expr(value, arities, strict),
        StmtView::If { condition, then_branch, else_branch, .. } => {
            &&& tidy_expr(condition, arities, strict)
            &&& tidy_stmts(then_branch, 0, arities, strict)
            &&& tidy_stmts(else_branch, 0, arities, strict)
        },
        StmtView::While { condition, body, .. } => tidy_expr(condition, arities, strict)
            && tidy_stmts(body, 0, arities, strict),
        StmtView::Block { statements, .. } => tidy_stmts(statements, 0, arities, strict),
    }
}

pub open spec fn tidy_stmts(stmts: Seq<StmtView>, i: int, arities: Arities, strict: bool) -> bool
    decreases stmts, stmts.len() - i,
{
    0 <= i < stmts.len() ==> tidy_stmt(stmts[i], arities, strict) && tidy_stmts(
        stmts,
        i + 1,
        arities,
        strict,
    )
}

// ---------------------------------------------------------------------------
// Accepted programs resolve
// ---------------------------------------------------------------------------

/// Some names hold all that the scopes declare, and none of a function.
pub open spec fn covers(names: Set<Seq<char>>, scopes: Scopes, arities: Arities) -> bool {
    &&& scopes.len() > 0
    &&& forall|name: Seq<char>| visible(scopes, name) ==> #[trigger] names.contains(name)
    &&& forall|name: Seq<char>| #[trigger] names.contains(name) ==> !arities.contains_key(name)
}

/// The functions of the analysis that are called have their number of parameters.
pub open spec fn knows_function(env: Env, arities: Arities, name: Seq<char>) -> bool {
    env.functions.contains_key(name) ==> arities.contains_key(name) && arities[name]
        == env.functions[name]
}

proof fn lemma_covers_declared(
    names: Set<Seq<char>>,
    scopes: Scopes,
    arities: Arities,
    name: Seq<char>,
)
    requires
        covers(names, scopes, arities),
        !arities.contains_key(name),
    ensures
        covers(names.insert(name), declared(scopes, name), arities),
{
    let after = declared(scopes, name);
    assert forall|n: Seq<char>| visible(after, n) implies #[trigger] names.insert(name).contains(
        n,
    ) by {
        let i = choose|i: int| 0 <= i < after.len() && (#[trigger] after[i]).contains(n);
        if n != name {
            assert(scopes[i].contains(n));
            assert(visible(scopes, n));
        }
    }
}

proof fn lemma_covers_opened(names: Set<Seq<char>>, scopes: Scopes, arities: Arities)
    requires
        covers(names, scopes, arities),
    ensures
        covers(names, opened(scopes), arities),
{
    let after = opened(scopes);
    assert forall|n: Seq<char>| visible(after, n) implies #[trigger] names.contains(n) by {
        let i = choose|i: int| 0 <= i < after.len() && (#[trigger] after[i]).contains(n);
        assert(scopes[i].contains(n));
        assert(visible(scopes, n));
    }
}

pub(crate) proof fn lemma_covers_params(
    names: Set<Seq<char>>,
    scopes: Scopes,
    arities: Arities,
    params: Seq<Seq<char>>,
    i: int,
    span: SourceSpan,
)
    requires
        covers(names, scopes, arities),
        no_functions(params, arities),
        0 <= i <= params.len(),
    ensures
        with_params_from(params, i, span, scopes) matches Ok(after) ==> covers(
            with_names(params, i, names),
            after,
            arities,
        ),
    decreases params.len() - i,
{
    if i < params.len() {
        lemma_covers_declared(names, scopes, arities, params[i]);
        lemma_covers_params(
            names.insert(params[i]),
            declared(scopes, params[i]),
            arities,
            params,
            i + 1,
            span,
        );
    }
}

/// An expression that the analysis accepts resolves.
pub proof fn accepted_expressions_resolve(
    expr: ExprView,
    scopes: Scopes,
    env: Env,
    names: Set<Seq<char>>,
    arities: Arities,
    strict: bool,
)
    requires
        expr_error(expr, scopes, env) is None,
        tidy_expr(expr, arities, strict),
        covers(names, scopes, arities),
        forall|name: Seq<char>| expr_calls(expr, name) ==> #[trigger] knows_function(
            env,
            arities,
            name,
        ),
    ensures
        resolved_expr(expr, names, arities, strict),
    decreases expr, 0int,
{
    match expr {
        ExprView::Literal { .. } => {},
        ExprView::Variable { name, .. } => {
            assert(names.contains(name));
        },
        ExprView::Binary { lhs, rhs, .. } => {
            accepted_expressions_resolve(*lhs, scopes, env, names, arities, strict);
            accepted_expressions_resolve(*rhs, scopes, env, names, arities, strict);
        },
        ExprView::Array { elements, .. } => {
            lemma_accepted_list(elements, 0, scopes, env, names, arities, strict);
        },
        ExprView::MapLiteral { entries, .. } => {
            lemma_accepted_entries(entries, 0, scopes, env, names, arities, strict);
        },
        ExprView::Index { target, index, .. } => {
            accepted_expressions_resolve(*target, scopes, env, names, arities, strict);
            accepted_expressions_resolve(*index, scopes, env, names, arities, strict);
        },
        ExprView::Call { callee, args, .. } => {
            assert(expr_calls(expr, callee));
            assert(knows_function(env, arities, callee));
            assert(visible(scopes, callee) ==> names.contains(callee));
            assert(resolved_exprs(args, 0, names, arities, strict)) by {
                lemma_accepted_list(args, 0, scopes, env, names, arities, strict);
            }
        },
        ExprView::Function { params, body, span } => {
            lemma_covers_opened(names, scopes, arities);
            lemma_covers_params(names, opened(scopes), arities, params, 0, span);
            if let Ok(inner) = with_params(params, span, opened(scopes)) {
                let more = with_names(params, 0, names);
                assert(scoped_error(body, inner, env) is None);
                lemma_accepted_scope(body, inner, env, more, arities, strict);
            }
        },
        ExprView::Grouping { expr, .. } => {
            accepted_expressions_resolve(*expr, scopes, env, names, arities, strict);
        },
    }
}

proof fn lemma_accepted_list(
    exprs: Seq<ExprView>,
    i: int,
    scopes: Scopes,
    env: Env,
    names: Set<Seq<char>>,
    arities: Arities,
    strict: bool,
)
    requires
        0 <= i <= exprs.len(),
        exprs_error(exprs, i, scopes, env) is None,
        tidy_exprs(exprs, i, arities, strict),
        covers(names, scopes, arities),
        forall|name: Seq<char>| exprs_call(exprs, i, name) ==> #[trigger] knows_function(
            env,
            arities,
            name,
        ),
    ensures
        resolved_exprs(exprs, i, names, arities, strict),
    decreases exprs, exprs.len() - i,
{
    if i < exprs.len() {
        accepted_expressions_resolve(exprs[i], scopes, env, names, arities, strict);
        lemma_accepted_list(exprs, i + 1, scopes, env, names, arities, strict);
    }
}

proof fn lemma_accepted_entries(
    entries: Seq<(ExprView, ExprView)>,
    i: int,
    scopes: Scopes,
    env: Env,
    names: Set<Seq<char>>,
    arities: Arities,
    strict: bool,
)
    requires
        0 <= i <= entries.len(),
        entries_error(entries, i, scopes, env) is None,
        tidy_entries(entries, i, arities, strict),
        covers(names, scopes, arities),
        forall|name: Seq<char>| entries_call(entries, i, name) ==> #[trigger] knows_function(
            env,
            arities,
            name,
        ),
    ensures
        resolved_entries(entries, i, names, arities, strict),
    decreases entries, entries.len() - i,
{
    if i < entries.len() {
        accepted_expressions_resolve(entries[i].0, scopes, env, names, arities, strict);
        accepted_expressions_resolve(entries[i].1, scopes, env, names, arities, strict);
        lemma_accepted_entries(entries, i + 1, scopes, env, names, arities, strict);
    }
}

pub(crate) proof fn lemma_accepted_stmts(
    stmts: Seq<StmtView>,
    i: int,
    scopes: Scopes,
    env: Env,
    names: Set<Seq<char>>,
    arities: Arities,
    strict: bool,
)
    requires
        0 <= i <= stmts.len(),
        after_stmts(stmts, i, scopes, env) is Ok,
        tidy_stmts(stmts, i, arities, strict),
        covers(names, scopes, arities),
        forall|name: Seq<char>| stmts_call(stmts, i, name) ==> #[trigger] knows_function(
            env,
            arities,
            name,
        ),
    ensures
        resolved_stmts(stmts, i, names, arities, strict),
    decreases stmts, stmts.len() - i,
{
    if i < stmts.len() {
        lemma_accepted_stmt(stmts[i], scopes, env, names, arities, strict);
        if let Ok(next) = after_stmt(stmts[i], scopes, env) {
            lemma_accepted_stmts(
                stmts,
                i + 1,
                next,
                env,
                names_behind(stmts[i], names),
                arities,
                strict,
            );
        }
    }
}

pub(crate) proof fn lemma_accepted_scope(
    stmts: Seq<StmtView>,
    scopes: Scopes,
    env: Env,
    names: Set<Seq<char>>,
    arities: Arities,
    strict: bool,
)
    requires
        scoped_error(stmts, scopes, env) is None,
        tidy_stmts(stmts, 0, arities, strict),
        covers(names, scopes, arities),
        forall|name: Seq<char>| stmts_call(stmts, 0, name) ==> #[trigger] knows_function(
            env,
            arities,
            name,
        ),
    ensures
        resolved_stmts(stmts, 0, names, arities, strict),
    decreases stmts, stmts.len() + 1,
{
    lemma_covers_opened(names, scopes, arities);
    lemma_accepted_stmts(stmts, 0, opened(scopes), env, names, arities, strict);
}

proof fn lemma_accepted_stmt(
    stmt: StmtView,
    scopes: Scopes,
    env: Env,
    names: Set<Seq<char>>,
    arities: Arities,
    strict: bool,
)
    requires
        after_stmt(stmt, scopes, env) is Ok,
        tidy_stmt(stmt, arities, strict),
        covers(names, scopes, arities),
        forall|name: Seq<char>| stmt_calls(stmt, name) ==> #[trigger] knows_function(
            env,
            arities,
            name,
        ),
    ensures
        resolved_stmt(stmt, names, arities, strict),
        covers(names_behind(stmt, names), after_stmt(stmt, scopes, env)->Ok_0, arities),
    decreases stmt, 0int,
{
    match stmt {
        StmtView::Import { .. } => {},
        StmtView::Function { .. } => {},
        StmtView::Let { name, initializer, .. } => {
            lemma_covers_declared(names, scopes, arities, name);
            if initializer is Function {
                accepted_expressions_resolve(
                    initializer,
                    declared(scopes, name),
                    env,
                    names.insert(name),
                    arities,
                    strict,
                );
            } else {
                accepted_expressions_resolve(initializer, scopes, env, names, arities, strict);
            }
        },
        StmtView::Assign { value, .. } => {
            accepted_expressions_resolve(value, scopes, env, names, arities, strict);
        },
        StmtView::IndexAssign { target, index, value, .. } => {
            accepted_expressions_resolve(target, scopes, env, names, arities, strict);
            accepted_expressions_resolve(index, scopes, env, names, arities, strict);
            accepted_expressions_resolve(value, scopes, env, names, arities, strict);
        },
        StmtView::Return { value, .. } => {
            accepted_expressions_resolve(value, scopes, env, names, arities, strict);
        },
        StmtView::Expr { value, .. } => {
            accepted_expressions_resolve(value, scopes, env, names, arities, strict);
        },
        StmtView::If { condition, then_branch, else_branch, .. } => {
            accepted_expressions_resolve(condition, scopes, env, names, arities, strict);
            lemma_accepted_scope(then_branch, scopes, env, names, arities, strict);
            lemma_accepted_scope(else_branch, scopes, env, names, arities, strict);
        },
        StmtView::While { condition, body, .. } => {
            accepted_expressions_resolve(condition, scopes, env, names, arities, strict);
            lemma_accepted_scope(body, scopes, env, names, arities, strict);
        },
        StmtView::Block { statements, .. } => {
            lemma_accepted_scope(statements, scopes, env, names, arities, strict);
        },
    }
}

// ---------------------------------------------------------------------------
// Free variables
// ---------------------------------------------------------------------------

/// A list of names holds all names of another one.
pub open spec fn holds(big: Seq<Seq<char>>, small: Seq<Seq<char>>) -> bool {
    forall|name: Seq<char>| small.contains(name) ==> #[trigger] big.contains(name)
}

proof fn lemma_noted(name: Seq<char>, bound: Set<Seq<char>>, fs: FunctionIds, free: Seq<Seq<char>>)
    ensures
        holds(noted(name, bound, fs, free), free),
        !bound.contains(name) && !fs.contains_key(name) ==> noted(
            name,
            bound,
            fs,
            free,
        ).contains(name),
{
    let after = noted(name, bound, fs, free);
    assert forall|n: Seq<char>| free.contains(n) implies #[trigger] after.contains(n) by {
        let k = choose|k: int| 0 <= k < free.len() && free[k] == n;
        assert(after[k] == n);
    }
    if !bound.contains(name) && !fs.contains_key(name) && !free.contains(name) {
        assert(after[free.len() as int] == name);
    }
}

proof fn lemma_holds_both(a: Seq<Seq<char>>, b: Seq<Seq<char>>, c: Seq<Seq<char>>)
    requires
        holds(a, b),
        holds(b, c),
    ensures
        holds(a, c),
{
    assert forall|n: Seq<char>| c.contains(n) implies #[trigger] a.contains(n) by {
        assert(b.contains(n));
    }
}

/// The free variables so far stay in the list.
proof fn lemma_free_grows(
    expr: ExprView,
    bound: Set<Seq<char>>,
    fs: FunctionIds,
    free: Seq<Seq<char>>,
)
    ensures
        holds(free_in_expr(expr, bound, fs, free), free),
    decreases expr, 0int,
{
    match expr {
        ExprView::Literal { .. } => {},
        ExprView::Variable { name, .. } => lemma_noted(name, bound, fs, free),
        ExprView::Binary { lhs, rhs, .. } => {
            let middle = free_in_expr(*lhs, bound, fs, free);
            lemma_free_grows(*lhs, bound, fs, free);
            lemma_free_grows(*rhs, bound, fs, middle);
            lemma_holds_both(free_in_expr(*rhs, bound, fs, middle), middle, free);
        },
        ExprView::Call { callee, args, .. } => {
            let middle = noted(callee, bound, fs, free);
            lemma_noted(callee, bound, fs, free);
            lemma_free_list_grows(args, 0, bound, fs, middle);
            lemma_holds_both(free_in_exprs(args, 0, bound, fs, middle), middle, free);
        },
        ExprView::Function { params, body, .. } => {
            lemma_free_stmts_grow(body, 0, with_names(params, 0, bound), fs, free);
        },
        ExprView::Index { target, index, .. } => {
            let middle = free_in_expr(*target, bound, fs, free);
            lemma_free_grows(*target, bound, fs, free);
            lemma_free_grows(*index, bound, fs, middle);
            lemma_holds_both(free_in_expr(*index, bound, fs, middle), middle, free);
        },
        ExprView::Array { elements, .. } => {
            lemma_free_list_grows(elements, 0, bound, fs, free);
        },
        ExprView::MapLiteral { entries, .. } => {
            lemma_free_entries_grow(entries, 0, bound, fs, free);
        },
        ExprView::Grouping { expr, .. } => lemma_free_grows(*expr, bound, fs, free),
    }
}

proof fn lemma_free_list_grows(
    exprs: Seq<ExprView>,
    i: int,
    bound: Set<Seq<char>>,
    fs: FunctionIds,
    free: Seq<Seq<char>>,
)
    ensures
        holds(free_in_exprs(exprs, i, bound, fs, free), free),
    decreases exprs, exprs.len() - i,
{
    if 0 <= i < exprs.len() {
        let middle = free_in_expr(exprs[i], bound, fs, free);
        lemma_free_grows(exprs[i], bound, fs, free);
        lemma_free_list_grows(exprs, i + 1, bound, fs, middle);
        lemma_holds_both(free_in_exprs(exprs, i + 1, bound, fs, middle), middle, free);
    }
}

proof fn lemma_free_entries_grow(
    entries: Seq<(ExprView, ExprView)>,
    i: int,
    bound: Set<Seq<char>>,
    fs: FunctionIds,
    free: Seq<Seq<char>>,
)
    ensures
        holds(free_in_entries(entries, i, bound, fs, free), free),
    decreases entries, entries.len() - i,
{
    if 0 <= i < entries.len() {
        let keys = free_in_expr(entries[i].0, bound, fs, free);
        let both = free_in_expr(entries[i].1, bound, fs, keys);
        lemma_free_grows(entries[i].0, bound, fs, free);
        lemma_free_grows(entries[i].1, bound, fs, keys);
        lemma_holds_both(both, keys, free);
        lemma_free_entries_grow(entries, i + 1, bound, fs, both);
        lemma_holds_both(free_in_entries(entries, i + 1, bound, fs, both), both, free);
    }
}

proof fn lemma_free_stmts_grow(
    stmts: Seq<StmtView>,
    i: int,
    bound: Set<Seq<char>>,
    fs: FunctionIds,
    free: Seq<Seq<char>>,
)
    ensures
        holds(free_in_stmts(stmts, i, bound, fs, free).1, free),
    decreases stmts, stmts.len() - i,
{
    if 0 <= i < stmts.len() {
        let (next, middle) = free_in_stmt(stmts[i], bound, fs, free);
        lemma_free_stmt_grows(stmts[i], bound, fs, free);
        lemma_free_stmts_grow(stmts, i + 1, next, fs, middle);
        lemma_holds_both(free_in_stmts(stmts, i + 1, next, fs, middle).1, middle, free);
    }
}

proof fn lemma_free_stmt_grows(
    stmt: StmtView,
    bound: Set<Seq<char>>,
    fs: FunctionIds,
    free: Seq<Seq<char>>,
)
    ensures
        holds(free_in_stmt(stmt, bound, fs, free).1, free),
    decreases stmt, 0int,
{
    match stmt {
        StmtView::Import { .. } => {},
        StmtView::Function { .. } => {},
        StmtView::Let { name, initializer, .. } => {
            lemma_free_grows(initializer, bound, fs, free);
            lemma_free_grows(initializer, bound.insert(name), fs, free);
        },
        StmtView::Assign { name, value, .. } => {
            let middle = noted(name, bound, fs, free);
            lemma_noted(name, bound, fs, free);
            lemma_free_grows(value, bound, fs, middle);
            lemma_holds_both(free_in_expr(value, bound, fs, middle), middle, free);
        },
        StmtView::IndexAssign { target, index, value, .. } => {
            let one = free_in_expr(target, bound, fs, free);
            let two = free_in_expr(index, bound, fs, one);
            lemma_free_grows(target, bound, fs, free);
            lemma_free_grows(index, bound, fs, one);
            lemma_holds_both(two, one, free);
            lemma_free_grows(value, bound, fs, two);
            lemma_holds_both(free_in_expr(value, bound, fs, two), two, free);
        },
        StmtView::Return { value, .. } => lemma_free_grows(value, bound, fs, free),
        StmtView::Expr { value, .. } => lemma_free_grows(value, bound, fs, free),
        StmtView::If { condition, then_branch, else_branch, .. } => {
            let one = free_in_expr(condition, bound, fs, free);
            let two = free_in_stmts(then_branch, 0, bound, fs, one).1;
            lemma_free_grows(condition, bound, fs, free);
            lemma_free_stmts_grow(then_branch, 0, bound, fs, one);
            lemma_holds_both(two, one, free);
            lemma_free_stmts_grow(else_branch, 0, bound, fs, two);
            lemma_holds_both(free_in_stmts(else_branch, 0, bound, fs, two).1, two, free);
        },
        StmtView::While { condition, body, .. } => {
            let one = free_in_expr(condition, bound, fs, free);
            lemma_free_grows(condition, bound, fs, free);
            lemma_free_stmts_grow(body, 0, bound, fs, one);
            lemma_holds_both(free_in_stmts(body, 0, bound, fs, one).1, one, free);
        },
        StmtView::Block { statements, .. } => {
            lemma_free_stmts_grow(statements, 0, bound, fs, free);
        },
    }
}

/// What some names have to hold so that code still resolves with them: the bound names, and those
/// of the free variables that resolved before.
pub open spec fn enough(
    small: Set<Seq<char>>,
    big: Set<Seq<char>>,
    bound: Set<Seq<char>>,
    free: Seq<Seq<char>>,
) -> bool {
    &&& forall|name: Seq<char>| #[trigger] bound.contains(name) ==> small.contains(name)
    &&& forall|name: Seq<char>|
        #[trigger] free.contains(name) && big.contains(name) ==> small.contains(name)
}

/// The functions have names, and no variable has one of them.
pub open spec fn apart(big: Set<Seq<char>>, fs: FunctionIds, arities: Arities) -> bool {
    &&& fs.dom() == arities.dom()
    &&& forall|name: Seq<char>| #[trigger] big.contains(name) ==> !arities.contains_key(name)
}

proof fn lemma_enough_earlier(
    small: Set<Seq<char>>,
    big: Set<Seq<char>>,
    bound: Set<Seq<char>>,
    free: Seq<Seq<char>>,
    earlier: Seq<Seq<char>>,
)
    requires
        enough(small, big, bound, free),
        holds(free, earlier),
    ensures
        enough(small, big, bound, earlier),
{
    assert forall|name: Seq<char>| #[trigger]
        earlier.contains(name) && big.contains(name) implies small.contains(name) by {
        assert(free.contains(name));
    }
}

/// A name that resolved still does.
proof fn lemma_name_kept(
    name: Seq<char>,
    small: Set<Seq<char>>,
    big: Set<Seq<char>>,
    bound: Set<Seq<char>>,
    fs: FunctionIds,
    arities: Arities,
    free: Seq<Seq<char>>,
)
    requires
        apart(big, fs, arities),
        enough(small, big, bound, noted(name, bound, fs, free)),
        big.contains(name),
    ensures
        small.contains(name),
{
    lemma_noted(name, bound, fs, free);
    assert(!fs.dom().contains(name));
    if !bound.contains(name) {
        assert(noted(name, bound, fs, free).contains(name));
    }
}

pub(crate) proof fn lemma_with_names(names: Seq<Seq<char>>, i: int, set: Set<Seq<char>>)
    requires
        0 <= i <= names.len(),
    ensures
        forall|name: Seq<char>| #[trigger]
            with_names(names, i, set).contains(name) <==> set.contains(name) || exists|k: int|
                i <= k < names.len() && names[k] == name,
    decreases names.len() - i,
{
    if i < names.len() {
        lemma_with_names(names, i + 1, set.insert(names[i]));
        assert forall|name: Seq<char>| #[trigger]
            with_names(names, i, set).contains(name) <==> set.contains(name) || exists|k: int|
                i <= k < names.len() && names[k] == name by {
            let more = set.insert(names[i]);
            assert(with_names(names, i, set).contains(name) == with_names(
                names,
                i + 1,
                more,
            ).contains(name));
            if set.contains(name) || exists|k: int| i <= k < names.len() && names[k] == name {
                if !set.contains(name) {
                    let k = choose|k: int| i <= k < names.len() && names[k] == name;
                    if k > i {
                        assert(i + 1 <= k < names.len() && names[k] == name);
                    }
                }
            }
        }
    }
}

/// More names on all sides.
proof fn lemma_enough_with_names(
    small: Set<Seq<char>>,
    big: Set<Seq<char>>,
    bound: Set<Seq<char>>,
    free: Seq<Seq<char>>,
    names: Seq<Seq<char>>,
)
    requires
        enough(small, big, bound, free),
    ensures
        enough(
            with_names(names, 0, small),
            with_names(names, 0, big),
            with_names(names, 0, bound),
            free,
        ),
{
    lemma_with_names(names, 0, small);
    lemma_with_names(names, 0, big);
    lemma_with_names(names, 0, bound);
}

pub(crate) proof fn lemma_apart_with_names(
    big: Set<Seq<char>>,
    fs: FunctionIds,
    arities: Arities,
    names: Seq<Seq<char>>,
)
    requires
        apart(big, fs, arities),
        no_functions(names, arities),
    ensures
        apart(with_names(names, 0, big), fs, arities),
{
    lemma_with_names(names, 0, big);
}

/// An expression that resolves with some names also resolves with its free variables among them.
proof fn lemma_restrict(
    expr: ExprView,
    small: Set<Seq<char>>,
    big: Set<Seq<char>>,
    bound: Set<Seq<char>>,
    fs: FunctionIds,
    arities: Arities,
    free: Seq<Seq<char>>,
    strict: bool,
)
    requires
        resolved_expr(expr, big, arities, strict),
        apart(big, fs, arities),
        enough(small, big, bound, free_in_expr(expr, bound, fs, free)),
    ensures
        resolved_expr(expr, small, arities, strict),
    decreases expr, 0int,
{
    match expr {
        ExprView::Literal { .. } => {},
        ExprView::Variable { name, .. } => {
            lemma_name_kept(name, small, big, bound, fs, arities, free);
        },
        ExprView::Binary { lhs, rhs, .. } => {
            let middle = free_in_expr(*lhs, bound, fs, free);
            let last = free_in_expr(*rhs, bound, fs, middle);
            lemma_free_grows(*rhs, bound, fs, middle);
            lemma_enough_earlier(small, big, bound, last, middle);
            lemma_restrict(*lhs, small, big, bound, fs, arities, free, strict);
            lemma_restrict(*rhs, small, big, bound, fs, arities, middle, strict);
        },
        ExprView::Call { callee, args, .. } => {
            let middle = noted(callee, bound, fs, free);
            let last = free_in_exprs(args, 0, bound, fs, middle);
            lemma_free_list_grows(args, 0, bound, fs, middle);
            lemma_enough_earlier(small, big, bound, last, middle);
            if !arities.contains_key(callee) {
                lemma_name_kept(callee, small, big, bound, fs, arities, free);
            }
            lemma_restrict_list(args, 0, small, big, bound, fs, arities, middle, strict);
        },
        ExprView::Function { params, body, .. } => {
            let all = free_in_expr(expr, bound, fs, free);
            lemma_enough_with_names(small, big, bound, all, params);
            lemma_apart_with_names(big, fs, arities, params);
            lemma_restrict_stmts(
                body,
                0,
                with_names(params, 0, small),
                with_names(params, 0, big),
                with_names(params, 0, bound),
                fs,
                arities,
                free,
                strict,
            );
        },
        ExprView::Index { target, index, .. } => {
            let middle = free_in_expr(*target, bound, fs, free);
            let last = free_in_expr(*index, bound, fs, middle);
            lemma_free_grows(*index, bound, fs, middle);
            lemma_enough_earlier(small, big, bound, last, middle);
            lemma_restrict(*target, small, big, bound, fs, arities, free, strict);
            lemma_restrict(*index, small, big, bound, fs, arities, middle, strict);
        },
        ExprView::Array { elements, .. } => {
            lemma_restrict_list(elements, 0, small, big, bound, fs, arities, free, strict);
        },
        ExprView::MapLiteral { entries, .. } => {
            lemma_restrict_entries(entries, 0, small, big, bound, fs, arities, free, strict);
        },
        ExprView::Grouping { expr, .. } => {
            lemma_restrict(*expr, small, big, bound, fs, arities, free, strict);
        },
    }
}

proof fn lemma_restrict_list(
    exprs: Seq<ExprView>,
    i: int,
    small: Set<Seq<char>>,
    big: Set<Seq<char>>,
    bound: Set<Seq<char>>,
    fs: FunctionIds,
    arities: Arities,
    free: Seq<Seq<char>>,
    strict: bool,
)
    requires
        resolved_exprs(exprs, i, big, arities, strict),
        apart(big, fs, arities),
        enough(small, big, bound, free_in_exprs(exprs, i, bound, fs, free)),
    ensures
        resolved_exprs(exprs, i, small, arities, strict),
    decreases exprs, exprs.len() - i,
{
    if 0 <= i < exprs.len() {
        let middle = free_in_expr(exprs[i], bound, fs, free);
        let last = free_in_exprs(exprs, i + 1, bound, fs, middle);
        lemma_free_list_grows(exprs, i + 1, bound, fs, middle);
        lemma_enough_earlier(small, big, bound, last, middle);
        lemma_restrict(exprs[i], small, big, bound, fs, arities, free, strict);
        lemma_restrict_list(exprs, i + 1, small, big, bound, fs, arities, middle, strict);
    }
}

proof fn lemma_restrict_entries(
    entries: Seq<(ExprView, ExprView)>,
    i: int,
    small: Set<Seq<char>>,
    big: Set<Seq<char>>,
    bound: Set<Seq<char>>,
    fs: FunctionIds,
    arities: Arities,
    free: Seq<Seq<char>>,
    strict: bool,
)
    requires
        resolved_entries(entries, i, big, arities, strict),
        apart(big, fs, arities),
        enough(small, big, bound, free_in_entries(entries, i, bound, fs, free)),
    ensures
        resolved_entries(entries, i, small, arities, strict),
    decreases entries, entries.len() - i,
{
    if 0 <= i < entries.len() {
        let keys = free_in_expr(entries[i].0, bound, fs, free);
        let both = free_in_expr(entries[i].1, bound, fs, keys);
        let last = free_in_entries(entries, i + 1, bound, fs, both);
        lemma_free_entries_grow(entries, i + 1, bound, fs, both);
        lemma_enough_earlier(small, big, bound, last, both);
        lemma_free_grows(entries[i].1, bound, fs, keys);
        lemma_enough_earlier(small, big, bound, both, keys);
        lemma_restrict(entries[i].0, small, big, bound, fs, arities, free, strict);
        lemma_restrict(entries[i].1, small, big, bound, fs, arities, keys, strict);
        lemma_restrict_entries(entries, i + 1, small, big, bound, fs, arities, both, strict);
    }
}

pub(crate) proof fn lemma_restrict_stmts(
    stmts: Seq<StmtView>,
    i: int,
    small: Set<Seq<char>>,
    big: Set<Seq<char>>,
    bound: Set<Seq<char>>,
    fs: FunctionIds,
    arities: Arities,
    free: Seq<Seq<char>>,
    strict: bool,
)
    requires
        resolved_stmts(stmts, i, big, arities, strict),
        apart(big, fs, arities),
        enough(small, big, bound, free_in_stmts(stmts, i, bound, fs, free).1),
    ensures
        resolved_stmts(stmts, i, small, arities, strict),
    decreases stmts, stmts.len() - i,
{
    if 0 <= i < stmts.len() {
        let (next, middle) = free_in_stmt(stmts[i], bound, fs, free);
        let last = free_in_stmts(stmts, i + 1, next, fs, middle).1;
        lemma_free_stmts_grow(stmts, i + 1, next, fs, middle);
        lemma_enough_earlier(small, big, bound, last, middle);
        lemma_restrict_stmt(stmts[i], small, big, bound, fs, arities, free, strict);
        lemma_restrict_stmts(
            stmts,
            i + 1,
            names_behind(stmts[i], small),
            names_behind(stmts[i], big),
            next,
            fs,
            arities,
            middle,
            strict,
        );
    }
}

proof fn lemma_restrict_stmt(
    stmt: StmtView,
    small: Set<Seq<char>>,
    big: Set<Seq<char>>,
    bound: Set<Seq<char>>,
    fs: FunctionIds,
    arities: Arities,
    free: Seq<Seq<char>>,
    strict: bool,
)
    requires
        resolved_stmt(stmt, big, arities, strict),
        apart(big, fs, arities),
        enough(small, big, bound, free_in_stmt(stmt, bound, fs, free).1),
    ensures
        resolved_stmt(stmt, small, arities, strict),
    decreases stmt, 0int,
{
    match stmt {
        StmtView::Import { .. } => {},
        StmtView::Function { .. } => {},
        StmtView::Let { name, initializer, .. } => {
            if initializer is Function {
                lemma_restrict(
                    initializer,
                    small.insert(name),
                    big.insert(name),
                    bound.insert(name),
                    fs,
                    arities,
                    free,
                    strict,
                );
            } else {
                lemma_restrict(initializer, small, big, bound, fs, arities, free, strict);
            }
        },
        StmtView::Assign { name, value, .. } => {
            let middle = noted(name, bound, fs, free);
            let last = free_in_expr(value, bound, fs, middle);
            lemma_free_grows(value, bound, fs, middle);
            lemma_enough_earlier(small, big, bound, last, middle);
            lemma_name_kept(name, small, big, bound, fs, arities, free);
            lemma_restrict(value, small, big, bound, fs, arities, middle, strict);
        },
        StmtView::IndexAssign { target, index, value, .. } => {
            let one = free_in_expr(target, bound, fs, free);
            let two = free_in_expr(index, bound, fs, one);
            let last = free_in_expr(value, bound, fs, two);
            lemma_free_grows(value, bound, fs, two);
            lemma_enough_earlier(small, big, bound, last, two);
            lemma_free_grows(index, bound, fs, one);
            lemma_enough_earlier(small, big, bound, two, one);
            lemma_restrict(target, small, big, bound, fs, arities, free, strict);
            lemma_restrict(index, small, big, bound, fs, arities, one, strict);
            lemma_restrict(value, small, big, bound, fs, arities, two, strict);
        },
        StmtView::Return { value, .. } => {
            lemma_restrict(value, small, big, bound, fs, arities, free, strict);
        },
        StmtView::Expr { value, .. } => {
            lemma_restrict(value, small, big, bound, fs, arities, free, strict);
        },
        StmtView::If { condition, then_branch, else_branch, .. } => {
            let one = free_in_expr(condition, bound, fs, free);
            let two = free_in_stmts(then_branch, 0, bound, fs, one).1;
            let last = free_in_stmts(else_branch, 0, bound, fs, two).1;
            lemma_free_stmts_grow(else_branch, 0, bound, fs, two);
            lemma_enough_earlier(small, big, bound, last, two);
            lemma_free_stmts_grow(then_branch, 0, bound, fs, one);
            lemma_enough_earlier(small, big, bound, two, one);
            lemma_restrict(condition, small, big, bound, fs, arities, free, strict);
            lemma_restrict_stmts(then_branch, 0, small, big, bound, fs, arities, one, strict);
            lemma_restrict_stmts(else_branch, 0, small, big, bound, fs, arities, two, strict);
        },
        StmtView::While { condition, body, .. } => {
            let one = free_in_expr(condition, bound, fs, free);
            let last = free_in_stmts(body, 0, bound, fs, one).1;
            lemma_free_stmts_grow(body, 0, bound, fs, one);
            lemma_enough_earlier(small, big, bound, last, one);
            lemma_restrict(condition, small, big, bound, fs, arities, free, strict);
            lemma_restrict_stmts(body, 0, small, big, bound, fs, arities, one, strict);
        },
        StmtView::Block { statements, .. } => {
            lemma_restrict_stmts(statements, 0, small, big, bound, fs, arities, free, strict);
        },
    }
}

// ---------------------------------------------------------------------------
// Captured variables
// ---------------------------------------------------------------------------

proof fn lemma_with_names_grows(names: Seq<Seq<char>>, a: Set<Seq<char>>, b: Set<Seq<char>>)
    requires
        a.subset_of(b),
    ensures
        a.subset_of(with_names(names, 0, a)),
        with_names(names, 0, a).subset_of(with_names(names, 0, b)),
{
    lemma_with_names(names, 0, a);
    lemma_with_names(names, 0, b);
}

/// Captured names stay, and more captured names before give more behind.
proof fn lemma_captured_grows(
    expr: ExprView,
    fs: FunctionIds,
    a: Set<Seq<char>>,
    b: Set<Seq<char>>,
)
    requires
        a.subset_of(b),
    ensures
        a.subset_of(captured_in_expr(expr, fs, a)),
        captured_in_expr(expr, fs, a).subset_of(captured_in_expr(expr, fs, b)),
    decreases expr, 0int,
{
    match expr {
        ExprView::Literal { .. } => {},
        ExprView::Variable { .. } => {},
        ExprView::Binary { lhs, rhs, .. } => {
            lemma_captured_grows(*lhs, fs, a, b);
            lemma_captured_grows(
                *rhs,
                fs,
                captured_in_expr(*lhs, fs, a),
                captured_in_expr(*lhs, fs, b),
            );
        },
        ExprView::Call { args, .. } => lemma_captured_list_grows(args, 0, fs, a, b),
        ExprView::Function { params, body, .. } => {
            lemma_with_names_grows(free_names(params, body, fs), a, b);
        },
        ExprView::Index { target, index, .. } => {
            lemma_captured_grows(*target, fs, a, b);
            lemma_captured_grows(
                *index,
                fs,
                captured_in_expr(*target, fs, a),
                captured_in_expr(*target, fs, b),
            );
        },
        ExprView::Array { elements, .. } => lemma_captured_list_grows(elements, 0, fs, a, b),
        ExprView::MapLiteral { entries, .. } => {
            lemma_captured_entries_grow(entries, 0, fs, a, b);
        },
        ExprView::Grouping { expr, .. } => lemma_captured_grows(*expr, fs, a, b),
    }
}

proof fn lemma_captured_list_grows(
    exprs: Seq<ExprView>,
    i: int,
    fs: FunctionIds,
    a: Set<Seq<char>>,
    b: Set<Seq<char>>,
)
    requires
        a.subset_of(b),
    ensures
        a.subset_of(captured_in_exprs(exprs, i, fs, a)),
        captured_in_exprs(exprs, i, fs, a).subset_of(captured_in_exprs(exprs, i, fs, b)),
    decreases exprs, exprs.len() - i,
{
    if 0 <= i < exprs.len() {
        lemma_captured_grows(exprs[i], fs, a, b);
        lemma_captured_list_grows(
            exprs,
            i + 1,
            fs,
            captured_in_expr(exprs[i], fs, a),
            captured_in_expr(exprs[i], fs, b),
        );
    }
}

proof fn lemma_captured_entries_grow(
    entries: Seq<(ExprView, ExprView)>,
    i: int,
    fs: FunctionIds,
    a: Set<Seq<char>>,
    b: Set<Seq<char>>,
)
    requires
        a.subset_of(b),
    ensures
        a.subset_of(captured_in_entries(entries, i, fs, a)),
        captured_in_entries(entries, i, fs, a).subset_of(captured_in_entries(entries, i, fs, b)),
    decreases entries, entries.len() - i,
{
    if 0 <= i < entries.len() {
        let x = captured_in_expr(entries[i].0, fs, a);
        let y = captured_in_expr(entries[i].0, fs, b);
        lemma_captured_grows(entries[i].0, fs, a, b);
        lemma_captured_grows(entries[i].1, fs, x, y);
        lemma_captured_entries_grow(
            entries,
            i + 1,
            fs,
            captured_in_expr(entries[i].1, fs, x),
            captured_in_expr(entries[i].1, fs, y),
        );
    }
}

proof fn lemma_captured_stmt_grows(
    stmt: StmtView,
    fs: FunctionIds,
    a: Set<Seq<char>>,
    b: Set<Seq<char>>,
)
    requires
        a.subset_of(b),
    ensures
        a.subset_of(captured_in_stmt(stmt, fs, a)),
        captured_in_stmt(stmt, fs, a).subset_of(captured_in_stmt(stmt, fs, b)),
    decreases stmt, 0int,
{
    match stmt {
        StmtView::Import { .. } => {},
        StmtView::Function { .. } => {},
        StmtView::Let { initializer, .. } => lemma_captured_grows(initializer, fs, a, b),
        StmtView::Assign { value, .. } => lemma_captured_grows(value, fs, a, b),
        StmtView::IndexAssign { target, index, value, .. } => {
            let x = captured_in_expr(target, fs, a);
            let y = captured_in_expr(target, fs, b);
            lemma_captured_grows(target, fs, a, b);
            lemma_captured_grows(index, fs, x, y);
            lemma_captured_grows(
                value,
                fs,
                captured_in_expr(index, fs, x),
                captured_in_expr(index, fs, y),
            );
        },
        StmtView::Return { value, .. } => lemma_captured_grows(value, fs, a, b),
        StmtView::Expr { value, .. } => lemma_captured_grows(value, fs, a, b),
        StmtView::If { condition, then_branch, else_branch, .. } => {
            let x = captured_in_expr(condition, fs, a);
            let y = captured_in_expr(condition, fs, b);
            lemma_captured_grows(condition, fs, a, b);
            lemma_captured_stmts_grow(then_branch, 0, fs, x, y);
            lemma_captured_stmts_grow(
                else_branch,
                0,
                fs,
                captured_in_stmts(then_branch, 0, fs, x),
                captured_in_stmts(then_branch, 0, fs, y),
            );
        },
        StmtView::While { condition, body, .. } => {
            lemma_captured_grows(condition, fs, a, b);
            lemma_captured_stmts_grow(
                body,
                0,
                fs,
                captured_in_expr(condition, fs, a),
                captured_in_expr(condition, fs, b),
            );
        },
        StmtView::Block { statements, .. } => {
            lemma_captured_stmts_grow(statements, 0, fs, a, b);
        },
    }
}

proof fn lemma_captured_stmts_grow(
    stmts: Seq<StmtView>,
    i: int,
    fs: FunctionIds,
    a: Set<Seq<char>>,
    b: Set<Seq<char>>,
)
    requires
        a.subset_of(b),
    ensures
        a.subset_of(captured_in_stmts(stmts, i, fs, a)),
        captured_in_stmts(stmts, i, fs, a).subset_of(captured_in_stmts(stmts, i, fs, b)),
    decreases stmts, stmts.len() - i,
{
    if 0 <= i < stmts.len() {
        lemma_captured_stmt_grows(stmts[i], fs, a, b);
        lemma_captured_stmts_grow(
            stmts,
            i + 1,
            fs,
            captured_in_stmt(stmts[i], fs, a),
            captured_in_stmt(stmts[i], fs, b),
        );
    }
}

/// The names that function literals in statements use from outside live in cells.
pub open spec fn boxes(stmts: Seq<StmtView>, i: int, fs: FunctionIds, boxed: Set<Seq<char>>) -> bool {
    captured_in_stmts(stmts, i, fs, Set::empty()).subset_of(boxed)
}

pub open spec fn boxes_stmt(stmt: StmtView, fs: FunctionIds, boxed: Set<Seq<char>>) -> bool {
    captured_in_stmt(stmt, fs, Set::empty()).subset_of(boxed)
}

/// Captured names of statements are those of the first one and of the others.
pub(crate) proof fn lemma_boxes_parts(
    stmts: Seq<StmtView>,
    i: int,
    fs: FunctionIds,
    boxed: Set<Seq<char>>,
)
    requires
        boxes(stmts, i, fs, boxed),
        0 <= i < stmts.len(),
    ensures
        boxes_stmt(stmts[i], fs, boxed),
        boxes(stmts, i + 1, fs, boxed),
{
    let one = captured_in_stmt(stmts[i], fs, Set::empty());
    lemma_captured_stmts_grow(stmts, i + 1, fs, one, one);
    lemma_captured_stmts_grow(stmts, i + 1, fs, Set::empty(), one);
}

/// Captured names of a statement hold those of the statements in it.
pub(crate) proof fn lemma_boxes_inside(stmt: StmtView, fs: FunctionIds, boxed: Set<Seq<char>>)
    requires
        boxes_stmt(stmt, fs, boxed),
    ensures
        stmt matches StmtView::If { then_branch, else_branch, .. } ==> boxes(
            then_branch,
            0,
            fs,
            boxed,
        ) && boxes(else_branch, 0, fs, boxed),
        stmt matches StmtView::While { body, .. } ==> boxes(body, 0, fs, boxed),
        stmt matches StmtView::Block { statements, .. } ==> boxes(statements, 0, fs, boxed),
{
    let none = Set::<Seq<char>>::empty();
    match stmt {
        StmtView::If { condition, then_branch, else_branch, .. } => {
            let one = captured_in_expr(condition, fs, none);
            let two = captured_in_stmts(then_branch, 0, fs, one);
            lemma_captured_grows(condition, fs, none, none);
            lemma_captured_stmts_grow(then_branch, 0, fs, none, one);
            lemma_captured_stmts_grow(else_branch, 0, fs, two, two);
            lemma_captured_stmts_grow(else_branch, 0, fs, none, two);
        },
        StmtView::While { condition, body, .. } => {
            let one = captured_in_expr(condition, fs, none);
            lemma_captured_stmts_grow(body, 0, fs, none, one);
        },
        _ => {},
    }
}

/// A function literal that does not use a name resolves without it.
pub(crate) proof fn lemma_without_name(
    expr: ExprView,
    name: Seq<char>,
    names: Set<Seq<char>>,
    fs: FunctionIds,
    arities: Arities,
    strict: bool,
    boxed: Set<Seq<char>>,
)
    requires
        expr is Function,
        resolved_expr(expr, names.insert(name), arities, strict),
        apart(names.insert(name), fs, arities),
        captured_in_expr(expr, fs, Set::empty()).subset_of(boxed),
        !boxed.contains(name),
    ensures
        resolved_expr(expr, names, arities, strict),
{
    if let ExprView::Function { params, body, .. } = expr {
        let free = free_names(params, body, fs);
        let none = Set::<Seq<char>>::empty();
        lemma_with_names(free, 0, none);
        assert(free_in_expr(expr, none, fs, Seq::empty()) == free);
        assert forall|n: Seq<char>| #[trigger]
            free.contains(n) && names.insert(name).contains(n) implies names.contains(n) by {
            if n == name {
                let k = choose|k: int| 0 <= k < free.len() && free[k] == n;
                assert(with_names(free, 0, none).contains(n));
                assert(captured_in_expr(expr, fs, none).contains(n));
            }
        }
        lemma_restrict(
            expr,
            names,
            names.insert(name),
            none,
            fs,
            arities,
            Seq::empty(),
            strict,
        );
    }
}

} // verus!
