//! Which programs name analysis accepts, and what it says of the others.

use vstd::prelude::*;

use crate::compiler::ast::{ExprView, StmtView};
use crate::compiler::error::{CompileErrorKindView, CompileErrorView};
use crate::compiler::sema::{
    after_stmt, after_stmts, bodies_error, builtin_arities, declared, entries_error, expr_error,
    exprs_error, last_dot, main_error, opened, program_error, scoped_error, unknown, with_aliases,
    with_declarations, with_params, with_params_from, Env, Scopes,
};
use crate::diagnostics::span::SourceSpan;

verus! {

// ---------------------------------------------------------------------------
// Programs whose names fit
// ---------------------------------------------------------------------------

/// The names that the first `n` statements of a block bind in it.
pub open spec fn bound(stmts: Seq<StmtView>, n: int) -> Set<Seq<char>> {
    Set::new(
        |name: Seq<char>|
            exists|i: int|
                0 <= i < n && i < stmts.len() && (#[trigger] stmts[i]) is Let && stmts[i]->Let_name
                    == name,
    )
}

/// Whether an expression uses only names that it sees, and calls functions with as many arguments
/// as they take.
pub open spec fn expr_fits(
    expr: ExprView,
    seen: Set<Seq<char>>,
    functions: Map<Seq<char>, usize>,
) -> bool
    decreases expr,
{
    match expr {
        ExprView::Literal { .. } => true,
        ExprView::Variable { name, .. } => seen.contains(name),
        ExprView::Binary { lhs, rhs, .. } => expr_fits(*lhs, seen, functions) && expr_fits(
            *rhs,
            seen,
            functions,
        ),
        ExprView::Array { elements, .. } => elements.len() <= 255 && exprs_fit(
            elements,
            seen,
            functions,
        ),
        ExprView::MapLiteral { entries, .. } => entries.len() <= 255 && entries_fit(
            entries,
            seen,
            functions,
        ),
        ExprView::Index { target, index, .. } => expr_fits(*target, seen, functions) && expr_fits(
            *index,
            seen,
            functions,
        ),
        ExprView::Call { callee, args, .. } => {
            &&& args.len() <= 255
            &&& seen.contains(callee) || functions.contains_key(callee) && functions[callee]
                == args.len()
            &&& exprs_fit(args, seen, functions)
        },
        ExprView::Function { params, body, .. } => {
            &&& params.len() <= 255
            &&& params.no_duplicates()
            &&& block_fits(body, seen.union(params.to_set()), functions)
        },
        ExprView::Grouping { expr, .. } => expr_fits(*expr, seen, functions),
    }
}

/// Whether the names of expressions fit.
pub open spec fn exprs_fit(
    exprs: Seq<ExprView>,
    seen: Set<Seq<char>>,
    functions: Map<Seq<char>, usize>,
) -> bool
    decreases exprs,
{
    forall|i: int| 0 <= i < exprs.len() ==> expr_fits(#[trigger] exprs[i], seen, functions)
}

/// Whether the names of key/value pairs fit.
pub open spec fn entries_fit(
    entries: Seq<(ExprView, ExprView)>,
    seen: Set<Seq<char>>,
    functions: Map<Seq<char>, usize>,
) -> bool
    decreases entries,
{
    forall|i: int|
        0 <= i < entries.len() ==> expr_fits((#[trigger] entries[i]).0, seen, functions)
            && expr_fits(entries[i].1, seen, functions)
}

/// Whether the names of a statement fit, where it sees some names and its own block has bound some
/// of them.
pub open spec fn stmt_fits(
    stmt: StmtView,
    seen: Set<Seq<char>>,
    own: Set<Seq<char>>,
    functions: Map<Seq<char>, usize>,
) -> bool
    decreases stmt,
{
    match stmt {
        StmtView::Import { .. } => true,
        StmtView::Function { .. } => true,
        StmtView::Let { name, initializer, .. } => {
            &&& !own.contains(name)
            &&& initializer is Function && expr_fits(initializer, seen.insert(name), functions)
                || !(initializer is Function) && expr_fits(initializer, seen, functions)
        },
        StmtView::Assign { name, value, .. } => seen.contains(name) && expr_fits(
            value,
            seen,
            functions,
        ),
        StmtView::IndexAssign { target, index, value, .. } => {
            &&& expr_fits(target, seen, functions)
            &&& expr_fits(index, seen, functions)
            &&& expr_fits(value, seen, functions)
        },
        StmtView::Return { value, .. } => expr_fits(value, seen, functions),
        StmtView::Expr { value, .. } => expr_fits(value, seen, functions),
        StmtView::If { condition, then_branch, else_branch, .. } => {
            &&& expr_fits(condition, seen, functions)
            &&& block_fits(then_branch, seen, functions)
            &&& block_fits(else_branch, seen, functions)
        },
        StmtView::While { condition, body, .. } => expr_fits(condition, seen, functions)
            && block_fits(body, seen, functions),
        StmtView::Block { statements, .. } => block_fits(statements, seen, functions),
    }
}

/// Whether the names of a block fit: every statement sees what is seen around the block and what
/// the statements before it bind, and no name is bound twice in the block.
pub open spec fn block_fits(
    stmts: Seq<StmtView>,
    seen: Set<Seq<char>>,
    functions: Map<Seq<char>, usize>,
) -> bool
    decreases stmts,
{
    forall|i: int|
        0 <= i < stmts.len() ==> stmt_fits(
            #[trigger] stmts[i],
            seen.union(bound(stmts, i)),
            bound(stmts, i),
            functions,
        )
}

// ---------------------------------------------------------------------------
// What does not fit
// ---------------------------------------------------------------------------

/// What kind of error a name is that is not known: where it is a module that marks its exports, a
/// dot and a name without dots, that module lacks an export; else it is the plain error.
pub open spec fn missing(
    name: Seq<char>,
    modules: Set<Seq<char>>,
    plain: CompileErrorKindView,
    kind: CompileErrorKindView,
) -> bool {
    ||| kind == plain && forall|module: Seq<char>, member: Seq<char>|
        modules.contains(module) && !member.contains('.') ==> name != #[trigger] dotted(
            module,
            member,
        )
    ||| kind matches CompileErrorKindView::UndefinedModuleExport { module, name: member }
        && modules.contains(module) && !member.contains('.') && name == dotted(module, member)
}

/// A member of a module.
pub open spec fn dotted(module: Seq<char>, member: Seq<char>) -> Seq<char> {
    module.push('.') + member
}

/// Whether an error is the one of a kind at a place.
pub open spec fn at(error: CompileErrorView, span: SourceSpan) -> bool {
    error.span == Some(span)
}

/// Whether an error says truly what the first name is in an expression that does not fit.
pub open spec fn expr_wrong(
    expr: ExprView,
    seen: Set<Seq<char>>,
    env: Env,
    error: CompileErrorView,
) -> bool
    decreases expr,
{
    match expr {
        ExprView::Literal { .. } => false,
        ExprView::Variable { name, span } => {
            &&& !seen.contains(name)
            &&& at(error, span)
            &&& missing(
                name,
                env.modules,
                CompileErrorKindView::UndefinedVariable { name },
                error.kind,
            )
        },
        ExprView::Binary { lhs, rhs, .. } => expr_wrong(*lhs, seen, env, error) || expr_fits(
            *lhs,
            seen,
            env.functions,
        ) && expr_wrong(*rhs, seen, env, error),
        ExprView::Array { elements, span } => if elements.len() > 255 {
            at(error, span) && error.kind == (CompileErrorKindView::TooManyArrayElements {
                max: 255,
            })
        } else {
            exprs_wrong(elements, seen, env, error)
        },
        ExprView::MapLiteral { entries, span } => if entries.len() > 255 {
            at(error, span) && error.kind == (CompileErrorKindView::TooManyMapEntries { max: 255 })
        } else {
            entries_wrong(entries, seen, env, error)
        },
        ExprView::Index { target, index, .. } => expr_wrong(*target, seen, env, error) || expr_fits(
            *target,
            seen,
            env.functions,
        ) && expr_wrong(*index, seen, env, error),
        ExprView::Call { callee, args, span } => if args.len() > 255 {
            at(error, span) && error.kind == (CompileErrorKindView::TooManyArguments { max: 255 })
        } else if seen.contains(callee) || env.functions.contains_key(callee)
            && env.functions[callee] == args.len() {
            exprs_wrong(args, seen, env, error)
        } else if env.functions.contains_key(callee) {
            at(error, span) && error.kind == (CompileErrorKindView::WrongCallArity {
                name: callee,
                expected: env.functions[callee] as nat,
                actual: args.len(),
            })
        } else {
            at(error, span) && missing(
                callee,
                env.modules,
                CompileErrorKindView::UndefinedFunction { name: callee },
                error.kind,
            )
        },
        ExprView::Function { params, body, span } => params_wrong(params, span, error)
            || params.no_duplicates() && block_wrong(
            body,
            seen.union(params.to_set()),
            env,
            error,
        ),
        ExprView::Grouping { expr, .. } => expr_wrong(*expr, seen, env, error),
    }
}

/// Whether an error says truly that there are too many parameters, or which one comes again.
pub open spec fn params_wrong(
    params: Seq<Seq<char>>,
    span: SourceSpan,
    error: CompileErrorView,
) -> bool {
    &&& at(error, span)
    &&& if params.len() > 255 {
        error.kind == (CompileErrorKindView::TooManyParameters { max: 255 })
    } else {
        exists|i: int|
            0 <= i < params.len() && error.kind == (CompileErrorKindView::DuplicateParameter {
                name: #[trigger] params[i],
            }) && params.take(i).contains(params[i])
    }
}

/// The first of some expressions that does not fit.
pub open spec fn exprs_wrong(
    exprs: Seq<ExprView>,
    seen: Set<Seq<char>>,
    env: Env,
    error: CompileErrorView,
) -> bool
    decreases exprs,
{
    exists|k: int|
        {
            &&& 0 <= k < exprs.len()
            &&& expr_wrong(#[trigger] exprs[k], seen, env, error)
            &&& forall|j: int| 0 <= j < k ==> expr_fits(#[trigger] exprs[j], seen, env.functions)
        }
}

/// The first of some key/value pairs that does not fit.
pub open spec fn entries_wrong(
    entries: Seq<(ExprView, ExprView)>,
    seen: Set<Seq<char>>,
    env: Env,
    error: CompileErrorView,
) -> bool
    decreases entries,
{
    exists|k: int|
        {
            &&& 0 <= k < entries.len()
            &&& expr_wrong((#[trigger] entries[k]).0, seen, env, error) || expr_fits(
                entries[k].0,
                seen,
                env.functions,
            ) && expr_wrong(entries[k].1, seen, env, error)
            &&& forall|j: int|
                0 <= j < k ==> expr_fits((#[trigger] entries[j]).0, seen, env.functions)
                    && expr_fits(entries[j].1, seen, env.functions)
        }
}

/// Whether an error says truly what the first name is in a statement that does not fit.
pub open spec fn stmt_wrong(
    stmt: StmtView,
    seen: Set<Seq<char>>,
    own: Set<Seq<char>>,
    env: Env,
    error: CompileErrorView,
) -> bool
    decreases stmt,
{
    match stmt {
        StmtView::Import { .. } => false,
        StmtView::Function { .. } => false,
        StmtView::Let { name, initializer, span, .. } => if own.contains(name) {
            at(error, span) && error.kind == (CompileErrorKindView::DuplicateVariable { name })
        } else {
            ||| initializer is Function && expr_wrong(initializer, seen.insert(name), env, error)
            ||| !(initializer is Function) && expr_wrong(initializer, seen, env, error)
        },
        StmtView::Assign { name, value, span } => if seen.contains(name) {
            expr_wrong(value, seen, env, error)
        } else {
            at(error, span) && error.kind == (CompileErrorKindView::UndefinedVariable { name })
        },
        StmtView::IndexAssign { target, index, value, .. } => {
            ||| expr_wrong(target, seen, env, error)
            ||| expr_fits(target, seen, env.functions) && expr_wrong(index, seen, env, error)
            ||| expr_fits(target, seen, env.functions) && expr_fits(index, seen, env.functions)
                && expr_wrong(value, seen, env, error)
        },
        StmtView::Return { value, .. } => expr_wrong(value, seen, env, error),
        StmtView::Expr { value, .. } => expr_wrong(value, seen, env, error),
        StmtView::If { condition, then_branch, else_branch, .. } => {
            ||| expr_wrong(condition, seen, env, error)
            ||| expr_fits(condition, seen, env.functions) && block_wrong(
                then_branch,
                seen,
                env,
                error,
            )
            ||| expr_fits(condition, seen, env.functions) && block_fits(
                then_branch,
                seen,
                env.functions,
            ) && block_wrong(else_branch, seen, env, error)
        },
        StmtView::While { condition, body, .. } => expr_wrong(condition, seen, env, error)
            || expr_fits(condition, seen, env.functions) && block_wrong(body, seen, env, error),
        StmtView::Block { statements, .. } => block_wrong(statements, seen, env, error),
    }
}

/// The first statement of a block that does not fit.
pub open spec fn block_wrong(
    stmts: Seq<StmtView>,
    seen: Set<Seq<char>>,
    env: Env,
    error: CompileErrorView,
) -> bool
    decreases stmts,
{
    exists|k: int|
        {
            &&& 0 <= k < stmts.len()
            &&& stmt_wrong(
                #[trigger] stmts[k],
                seen.union(bound(stmts, k)),
                bound(stmts, k),
                env,
                error,
            )
            &&& forall|j: int|
                0 <= j < k ==> stmt_fits(
                    #[trigger] stmts[j],
                    seen.union(bound(stmts, j)),
                    bound(stmts, j),
                    env.functions,
                )
        }
}

// ---------------------------------------------------------------------------
// Scopes
// ---------------------------------------------------------------------------

/// The names that some scope holds.
pub open spec fn seen_in(scopes: Scopes) -> Set<Seq<char>> {
    Set::new(|name: Seq<char>| exists|i: int| 0 <= i < scopes.len() && (#[trigger] scopes[i]).contains(name))
}

proof fn lemma_declared(scopes: Scopes, name: Seq<char>)
    requires
        scopes.len() > 0,
    ensures
        seen_in(declared(scopes, name)) == seen_in(scopes).insert(name),
        declared(scopes, name).last() == scopes.last().insert(name),
        declared(scopes, name).len() == scopes.len(),
{
    let after = declared(scopes, name);
    assert forall|other: Seq<char>| seen_in(after).contains(other) == #[trigger] seen_in(
        scopes,
    ).insert(name).contains(other) by {
        if seen_in(after).contains(other) {
            let i = choose|i: int| 0 <= i < after.len() && (#[trigger] after[i]).contains(other);
            if other != name {
                assert(scopes[i].contains(other));
            }
        }
        if seen_in(scopes).contains(other) {
            let i = choose|i: int| 0 <= i < scopes.len() && (#[trigger] scopes[i]).contains(other);
            assert(after[i].contains(other));
        }
        if other == name {
            assert(after[after.len() - 1].contains(name));
        }
    }
    assert(seen_in(after) =~= seen_in(scopes).insert(name));
}

proof fn lemma_opened(scopes: Scopes)
    ensures
        seen_in(opened(scopes)) == seen_in(scopes),
        opened(scopes).last() == Set::<Seq<char>>::empty(),
        opened(scopes).len() > 0,
{
    let after = opened(scopes);
    assert forall|name: Seq<char>| seen_in(after).contains(name) == #[trigger] seen_in(
        scopes,
    ).contains(name) by {
        if seen_in(after).contains(name) {
            let i = choose|i: int| 0 <= i < after.len() && (#[trigger] after[i]).contains(name);
            assert(scopes[i].contains(name));
        }
        if seen_in(scopes).contains(name) {
            let i = choose|i: int| 0 <= i < scopes.len() && (#[trigger] scopes[i]).contains(name);
            assert(after[i].contains(name));
        }
    }
    assert(seen_in(after) =~= seen_in(scopes));
}

proof fn lemma_params(params: Seq<Seq<char>>, i: int, span: SourceSpan, scopes: Scopes, seen: Set<Seq<char>>)
    requires
        0 <= i <= params.len() <= 255,
        scopes.len() > 0,
        params.take(i).no_duplicates(),
        scopes.last() == params.take(i).to_set(),
        seen_in(scopes) == seen.union(params.take(i).to_set()),
    ensures
        match with_params_from(params, i, span, scopes) {
            Ok(after) => {
                &&& params.no_duplicates()
                &&& after.len() == scopes.len()
                &&& seen_in(after) == seen.union(params.to_set())
            },
            Err(error) => !params.no_duplicates() && params_wrong(params, span, error),
        },
    decreases params.len() - i,
{
    let front = params.take(i);
    if i < params.len() {
        let name = params[i];
        let more = params.take(i + 1);
        assert(more =~= front.push(name));
        if scopes.last().contains(name) {
            assert(front.contains(name));
            let j = choose|j: int| 0 <= j < front.len() && front[j] == name;
            assert(params[j] == params[i]);
            assert(params_wrong(params, span, with_params_from(params, i, span, scopes)->Err_0));
        } else {
            assert(!front.contains(name));
            lemma_declared(scopes, name);
            assert(more.to_set() =~= front.to_set().insert(name)) by {
                assert forall|other: Seq<char>| more.to_set().contains(other)
                    == #[trigger] front.to_set().insert(name).contains(other) by {
                    if front.contains(other) {
                        let j = choose|j: int| 0 <= j < front.len() && front[j] == other;
                        assert(more[j] == other);
                    }
                    if more.contains(other) && other != name {
                        let j = choose|j: int| 0 <= j < more.len() && more[j] == other;
                        assert(front[j] == other);
                    }
                    assert(more[i] == name);
                }
            }
            assert(seen.union(more.to_set()) =~= seen.union(front.to_set()).insert(name));
            lemma_params(params, i + 1, span, declared(scopes, name), seen);
        }
    } else {
        assert(front =~= params);
    }
}

proof fn lemma_last_dot(name: Seq<char>)
    ensures
        -1 <= last_dot(name) < name.len(),
        last_dot(name) >= 0 ==> name[last_dot(name)] == '.',
        forall|i: int| last_dot(name) < i < name.len() ==> #[trigger] name[i] != '.',
    decreases name.len(),
{
    if name.len() > 0 && name.last() != '.' {
        let front = name.drop_last();
        lemma_last_dot(front);
        assert forall|i: int| last_dot(name) < i < name.len() implies #[trigger] name[i] != '.' by {
            if i < front.len() {
                assert(front[i] == name[i]);
            }
        }
    }
}

proof fn lemma_missing(name: Seq<char>, env: Env, plain: CompileErrorKindView)
    requires
        !(plain is UndefinedModuleExport),
    ensures
        missing(name, env.modules, plain, unknown(name, env, plain)),
{
    lemma_last_dot(name);
    let d = last_dot(name);
    if d >= 0 && env.modules.contains(name.take(d)) {
        let member = name.skip(d + 1);
        assert(name =~= dotted(name.take(d), member));
        assert(!member.contains('.')) by {
            if member.contains('.') {
                let i = choose|i: int| 0 <= i < member.len() && member[i] == '.';
                assert(name[d + 1 + i] == '.');
            }
        }
    } else {
        assert forall|module: Seq<char>, member: Seq<char>|
            env.modules.contains(module) && !member.contains('.') implies name != #[trigger] dotted(
            module,
            member,
        ) by {
            if name == dotted(module, member) {
                assert(name[module.len() as int] == '.');
                if d > module.len() {
                    assert(member[d - module.len() - 1] == '.');
                }
                assert(d == module.len());
                assert(name.take(d) =~= module);
            }
        }
    }
}

// ---------------------------------------------------------------------------
// Expressions and statements
// ---------------------------------------------------------------------------

proof fn lemma_expr(expr: ExprView, scopes: Scopes, env: Env)
    requires
        scopes.len() > 0,
    ensures
        match expr_error(expr, scopes, env) {
            None => expr_fits(expr, seen_in(scopes), env.functions),
            Some(error) => {
                &&& !expr_fits(expr, seen_in(scopes), env.functions)
                &&& expr_wrong(expr, seen_in(scopes), env, error)
            },
        },
    decreases expr, 0int,
{
    let seen = seen_in(scopes);
    match expr {
        ExprView::Literal { .. } => {},
        ExprView::Variable { name, .. } => {
            lemma_missing(name, env, CompileErrorKindView::UndefinedVariable { name });
        },
        ExprView::Binary { lhs, rhs, .. } => {
            lemma_expr(*lhs, scopes, env);
            lemma_expr(*rhs, scopes, env);
        },
        ExprView::Array { elements, .. } => lemma_exprs(elements, 0, scopes, env),
        ExprView::MapLiteral { entries, .. } => lemma_entries(entries, 0, scopes, env),
        ExprView::Index { target, index, .. } => {
            lemma_expr(*target, scopes, env);
            lemma_expr(*index, scopes, env);
        },
        ExprView::Call { callee, args, .. } => {
            lemma_exprs(args, 0, scopes, env);
            lemma_missing(callee, env, CompileErrorKindView::UndefinedFunction { name: callee });
        },
        ExprView::Function { params, body, span } => {
            let inside = opened(scopes);
            lemma_opened(scopes);
            if params.len() <= 255 {
                assert(params.take(0) =~= Seq::empty());
                assert(params.take(0).to_set() =~= Set::empty());
                assert(seen.union(Set::empty()) =~= seen);
                lemma_params(params, 0, span, inside, seen);
                if let Ok(after) = with_params_from(params, 0, span, inside) {
                    lemma_block(body, after, env);
                }
            }
        },
        ExprView::Grouping { expr: inner, .. } => lemma_expr(*inner, scopes, env),
    }
}

proof fn lemma_exprs(exprs: Seq<ExprView>, i: int, scopes: Scopes, env: Env)
    requires
        scopes.len() > 0,
        0 <= i <= exprs.len(),
        forall|j: int|
            0 <= j < i ==> expr_fits(#[trigger] exprs[j], seen_in(scopes), env.functions),
    ensures
        match exprs_error(exprs, i, scopes, env) {
            None => exprs_fit(exprs, seen_in(scopes), env.functions),
            Some(error) => {
                &&& !exprs_fit(exprs, seen_in(scopes), env.functions)
                &&& exprs_wrong(exprs, seen_in(scopes), env, error)
            },
        },
    decreases exprs, exprs.len() - i,
{
    if i < exprs.len() {
        lemma_expr(exprs[i], scopes, env);
        if expr_error(exprs[i], scopes, env) is None {
            lemma_exprs(exprs, i + 1, scopes, env);
        }
    }
}

proof fn lemma_entries(entries: Seq<(ExprView, ExprView)>, i: int, scopes: Scopes, env: Env)
    requires
        scopes.len() > 0,
        0 <= i <= entries.len(),
        forall|j: int|
            0 <= j < i ==> expr_fits((#[trigger] entries[j]).0, seen_in(scopes), env.functions)
                && expr_fits(entries[j].1, seen_in(scopes), env.functions),
    ensures
        match entries_error(entries, i, scopes, env) {
            None => entries_fit(entries, seen_in(scopes), env.functions),
            Some(error) => {
                &&& !entries_fit(entries, seen_in(scopes), env.functions)
                &&& entries_wrong(entries, seen_in(scopes), env, error)
            },
        },
    decreases entries, entries.len() - i,
{
    if i < entries.len() {
        lemma_expr(entries[i].0, scopes, env);
        lemma_expr(entries[i].1, scopes, env);
        if expr_error(entries[i].0, scopes, env) is None && expr_error(
            entries[i].1,
            scopes,
            env,
        ) is None {
            lemma_entries(entries, i + 1, scopes, env);
        }
    }
}

proof fn lemma_block(stmts: Seq<StmtView>, scopes: Scopes, env: Env)
    requires
        scopes.len() > 0,
    ensures
        match scoped_error(stmts, scopes, env) {
            None => block_fits(stmts, seen_in(scopes), env.functions),
            Some(error) => {
                &&& !block_fits(stmts, seen_in(scopes), env.functions)
                &&& block_wrong(stmts, seen_in(scopes), env, error)
            },
        },
    decreases stmts, stmts.len() + 1,
{
    let inside = opened(scopes);
    let seen = seen_in(scopes);
    lemma_opened(scopes);
    assert(bound(stmts, 0) =~= Set::empty());
    assert(seen.union(Set::empty()) =~= seen);
    lemma_stmts(stmts, 0, inside, env, seen);
}

proof fn lemma_stmts(
    stmts: Seq<StmtView>,
    i: int,
    scopes: Scopes,
    env: Env,
    seen: Set<Seq<char>>,
)
    requires
        scopes.len() > 0,
        0 <= i <= stmts.len(),
        scopes.last() == bound(stmts, i),
        seen_in(scopes) == seen.union(bound(stmts, i)),
        forall|j: int|
            0 <= j < i ==> stmt_fits(
                #[trigger] stmts[j],
                seen.union(bound(stmts, j)),
                bound(stmts, j),
                env.functions,
            ),
    ensures
        match after_stmts(stmts, i, scopes, env) {
            Ok(_) => block_fits(stmts, seen, env.functions),
            Err(error) => {
                &&& !block_fits(stmts, seen, env.functions)
                &&& block_wrong(stmts, seen, env, error)
            },
        },
    decreases stmts, stmts.len() - i,
{
    if i < stmts.len() {
        lemma_stmt(stmts[i], scopes, env);
        if let Ok(next) = after_stmt(stmts[i], scopes, env) {
            lemma_bound(stmts, i);
            if let StmtView::Let { name, .. } = stmts[i] {
                assert(bound(stmts, i + 1) == bound(stmts, i).insert(name));
                assert(seen.union(bound(stmts, i)).insert(name) =~= seen.union(
                    bound(stmts, i + 1),
                ));
            }
            lemma_stmts(stmts, i + 1, next, env, seen);
        }
    }
}

proof fn lemma_bound(stmts: Seq<StmtView>, i: int)
    requires
        0 <= i < stmts.len(),
    ensures
        bound(stmts, i + 1) == if let StmtView::Let { name, .. } = stmts[i] {
            bound(stmts, i).insert(name)
        } else {
            bound(stmts, i)
        },
{
    let after = bound(stmts, i + 1);
    let before = bound(stmts, i);
    assert forall|name: Seq<char>| #[trigger] after.contains(name) == (before.contains(name)
        || stmts[i] is Let && stmts[i]->Let_name == name) by {
        if before.contains(name) {
            let j = choose|j: int|
                0 <= j < i && j < stmts.len() && (#[trigger] stmts[j]) is Let && stmts[j]->Let_name
                    == name;
            assert(stmts[j] is Let);
        }
    }
    if let StmtView::Let { name, .. } = stmts[i] {
        assert(after =~= before.insert(name));
    } else {
        assert(after =~= before);
    }
}

proof fn lemma_stmt(stmt: StmtView, scopes: Scopes, env: Env)
    requires
        scopes.len() > 0,
    ensures
        match after_stmt(stmt, scopes, env) {
            Ok(after) => {
                &&& stmt_fits(stmt, seen_in(scopes), scopes.last(), env.functions)
                &&& after.len() == scopes.len()
                &&& if let StmtView::Let { name, .. } = stmt {
                    after.last() == scopes.last().insert(name) && seen_in(after) == seen_in(
                        scopes,
                    ).insert(name)
                } else {
                    after == scopes
                }
            },
            Err(error) => {
                &&& !stmt_fits(stmt, seen_in(scopes), scopes.last(), env.functions)
                &&& stmt_wrong(stmt, seen_in(scopes), scopes.last(), env, error)
            },
        },
    decreases stmt, 0int,
{
    match stmt {
        StmtView::Import { .. } => {},
        StmtView::Function { .. } => {},
        StmtView::Let { name, initializer, .. } => {
            lemma_declared(scopes, name);
            lemma_expr(initializer, declared(scopes, name), env);
            lemma_expr(initializer, scopes, env);
        },
        StmtView::Assign { value, .. } => lemma_expr(value, scopes, env),
        StmtView::IndexAssign { target, index, value, .. } => {
            lemma_expr(target, scopes, env);
            lemma_expr(index, scopes, env);
            lemma_expr(value, scopes, env);
        },
        StmtView::Return { value, .. } => lemma_expr(value, scopes, env),
        StmtView::Expr { value, .. } => lemma_expr(value, scopes, env),
        StmtView::If { condition, then_branch, else_branch, .. } => {
            lemma_expr(condition, scopes, env);
            lemma_block(then_branch, scopes, env);
            lemma_block(else_branch, scopes, env);
        },
        StmtView::While { condition, body, .. } => {
            lemma_expr(condition, scopes, env);
            lemma_block(body, scopes, env);
        },
        StmtView::Block { statements, .. } => lemma_block(statements, scopes, env),
    }
}

/// Name analysis accepts a statement if and only if its names fit: a `let` is accepted whenever
/// its initializer is and its own block has not bound the name yet, whatever is bound around it.
/// The error of a statement that is not accepted says truly what the first name is that does not
/// fit, and where.
pub proof fn statements_are_accepted_when_their_names_fit(stmt: StmtView, scopes: Scopes, env: Env)
    requires
        scopes.len() > 0,
    ensures
        after_stmt(stmt, scopes, env) is Ok <==> stmt_fits(
            stmt,
            seen_in(scopes),
            scopes.last(),
            env.functions,
        ),
        after_stmt(stmt, scopes, env) matches Err(error) ==> stmt_wrong(
            stmt,
            seen_in(scopes),
            scopes.last(),
            env,
            error,
        ),
{
    lemma_stmt(stmt, scopes, env);
}

// ---------------------------------------------------------------------------
// Programs
// ---------------------------------------------------------------------------

/// A function that every program has.
pub open spec fn is_builtin(name: Seq<char>) -> bool {
    name == "print"@ || name == "len"@ || name == "type_of"@
}

/// Whether statement `i` declares a function of a name.
pub open spec fn declares(stmts: Seq<StmtView>, i: int, name: Seq<char>) -> bool {
    0 <= i < stmts.len() && stmts[i] is Function && stmts[i]->Function_name == name
}

/// Whether the functions that the first `n` statements declare have names of their own.
pub open spec fn functions_apart(stmts: Seq<StmtView>, n: int) -> bool {
    &&& forall|i: int, name: Seq<char>|
        i < n && #[trigger] declares(stmts, i, name) ==> !is_builtin(name)
    &&& forall|i: int, j: int, name: Seq<char>|
        i < j < n && #[trigger] declares(stmts, i, name) ==> !#[trigger] declares(stmts, j, name)
}

/// Whether functions are the ones that every program has, with one parameter each, and those that
/// the first `n` statements declare, with their parameters.
pub open spec fn functions_of(
    stmts: Seq<StmtView>,
    n: int,
    functions: Map<Seq<char>, usize>,
) -> bool {
    forall|name: Seq<char>|
        {
            &&& #[trigger] functions.contains_key(name) <==> is_builtin(name) || exists|i: int|
                i < n && #[trigger] declares(stmts, i, name)
            &&& is_builtin(name) ==> functions[name] == 1
            &&& forall|i: int|
                i < n && #[trigger] declares(stmts, i, name) ==> functions[name]
                    == stmts[i]->Function_params.len() as usize
        }
}

proof fn lemma_declarations(stmts: Seq<StmtView>, n: int, functions: Map<Seq<char>, usize>)
    requires
        0 <= n <= stmts.len(),
        functions_apart(stmts, n),
        functions_of(stmts, n, functions),
    ensures
        match with_declarations(stmts, n, functions) {
            Ok(all) => functions_apart(stmts, stmts.len() as int) && functions_of(
                stmts,
                stmts.len() as int,
                all,
            ),
            Err(error) => {
                &&& !functions_apart(stmts, stmts.len() as int)
                &&& exists|k: int|
                    {
                        &&& n <= k < stmts.len()
                        &&& functions_apart(stmts, k)
                        &&& (#[trigger] stmts[k]) matches StmtView::Function { name, span, .. }
                        &&& at(error, span)
                        &&& error.kind == (CompileErrorKindView::DuplicateFunction { name })
                        &&& is_builtin(name) || exists|i: int|
                            i < k && #[trigger] declares(stmts, i, name)
                    }
            },
        },
    decreases stmts.len() - n,
{
    if n < stmts.len() {
        if let StmtView::Function { name, params, .. } = stmts[n] {
            assert(declares(stmts, n, name));
            if !functions.contains_key(name) {
                let more = functions.insert(name, params.len() as usize);
                assert forall|other: Seq<char>|
                    {
                        &&& #[trigger] more.contains_key(other) <==> is_builtin(other) || exists|
                            i: int,
                        |
                            i < n + 1 && #[trigger] declares(stmts, i, other)
                        &&& is_builtin(other) ==> more[other] == 1
                        &&& forall|i: int|
                            i < n + 1 && #[trigger] declares(stmts, i, other) ==> more[other]
                                == stmts[i]->Function_params.len() as usize
                    } by {
                    assert(functions.contains_key(other) <==> is_builtin(other) || exists|i: int|
                        i < n && #[trigger] declares(stmts, i, other));
                }
                assert(functions_apart(stmts, n + 1)) by {
                    assert forall|i: int, other: Seq<char>|
                        i < n + 1 && #[trigger] declares(stmts, i, other) implies !is_builtin(
                        other,
                    ) by {
                        if i == n {
                            assert(!functions.contains_key(other));
                        }
                    }
                    assert forall|i: int, j: int, other: Seq<char>|
                        i < j < n + 1 && #[trigger] declares(stmts, i, other) implies
                        !#[trigger] declares(stmts, j, other) by {
                        if j == n && declares(stmts, j, other) {
                            assert(functions.contains_key(other));
                        }
                    }
                }
                lemma_declarations(stmts, n + 1, more);
            } else {
                if !is_builtin(name) {
                    let i = choose|i: int| i < n && #[trigger] declares(stmts, i, name);
                    assert(declares(stmts, i, name));
                }
            }
        } else {
            assert forall|name: Seq<char>| !#[trigger] declares(stmts, n, name) by {}
            assert(functions_of(stmts, n + 1, functions)) by {
                assert forall|other: Seq<char>|
                    {
                        &&& #[trigger] functions.contains_key(other) <==> is_builtin(other)
                            || exists|i: int| i < n + 1 && #[trigger] declares(stmts, i, other)
                        &&& is_builtin(other) ==> functions[other] == 1
                        &&& forall|i: int|
                            i < n + 1 && #[trigger] declares(stmts, i, other) ==> functions[other]
                                == stmts[i]->Function_params.len() as usize
                    } by {
                    assert(functions.contains_key(other) <==> is_builtin(other) || exists|i: int|
                        i < n && #[trigger] declares(stmts, i, other));
                    assert(!declares(stmts, n, other));
                    if exists|i: int| i < n && #[trigger] declares(stmts, i, other) {
                        let i = choose|i: int| i < n && #[trigger] declares(stmts, i, other);
                        assert(i < n + 1 && declares(stmts, i, other));
                    }
                }
            }
            lemma_declarations(stmts, n + 1, functions);
        }
    }
}

/// Whether the functions that can be called are the given ones, and other names that stand for
/// one of them.
pub open spec fn callable(
    aliases: Seq<(Seq<char>, Seq<char>)>,
    functions: Map<Seq<char>, usize>,
    all: Map<Seq<char>, usize>,
) -> bool {
    &&& forall|name: Seq<char>| #[trigger]
        functions.contains_key(name) ==> all.contains_key(name) && all[name] == functions[name]
    &&& forall|name: Seq<char>| #[trigger]
        all.contains_key(name) ==> functions.contains_key(name) || exists|k: int|
            0 <= k < aliases.len() && (#[trigger] aliases[k]).0 == name && all.contains_key(
                aliases[k].1,
            ) && all[name] == all[aliases[k].1]
    &&& forall|k: int|
        0 <= k < aliases.len() && functions.contains_key((#[trigger] aliases[k]).1)
            ==> all.contains_key(aliases[k].0)
}

proof fn lemma_aliases(
    aliases: Seq<(Seq<char>, Seq<char>)>,
    i: int,
    functions: Map<Seq<char>, usize>,
    all: Map<Seq<char>, usize>,
)
    requires
        0 <= i <= aliases.len(),
        callable(aliases.take(i), functions, all),
    ensures
        callable(aliases, functions, with_aliases(aliases, i, all)),
    decreases aliases.len() - i,
{
    if i < aliases.len() {
        let (alias, target) = aliases[i];
        let before = aliases.take(i);
        let after = aliases.take(i + 1);
        let more = if all.contains_key(target) && !all.contains_key(alias) {
            all.insert(alias, all[target])
        } else {
            all
        };
        assert(after[i] == aliases[i]);
        assert forall|name: Seq<char>| #[trigger] more.contains_key(name) implies
            functions.contains_key(name) || exists|k: int|
            0 <= k < after.len() && (#[trigger] after[k]).0 == name && more.contains_key(after[k].1)
                && more[name] == more[after[k].1] by {
            if all.contains_key(name) {
                if !functions.contains_key(name) {
                    let k = choose|k: int|
                        0 <= k < before.len() && (#[trigger] before[k]).0 == name
                            && all.contains_key(before[k].1) && all[name] == all[before[k].1];
                    assert(after[k] == before[k]);
                }
            } else {
                assert(after[i].0 == name);
            }
        }
        assert forall|k: int|
            0 <= k < after.len() && functions.contains_key((#[trigger] after[k]).1) implies
            more.contains_key(after[k].0) by {
            if k < i {
                assert(before[k] == after[k]);
            } else {
                assert(functions.contains_key(target));
            }
        }
        lemma_aliases(aliases, i + 1, functions, more);
    } else {
        assert(aliases.take(i) =~= aliases);
    }
}

proof fn lemma_main(stmts: Seq<StmtView>, i: int, scopes: Scopes, env: Env)
    requires
        0 <= i <= stmts.len(),
    ensures
        main_error(stmts, i, scopes, env) == match after_stmts(stmts, i, scopes, env) {
            Ok(_) => None,
            Err(error) => Some(error),
        },
    decreases stmts.len() - i,
{
    if i < stmts.len() {
        if let Ok(next) = after_stmt(stmts[i], scopes, env) {
            lemma_main(stmts, i + 1, next, env);
        }
    }
}

/// Whether the names of a function fit: it sees its parameters, and what its body binds.
pub open spec fn function_fits(stmt: StmtView, functions: Map<Seq<char>, usize>) -> bool {
    stmt matches StmtView::Function { params, body, .. } ==> {
        &&& params.len() <= 255
        &&& params.no_duplicates()
        &&& block_fits(body, params.to_set(), functions)
    }
}

/// Whether an error says truly what does not fit in a function.
pub open spec fn function_wrong(stmt: StmtView, env: Env, error: CompileErrorView) -> bool {
    stmt matches StmtView::Function { params, body, span, .. } && (params_wrong(params, span, error)
        || params.no_duplicates() && block_wrong(body, params.to_set(), env, error))
}

proof fn lemma_bodies(stmts: Seq<StmtView>, i: int, env: Env)
    requires
        0 <= i <= stmts.len(),
    ensures
        match bodies_error(stmts, i, env) {
            None => forall|j: int|
                i <= j < stmts.len() ==> function_fits(#[trigger] stmts[j], env.functions),
            Some(error) => exists|k: int|
                {
                    &&& i <= k < stmts.len()
                    &&& function_wrong(#[trigger] stmts[k], env, error)
                    &&& !function_fits(stmts[k], env.functions)
                    &&& forall|j: int|
                        i <= j < k ==> function_fits(#[trigger] stmts[j], env.functions)
                },
        },
    decreases stmts.len() - i,
{
    if i < stmts.len() {
        let none: Set<Seq<char>> = Set::empty();
        if let StmtView::Function { params, body, span, .. } = stmts[i] {
            let first: Scopes = seq![none];
            assert(params.len() <= 255 ==> with_params(params, span, first) == with_params_from(
                params,
                0,
                span,
                first,
            ));
            if params.len() <= 255 {
                assert(params.take(0) =~= Seq::empty());
                assert(params.take(0).to_set() =~= none);
                assert(seen_in(first) =~= none) by {
                    assert forall|name: Seq<char>| !#[trigger] seen_in(first).contains(name) by {}
                }
                assert(none.union(none) =~= none);
                lemma_params(params, 0, span, first, none);
                assert(none.union(params.to_set()) =~= params.to_set());
                if let Ok(after) = with_params_from(params, 0, span, first) {
                    lemma_block(body, after, env);
                }
            }
        }
        lemma_bodies(stmts, i + 1, env);
        if bodies_error(stmts, i, env) is Some {
            let error = bodies_error(stmts, i, env)->0;
            if function_fits(stmts[i], env.functions) {
                let k = choose|k: int|
                    {
                        &&& i + 1 <= k < stmts.len()
                        &&& function_wrong(#[trigger] stmts[k], env, error)
                        &&& !function_fits(stmts[k], env.functions)
                        &&& forall|j: int|
                            i + 1 <= j < k ==> function_fits(#[trigger] stmts[j], env.functions)
                    };
                assert(function_wrong(stmts[k], env, error));
            } else {
                assert(function_wrong(stmts[i], env, error));
            }
        }
    }
}

/// Name analysis accepts a program if and only if its names fit: its functions have names of their
/// own, every statement of every block uses only names that are bound before it in the block or
/// around it, no block binds a name twice, no function has a parameter twice, and every call of a
/// function gives it as many arguments as it takes. `functions` are the functions that can be
/// called. The error of a program that is not accepted says truly what the first name is that
/// does not fit, and where.
pub proof fn programs_are_accepted_when_their_names_fit(
    stmts: Seq<StmtView>,
    aliases: Seq<(Seq<char>, Seq<char>)>,
    exporting: Seq<Seq<char>>,
) -> (names: (Map<Seq<char>, usize>, Map<Seq<char>, usize>))
    ensures
        functions_apart(stmts, stmts.len() as int) ==> functions_of(
            stmts,
            stmts.len() as int,
            names.0,
        ) && callable(aliases, names.0, names.1),
        program_error(stmts, aliases, exporting) is None <==> {
            &&& functions_apart(stmts, stmts.len() as int)
            &&& block_fits(stmts, Set::empty(), names.1)
            &&& forall|i: int|
                0 <= i < stmts.len() ==> function_fits(#[trigger] stmts[i], names.1)
        },
        program_error(stmts, aliases, exporting) matches Some(error) ==> {
            let env = Env { functions: names.1, modules: exporting.to_set() };
            if !functions_apart(stmts, stmts.len() as int) {
                exists|k: int|
                    {
                        &&& 0 <= k < stmts.len()
                        &&& functions_apart(stmts, k)
                        &&& (#[trigger] stmts[k]) matches StmtView::Function { name, span, .. }
                        &&& at(error, span)
                        &&& error.kind == (CompileErrorKindView::DuplicateFunction { name })
                        &&& is_builtin(name) || exists|i: int|
                            i < k && #[trigger] declares(stmts, i, name)
                    }
            } else if !block_fits(stmts, Set::empty(), names.1) {
                block_wrong(stmts, Set::empty(), env, error)
            } else {
                exists|k: int|
                    {
                        &&& 0 <= k < stmts.len()
                        &&& function_wrong(#[trigger] stmts[k], env, error)
                        &&& forall|j: int|
                            0 <= j < k ==> function_fits(#[trigger] stmts[j], names.1)
                    }
            }
        },
{
    let builtin = builtin_arities();
    assert(functions_apart(stmts, 0));
    assert(functions_of(stmts, 0, builtin)) by {
        reveal_strlit("print");
        reveal_strlit("len");
        reveal_strlit("type_of");
        assert("print"@.len() != "len"@.len());
        assert("print"@.len() != "type_of"@.len());
        assert("len"@.len() != "type_of"@.len());
    }
    lemma_declarations(stmts, 0, builtin);
    match with_declarations(stmts, 0, builtin) {
        Ok(functions) => {
            assert(aliases.take(0) =~= Seq::empty());
            assert(callable(aliases.take(0), functions, functions));
            lemma_aliases(aliases, 0, functions, functions);
            let all = with_aliases(aliases, 0, functions);
            let env = Env { functions: all, modules: exporting.to_set() };
            let none: Set<Seq<char>> = Set::empty();
            let first: Scopes = seq![none];
            assert(seen_in(first) =~= none) by {
                assert forall|name: Seq<char>| !#[trigger] seen_in(first).contains(name) by {}
            }
            assert(bound(stmts, 0) =~= none);
            assert(none.union(none) =~= none);
            lemma_stmts(stmts, 0, first, env, none);
            lemma_main(stmts, 0, first, env);
            lemma_bodies(stmts, 0, env);
            (functions, all)
        },
        Err(_) => (builtin, builtin),
    }
}

} // verus!
