//! Which names a piece of source uses: called functions, free variables, captured variables.

use vstd::prelude::*;

use crate::bytecode::chunk::string_views;
use crate::bytecode::instruction::FunctionId;
use crate::compiler::ast::{
    entry_views, expr_view, expr_views, stmt_view, stmt_views, Expr, ExprView, Stmt, StmtView,
};
use crate::names::NameMap;
use crate::text::str_equal;

verus! {

// ---------------------------------------------------------------------------
// Called functions
// ---------------------------------------------------------------------------

/// Whether an expression calls a function by a name.
pub open spec fn expr_calls(expr: ExprView, name: Seq<char>) -> bool
    decreases expr, 0int,
{
    match expr {
        ExprView::Literal { .. } => false,
        ExprView::Variable { .. } => false,
        ExprView::Binary { lhs, rhs, .. } => expr_calls(*lhs, name) || expr_calls(*rhs, name),
        ExprView::Call { callee, args, .. } => callee == name || exprs_call(args, 0, name),
        ExprView::Function { body, .. } => stmts_call(body, 0, name),
        ExprView::Index { target, index, .. } => expr_calls(*target, name) || expr_calls(
            *index,
            name,
        ),
        ExprView::Array { elements, .. } => exprs_call(elements, 0, name),
        ExprView::MapLiteral { entries, .. } => entries_call(entries, 0, name),
        ExprView::Grouping { expr, .. } => expr_calls(*expr, name),
    }
}

pub open spec fn exprs_call(exprs: Seq<ExprView>, i: int, name: Seq<char>) -> bool
    decreases exprs, exprs.len() - i,
{
    0 <= i < exprs.len() && (expr_calls(exprs[i], name) || exprs_call(exprs, i + 1, name))
}

pub open spec fn entries_call(entries: Seq<(ExprView, ExprView)>, i: int, name: Seq<char>) -> bool
    decreases entries, entries.len() - i,
{
    0 <= i < entries.len() && (expr_calls(entries[i].0, name) || expr_calls(entries[i].1, name)
        || entries_call(entries, i + 1, name))
}

/// Whether a statement calls a function by a name.
pub open spec fn stmt_calls(stmt: StmtView, name: Seq<char>) -> bool
    decreases stmt, 0int,
{
    match stmt {
        StmtView::Import { .. } => false,
        StmtView::Let { initializer, .. } => expr_calls(initializer, name),
        StmtView::Function { body, .. } => stmts_call(body, 0, name),
        StmtView::Assign { value, .. } => expr_calls(value, name),
        StmtView::IndexAssign { target, index, value, .. } => expr_calls(target, name)
            || expr_calls(index, name) || expr_calls(value, name),
        StmtView::Return { value, .. } => expr_calls(value, name),
        StmtView::If { condition, then_branch, else_branch, .. } => expr_calls(condition, name)
            || stmts_call(then_branch, 0, name) || stmts_call(else_branch, 0, name),
        StmtView::While { condition, body, .. } => expr_calls(condition, name) || stmts_call(
            body,
            0,
            name,
        ),
        StmtView::Block { statements, .. } => stmts_call(statements, 0, name),
        StmtView::Expr { value, .. } => expr_calls(value, name),
    }
}

pub open spec fn stmts_call(stmts: Seq<StmtView>, i: int, name: Seq<char>) -> bool
    decreases stmts, stmts.len() - i,
{
    0 <= i < stmts.len() && (stmt_calls(stmts[i], name) || stmts_call(stmts, i + 1, name))
}

/// Whether an expression calls a function by a name.
pub fn expr_references_call(expr: &Expr, name: &str) -> (found: bool)
    ensures
        found == expr_calls(expr@, name@),
    decreases *expr, 0int,
{
    match expr {
        Expr::Literal { .. } => false,
        Expr::Variable { .. } => false,
        Expr::Binary { lhs, rhs, .. } => {
            expr_references_call(lhs, name) || expr_references_call(rhs, name)
        },
        Expr::Call { callee, args, .. } => {
            str_equal(callee.as_str(), name) || exprs_reference_call(args, name)
        },
        Expr::Function { body, .. } => stmts_reference_call(body, name),
        Expr::Index { target, index, .. } => {
            expr_references_call(target, name) || expr_references_call(index, name)
        },
        Expr::Array { elements, .. } => exprs_reference_call(elements, name),
        Expr::MapLiteral { entries, .. } => {
            let ghost views = entry_views(entries@);
            let mut i: usize = 0;
            while i < entries.len()
                invariant
                    i <= entries@.len(),
                    views == entry_views(entries@),
                    decreases_to!(*expr => *entries),
                    expr_calls(expr@, name@) == entries_call(views, 0, name@),
                    entries_call(views, 0, name@) == entries_call(views, i as int, name@),
                decreases entries.len() - i,
            {
                assert(views[i as int] == (expr_view(entries@[i as int].0), expr_view(
                    entries@[i as int].1,
                )));
                let entry = &entries[i];
                assert(decreases_to!(*entries => entries@[i as int]));
                if expr_references_call(&entry.0, name) || expr_references_call(&entry.1, name) {
                    return true;
                }
                i = i + 1;
            }
            false
        },
        Expr::Grouping { expr, .. } => expr_references_call(expr, name),
    }
}

fn exprs_reference_call(exprs: &Vec<Expr>, name: &str) -> (found: bool)
    ensures
        found == exprs_call(expr_views(exprs@), 0, name@),
    decreases *exprs, 0int,
{
    let ghost views = expr_views(exprs@);
    let mut i: usize = 0;
    while i < exprs.len()
        invariant
            i <= exprs@.len(),
            views == expr_views(exprs@),
            exprs_call(views, 0, name@) == exprs_call(views, i as int, name@),
        decreases exprs.len() - i,
    {
        assert(views[i as int] == expr_view(exprs@[i as int]));
        if expr_references_call(&exprs[i], name) {
            return true;
        }
        i = i + 1;
    }
    false
}

/// Whether a statement calls a function by a name.
pub fn stmt_references_call(stmt: &Stmt, name: &str) -> (found: bool)
    ensures
        found == stmt_calls(stmt@, name@),
    decreases *stmt, 0int,
{
    match stmt {
        Stmt::Import { .. } => false,
        Stmt::Let { initializer, .. } => expr_references_call(initializer, name),
        Stmt::Function { body, .. } => stmts_reference_call(body, name),
        Stmt::Assign { value, .. } => expr_references_call(value, name),
        Stmt::IndexAssign { target, index, value, .. } => {
            expr_references_call(target, name) || expr_references_call(index, name)
                || expr_references_call(value, name)
        },
        Stmt::Return { value, .. } => expr_references_call(value, name),
        Stmt::If { condition, then_branch, else_branch, .. } => {
            expr_references_call(condition, name) || stmts_reference_call(then_branch, name)
                || stmts_reference_call(else_branch, name)
        },
        Stmt::While { condition, body, .. } => {
            expr_references_call(condition, name) || stmts_reference_call(body, name)
        },
        Stmt::Block { statements, .. } => stmts_reference_call(statements, name),
        Stmt::Expr { value, .. } => expr_references_call(value, name),
    }
}

/// Whether statements call a function by a name.
pub fn stmts_reference_call(stmts: &Vec<Stmt>, name: &str) -> (found: bool)
    ensures
        found == stmts_call(stmt_views(stmts@), 0, name@),
    decreases *stmts, 0int,
{
    let ghost views = stmt_views(stmts@);
    let mut i: usize = 0;
    while i < stmts.len()
        invariant
            i <= stmts@.len(),
            views == stmt_views(stmts@),
            stmts_call(views, 0, name@) == stmts_call(views, i as int, name@),
        decreases stmts.len() - i,
    {
        assert(views[i as int] == stmt_view(stmts@[i as int]));
        if stmt_references_call(&stmts[i], name) {
            return true;
        }
        i = i + 1;
    }
    false
}

// ---------------------------------------------------------------------------
// Statements that always return
// ---------------------------------------------------------------------------

/// Whether statements return on every path.
pub open spec fn always_return(stmts: Seq<StmtView>) -> bool
    decreases stmts, 1int,
{
    stmts.len() > 0 && always_returns(stmts[stmts.len() - 1])
}

/// Whether a statement returns on every path.
pub open spec fn always_returns(stmt: StmtView) -> bool
    decreases stmt, 0int,
{
    match stmt {
        StmtView::Return { .. } => true,
        StmtView::Block { statements, .. } => always_return(statements),
        StmtView::If { then_branch, else_branch, .. } => else_branch.len() > 0 && always_return(
            then_branch,
        ) && always_return(else_branch),
        _ => false,
    }
}

/// Whether statements return on every path.
pub fn statements_definitely_return(stmts: &Vec<Stmt>) -> (leaves: bool)
    ensures
        leaves == always_return(stmt_views(stmts@)),
    decreases *stmts, 1int,
{
    if stmts.len() == 0 {
        return false;
    }
    let last: usize = stmts.len() - 1;
    assert(stmt_views(stmts@)[last as int] == stmt_view(stmts@[last as int]));
    stmt_definitely_returns(&stmts[last])
}

fn stmt_definitely_returns(stmt: &Stmt) -> (leaves: bool)
    ensures
        leaves == always_returns(stmt@),
    decreases *stmt, 0int,
{
    match stmt {
        Stmt::Return { .. } => true,
        Stmt::Block { statements, .. } => statements_definitely_return(statements),
        Stmt::If { then_branch, else_branch, .. } => {
            assert(stmt_views(else_branch@).len() == else_branch@.len());
            else_branch.len() > 0 && statements_definitely_return(then_branch)
                && statements_definitely_return(else_branch)
        },
        _ => false,
    }
}

// ---------------------------------------------------------------------------
// Free variables
// ---------------------------------------------------------------------------

/// A list of names with one more, unless it is bound, a function, or in the list.
pub open spec fn noted(
    name: Seq<char>,
    bound: Set<Seq<char>>,
    functions: Map<Seq<char>, FunctionId>,
    free: Seq<Seq<char>>,
) -> Seq<Seq<char>> {
    if bound.contains(name) || functions.contains_key(name) || free.contains(name) {
        free
    } else {
        free.push(name)
    }
}

/// A set of names with those of a list from `i` on.
pub open spec fn with_names(names: Seq<Seq<char>>, i: int, set: Set<Seq<char>>) -> Set<Seq<char>>
    decreases names.len() - i,
{
    if 0 <= i < names.len() {
        with_names(names, i + 1, set.insert(names[i]))
    } else {
        set
    }
}

/// The free variables behind those of an expression, in the order of their first use.
pub open spec fn free_in_expr(
    expr: ExprView,
    bound: Set<Seq<char>>,
    functions: Map<Seq<char>, FunctionId>,
    free: Seq<Seq<char>>,
) -> Seq<Seq<char>>
    decreases expr, 0int,
{
    match expr {
        ExprView::Literal { .. } => free,
        ExprView::Variable { name, .. } => noted(name, bound, functions, free),
        ExprView::Binary { lhs, rhs, .. } => free_in_expr(
            *rhs,
            bound,
            functions,
            free_in_expr(*lhs, bound, functions, free),
        ),
        ExprView::Call { callee, args, .. } => free_in_exprs(
            args,
            0,
            bound,
            functions,
            noted(callee, bound, functions, free),
        ),
        ExprView::Function { params, body, .. } => free_in_stmts(
            body,
            0,
            with_names(params, 0, bound),
            functions,
            free,
        ).1,
        ExprView::Index { target, index, .. } => free_in_expr(
            *index,
            bound,
            functions,
            free_in_expr(*target, bound, functions, free),
        ),
        ExprView::Array { elements, .. } => free_in_exprs(elements, 0, bound, functions, free),
        ExprView::MapLiteral { entries, .. } => free_in_entries(entries, 0, bound, functions, free),
        ExprView::Grouping { expr, .. } => free_in_expr(*expr, bound, functions, free),
    }
}

pub open spec fn free_in_exprs(
    exprs: Seq<ExprView>,
    i: int,
    bound: Set<Seq<char>>,
    functions: Map<Seq<char>, FunctionId>,
    free: Seq<Seq<char>>,
) -> Seq<Seq<char>>
    decreases exprs, exprs.len() - i,
{
    if 0 <= i < exprs.len() {
        free_in_exprs(
            exprs,
            i + 1,
            bound,
            functions,
            free_in_expr(exprs[i], bound, functions, free),
        )
    } else {
        free
    }
}

pub open spec fn free_in_entries(
    entries: Seq<(ExprView, ExprView)>,
    i: int,
    bound: Set<Seq<char>>,
    functions: Map<Seq<char>, FunctionId>,
    free: Seq<Seq<char>>,
) -> Seq<Seq<char>>
    decreases entries, entries.len() - i,
{
    if 0 <= i < entries.len() {
        let keys = free_in_expr(entries[i].0, bound, functions, free);
        free_in_entries(
            entries,
            i + 1,
            bound,
            functions,
            free_in_expr(entries[i].1, bound, functions, keys),
        )
    } else {
        free
    }
}

/// The bound names and the free variables behind a statement.
pub open spec fn free_in_stmt(
    stmt: StmtView,
    bound: Set<Seq<char>>,
    functions: Map<Seq<char>, FunctionId>,
    free: Seq<Seq<char>>,
) -> (Set<Seq<char>>, Seq<Seq<char>>)
    decreases stmt, 0int,
{
    match stmt {
        StmtView::Import { .. } => (bound, free),
        StmtView::Function { .. } => (bound, free),
        StmtView::Let { name, initializer, .. } => if initializer is Function {
            (
                bound.insert(name),
                free_in_expr(initializer, bound.insert(name), functions, free),
            )
        } else {
            (bound.insert(name), free_in_expr(initializer, bound, functions, free))
        },
        StmtView::Assign { name, value, .. } => (
            bound,
            free_in_expr(value, bound, functions, noted(name, bound, functions, free)),
        ),
        StmtView::IndexAssign { target, index, value, .. } => {
            let free = free_in_expr(target, bound, functions, free);
            let free = free_in_expr(index, bound, functions, free);
            (bound, free_in_expr(value, bound, functions, free))
        },
        StmtView::Return { value, .. } => (bound, free_in_expr(value, bound, functions, free)),
        StmtView::Expr { value, .. } => (bound, free_in_expr(value, bound, functions, free)),
        StmtView::If { condition, then_branch, else_branch, .. } => {
            let free = free_in_expr(condition, bound, functions, free);
            let free = free_in_stmts(then_branch, 0, bound, functions, free).1;
            (bound, free_in_stmts(else_branch, 0, bound, functions, free).1)
        },
        StmtView::While { condition, body, .. } => {
            let free = free_in_expr(condition, bound, functions, free);
            (bound, free_in_stmts(body, 0, bound, functions, free).1)
        },
        StmtView::Block { statements, .. } => (
            bound,
            free_in_stmts(statements, 0, bound, functions, free).1,
        ),
    }
}

pub open spec fn free_in_stmts(
    stmts: Seq<StmtView>,
    i: int,
    bound: Set<Seq<char>>,
    functions: Map<Seq<char>, FunctionId>,
    free: Seq<Seq<char>>,
) -> (Set<Seq<char>>, Seq<Seq<char>>)
    decreases stmts, stmts.len() - i,
{
    if 0 <= i < stmts.len() {
        let (next, free) = free_in_stmt(stmts[i], bound, functions, free);
        free_in_stmts(stmts, i + 1, next, functions, free)
    } else {
        (bound, free)
    }
}

/// The free variables of a function, in the order of their first use.
pub open spec fn free_names(
    params: Seq<Seq<char>>,
    body: Seq<StmtView>,
    functions: Map<Seq<char>, FunctionId>,
) -> Seq<Seq<char>> {
    free_in_stmts(body, 0, with_names(params, 0, Set::empty()), functions, Seq::empty()).1
}

/// Names bound while the free variables are collected.
struct FreeVariables<'a> {
    functions: &'a NameMap<FunctionId>,
    bound: NameMap<bool>,
    free: Vec<String>,
}

impl<'a> FreeVariables<'a> {
    spec fn fs(&self) -> Map<Seq<char>, FunctionId> {
        self.functions@
    }

    spec fn bound(&self) -> Set<Seq<char>> {
        self.bound@.dom()
    }

    spec fn free(&self) -> Seq<Seq<char>> {
        string_views(self.free@)
    }

    fn bind(&mut self, name: &str)
        ensures
            final(self).fs() == old(self).fs(),
            final(self).bound() == old(self).bound().insert(name@),
            final(self).free() == old(self).free(),
    {
        self.bound.insert(name, true);
        assert(self.bound() =~= old(self).bound().insert(name@));
    }

    fn note(&mut self, name: &str)
        ensures
            final(self).fs() == old(self).fs(),
            final(self).bound() == old(self).bound(),
            final(self).free() == noted(
                name@,
                old(self).bound(),
                old(self).fs(),
                old(self).free(),
            ),
    {
        if self.bound.contains(name) || self.functions.contains(name) {
            return;
        }
        let mut i: usize = 0;
        while i < self.free.len()
            invariant
                *self == *old(self),
                i <= self.free@.len(),
                forall|k: int| 0 <= k < i ==> #[trigger] self.free()[k] != name@,
            decreases self.free.len() - i,
        {
            assert(self.free()[i as int] == self.free@[i as int]@);
            if str_equal(self.free[i].as_str(), name) {
                assert(self.free().contains(name@));
                return;
            }
            i = i + 1;
        }
        assert(!self.free().contains(name@));
        self.free.push(name.to_owned());
        assert(self.free() =~= old(self).free().push(name@));
    }

    fn in_expr(&mut self, expr: &Expr)
        ensures
            final(self).fs() == old(self).fs(),
            final(self).bound() == old(self).bound(),
            final(self).free() == free_in_expr(
                expr@,
                old(self).bound(),
                old(self).fs(),
                old(self).free(),
            ),
        decreases *expr, 0int,
    {
        match expr {
            Expr::Literal { .. } => {},
            Expr::Variable { name, .. } => {
                self.note(name.as_str());
            },
            Expr::Binary { lhs, rhs, .. } => {
                self.in_expr(lhs);
                self.in_expr(rhs);
            },
            Expr::Call { callee, args, .. } => {
                self.note(callee.as_str());
                self.in_exprs(args);
            },
            Expr::Function { params, body, .. } => {
                let saved = self.bound.clone();
                self.bind_all(params);
                self.in_stmts(body);
                self.bound = saved;
            },
            Expr::Index { target, index, .. } => {
                self.in_expr(target);
                self.in_expr(index);
            },
            Expr::Array { elements, .. } => {
                self.in_exprs(elements);
            },
            Expr::MapLiteral { entries, .. } => {
                self.in_entries(entries);
            },
            Expr::Grouping { expr, .. } => {
                self.in_expr(expr);
            },
        }
    }

    fn bind_all(&mut self, names: &Vec<String>)
        ensures
            final(self).fs() == old(self).fs(),
            final(self).bound() == with_names(string_views(names@), 0, old(self).bound()),
            final(self).free() == old(self).free(),
    {
        let ghost views = string_views(names@);
        let mut i: usize = 0;
        while i < names.len()
            invariant
                i <= names@.len(),
                views == string_views(names@),
                self.fs() == old(self).fs(),
                self.free() == old(self).free(),
                with_names(views, 0, old(self).bound()) == with_names(
                    views,
                    i as int,
                    self.bound(),
                ),
            decreases names.len() - i,
        {
            assert(views[i as int] == names@[i as int]@);
            self.bind(names[i].as_str());
            i = i + 1;
        }
    }

    fn in_exprs(&mut self, exprs: &Vec<Expr>)
        ensures
            final(self).fs() == old(self).fs(),
            final(self).bound() == old(self).bound(),
            final(self).free() == free_in_exprs(
                expr_views(exprs@),
                0,
                old(self).bound(),
                old(self).fs(),
                old(self).free(),
            ),
        decreases *exprs, 0int,
    {
        let ghost views = expr_views(exprs@);
        let mut i: usize = 0;
        while i < exprs.len()
            invariant
                i <= exprs@.len(),
                views == expr_views(exprs@),
                self.fs() == old(self).fs(),
                self.bound() == old(self).bound(),
                free_in_exprs(views, 0, self.bound(), self.fs(), old(self).free())
                    == free_in_exprs(views, i as int, self.bound(), self.fs(), self.free()),
            decreases exprs.len() - i,
        {
            assert(views[i as int] == expr_view(exprs@[i as int]));
            self.in_expr(&exprs[i]);
            i = i + 1;
        }
    }

    fn in_entries(&mut self, entries: &Vec<(Expr, Expr)>)
        ensures
            final(self).fs() == old(self).fs(),
            final(self).bound() == old(self).bound(),
            final(self).free() == free_in_entries(
                entry_views(entries@),
                0,
                old(self).bound(),
                old(self).fs(),
                old(self).free(),
            ),
        decreases *entries, 0int,
    {
        let ghost views = entry_views(entries@);
        let mut i: usize = 0;
        while i < entries.len()
            invariant
                i <= entries@.len(),
                views == entry_views(entries@),
                self.fs() == old(self).fs(),
                self.bound() == old(self).bound(),
                free_in_entries(views, 0, self.bound(), self.fs(), old(self).free())
                    == free_in_entries(views, i as int, self.bound(), self.fs(), self.free()),
            decreases entries.len() - i,
        {
            assert(views[i as int] == (expr_view(entries@[i as int].0), expr_view(
                entries@[i as int].1,
            )));
            let entry = &entries[i];
            assert(decreases_to!(*entries => entries@[i as int]));
            self.in_expr(&entry.0);
            self.in_expr(&entry.1);
            i = i + 1;
        }
    }

    fn in_block(&mut self, stmts: &Vec<Stmt>)
        ensures
            final(self).fs() == old(self).fs(),
            final(self).bound() == old(self).bound(),
            final(self).free() == free_in_stmts(
                stmt_views(stmts@),
                0,
                old(self).bound(),
                old(self).fs(),
                old(self).free(),
            ).1,
        decreases *stmts, 1int,
    {
        let saved = self.bound.clone();
        self.in_stmts(stmts);
        self.bound = saved;
    }

    fn in_stmts(&mut self, stmts: &Vec<Stmt>)
        ensures
            final(self).fs() == old(self).fs(),
            (final(self).bound(), final(self).free()) == free_in_stmts(
                stmt_views(stmts@),
                0,
                old(self).bound(),
                old(self).fs(),
                old(self).free(),
            ),
        decreases *stmts, 0int,
    {
        let ghost views = stmt_views(stmts@);
        let mut i: usize = 0;
        while i < stmts.len()
            invariant
                i <= stmts@.len(),
                views == stmt_views(stmts@),
                self.fs() == old(self).fs(),
                free_in_stmts(views, 0, old(self).bound(), self.fs(), old(self).free())
                    == free_in_stmts(views, i as int, self.bound(), self.fs(), self.free()),
            decreases stmts.len() - i,
        {
            assert(views[i as int] == stmt_view(stmts@[i as int]));
            self.in_stmt(&stmts[i]);
            i = i + 1;
        }
    }

    fn in_stmt(&mut self, stmt: &Stmt)
        ensures
            final(self).fs() == old(self).fs(),
            (final(self).bound(), final(self).free()) == free_in_stmt(
                stmt@,
                old(self).bound(),
                old(self).fs(),
                old(self).free(),
            ),
        decreases *stmt, 0int,
    {
        match stmt {
            Stmt::Import { .. } => {},
            Stmt::Function { .. } => {},
            Stmt::Let { name, initializer, .. } => {
                if matches!(initializer, Expr::Function { .. }) {
                    self.bind(name.as_str());
                    self.in_expr(initializer);
                } else {
                    self.in_expr(initializer);
                    self.bind(name.as_str());
                }
            },
            Stmt::Assign { name, value, .. } => {
                self.note(name.as_str());
                self.in_expr(value);
            },
            Stmt::IndexAssign { target, index, value, .. } => {
                self.in_expr(target);
                self.in_expr(index);
                self.in_expr(value);
            },
            Stmt::Return { value, .. } => {
                self.in_expr(value);
            },
            Stmt::Expr { value, .. } => {
                self.in_expr(value);
            },
            Stmt::If { condition, then_branch, else_branch, .. } => {
                self.in_expr(condition);
                self.in_block(then_branch);
                self.in_block(else_branch);
            },
            Stmt::While { condition, body, .. } => {
                self.in_expr(condition);
                self.in_block(body);
            },
            Stmt::Block { statements, .. } => {
                self.in_block(statements);
            },
        }
    }
}

/// The free variables of a function, in the order of their first use.
pub fn free_variables(
    body: &Vec<Stmt>,
    params: &Vec<String>,
    functions: &NameMap<FunctionId>,
) -> (free: Vec<String>)
    ensures
        string_views(free@) == free_names(string_views(params@), stmt_views(body@), functions@),
{
    let mut scan = FreeVariables { functions, bound: NameMap::new(), free: Vec::new() };
    assert(scan.bound() =~= Set::empty());
    assert(scan.free() =~= Seq::empty());
    scan.bind_all(params);
    scan.in_stmts(body);
    scan.free
}

// ---------------------------------------------------------------------------
// Captured variables
// ---------------------------------------------------------------------------

/// The names that function literals in an expression use from outside.
pub open spec fn captured_in_expr(
    expr: ExprView,
    functions: Map<Seq<char>, FunctionId>,
    names: Set<Seq<char>>,
) -> Set<Seq<char>>
    decreases expr, 0int,
{
    match expr {
        ExprView::Literal { .. } => names,
        ExprView::Variable { .. } => names,
        ExprView::Binary { lhs, rhs, .. } => captured_in_expr(
            *rhs,
            functions,
            captured_in_expr(*lhs, functions, names),
        ),
        ExprView::Call { args, .. } => captured_in_exprs(args, 0, functions, names),
        ExprView::Function { params, body, .. } => with_names(
            free_names(params, body, functions),
            0,
            names,
        ),
        ExprView::Index { target, index, .. } => captured_in_expr(
            *index,
            functions,
            captured_in_expr(*target, functions, names),
        ),
        ExprView::Array { elements, .. } => captured_in_exprs(elements, 0, functions, names),
        ExprView::MapLiteral { entries, .. } => captured_in_entries(entries, 0, functions, names),
        ExprView::Grouping { expr, .. } => captured_in_expr(*expr, functions, names),
    }
}

pub open spec fn captured_in_exprs(
    exprs: Seq<ExprView>,
    i: int,
    functions: Map<Seq<char>, FunctionId>,
    names: Set<Seq<char>>,
) -> Set<Seq<char>>
    decreases exprs, exprs.len() - i,
{
    if 0 <= i < exprs.len() {
        captured_in_exprs(exprs, i + 1, functions, captured_in_expr(exprs[i], functions, names))
    } else {
        names
    }
}

pub open spec fn captured_in_entries(
    entries: Seq<(ExprView, ExprView)>,
    i: int,
    functions: Map<Seq<char>, FunctionId>,
    names: Set<Seq<char>>,
) -> Set<Seq<char>>
    decreases entries, entries.len() - i,
{
    if 0 <= i < entries.len() {
        captured_in_entries(
            entries,
            i + 1,
            functions,
            captured_in_expr(
                entries[i].1,
                functions,
                captured_in_expr(entries[i].0, functions, names),
            ),
        )
    } else {
        names
    }
}

/// The names that function literals in a statement use from outside.
pub open spec fn captured_in_stmt(
    stmt: StmtView,
    functions: Map<Seq<char>, FunctionId>,
    names: Set<Seq<char>>,
) -> Set<Seq<char>>
    decreases stmt, 0int,
{
    match stmt {
        StmtView::Import { .. } => names,
        StmtView::Function { .. } => names,
        StmtView::Let { initializer, .. } => captured_in_expr(initializer, functions, names),
        StmtView::Assign { value, .. } => captured_in_expr(value, functions, names),
        StmtView::IndexAssign { target, index, value, .. } => captured_in_expr(
            value,
            functions,
            captured_in_expr(index, functions, captured_in_expr(target, functions, names)),
        ),
        StmtView::Return { value, .. } => captured_in_expr(value, functions, names),
        StmtView::Expr { value, .. } => captured_in_expr(value, functions, names),
        StmtView::If { condition, then_branch, else_branch, .. } => captured_in_stmts(
            else_branch,
            0,
            functions,
            captured_in_stmts(
                then_branch,
                0,
                functions,
                captured_in_expr(condition, functions, names),
            ),
        ),
        StmtView::While { condition, body, .. } => captured_in_stmts(
            body,
            0,
            functions,
            captured_in_expr(condition, functions, names),
        ),
        StmtView::Block { statements, .. } => captured_in_stmts(statements, 0, functions, names),
    }
}

pub open spec fn captured_in_stmts(
    stmts: Seq<StmtView>,
    i: int,
    functions: Map<Seq<char>, FunctionId>,
    names: Set<Seq<char>>,
) -> Set<Seq<char>>
    decreases stmts, stmts.len() - i,
{
    if 0 <= i < stmts.len() {
        captured_in_stmts(stmts, i + 1, functions, captured_in_stmt(stmts[i], functions, names))
    } else {
        names
    }
}

/// Adds the names that function literals in an expression use from outside.
fn collect_captured_in_expr(
    expr: &Expr,
    functions: &NameMap<FunctionId>,
    names: &mut NameMap<bool>,
)
    ensures
        final(names)@.dom() == captured_in_expr(expr@, functions@, old(names)@.dom()),
    decreases *expr, 0int,
{
    match expr {
        Expr::Literal { .. } => {},
        Expr::Variable { .. } => {},
        Expr::Binary { lhs, rhs, .. } => {
            collect_captured_in_expr(lhs, functions, names);
            collect_captured_in_expr(rhs, functions, names);
        },
        Expr::Call { args, .. } => {
            collect_captured_in_exprs(args, functions, names);
        },
        Expr::Function { params, body, .. } => {
            let free = free_variables(body, params, functions);
            let ghost views = string_views(free@);
            let mut i: usize = 0;
            while i < free.len()
                invariant
                    i <= free@.len(),
                    views == string_views(free@),
                    with_names(views, 0, old(names)@.dom()) == with_names(
                        views,
                        i as int,
                        names@.dom(),
                    ),
                decreases free.len() - i,
            {
                assert(views[i as int] == free@[i as int]@);
                let ghost before = names@;
                names.insert(free[i].as_str(), true);
                assert(names@.dom() =~= before.dom().insert(free@[i as int]@));
                i = i + 1;
            }
        },
        Expr::Index { target, index, .. } => {
            collect_captured_in_expr(target, functions, names);
            collect_captured_in_expr(index, functions, names);
        },
        Expr::Array { elements, .. } => {
            collect_captured_in_exprs(elements, functions, names);
        },
        Expr::MapLiteral { entries, .. } => {
            collect_captured_in_entries(entries, functions, names);
        },
        Expr::Grouping { expr, .. } => {
            collect_captured_in_expr(expr, functions, names);
        },
    }
}

fn collect_captured_in_exprs(
    exprs: &Vec<Expr>,
    functions: &NameMap<FunctionId>,
    names: &mut NameMap<bool>,
)
    ensures
        final(names)@.dom() == captured_in_exprs(
            expr_views(exprs@),
            0,
            functions@,
            old(names)@.dom(),
        ),
    decreases *exprs, 0int,
{
    let ghost views = expr_views(exprs@);
    let mut i: usize = 0;
    while i < exprs.len()
        invariant
            i <= exprs@.len(),
            views == expr_views(exprs@),
            captured_in_exprs(views, 0, functions@, old(names)@.dom()) == captured_in_exprs(
                views,
                i as int,
                functions@,
                names@.dom(),
            ),
        decreases exprs.len() - i,
    {
        assert(views[i as int] == expr_view(exprs@[i as int]));
        collect_captured_in_expr(&exprs[i], functions, names);
        i = i + 1;
    }
}

fn collect_captured_in_entries(
    entries: &Vec<(Expr, Expr)>,
    functions: &NameMap<FunctionId>,
    names: &mut NameMap<bool>,
)
    ensures
        final(names)@.dom() == captured_in_entries(
            entry_views(entries@),
            0,
            functions@,
            old(names)@.dom(),
        ),
    decreases *entries, 0int,
{
    let ghost views = entry_views(entries@);
    let mut i: usize = 0;
    while i < entries.len()
        invariant
            i <= entries@.len(),
            views == entry_views(entries@),
            captured_in_entries(views, 0, functions@, old(names)@.dom()) == captured_in_entries(
                views,
                i as int,
                functions@,
                names@.dom(),
            ),
        decreases entries.len() - i,
    {
        assert(views[i as int] == (expr_view(entries@[i as int].0), expr_view(
            entries@[i as int].1,
        )));
        let entry = &entries[i];
        assert(decreases_to!(*entries => entries@[i as int]));
        collect_captured_in_expr(&entry.0, functions, names);
        collect_captured_in_expr(&entry.1, functions, names);
        i = i + 1;
    }
}

/// Adds the names that function literals in a statement use from outside.
fn collect_captured_in_stmt(
    stmt: &Stmt,
    functions: &NameMap<FunctionId>,
    names: &mut NameMap<bool>,
)
    ensures
        final(names)@.dom() == captured_in_stmt(stmt@, functions@, old(names)@.dom()),
    decreases *stmt, 0int,
{
    match stmt {
        Stmt::Import { .. } => {},
        Stmt::Function { .. } => {},
        Stmt::Let { initializer, .. } => {
            collect_captured_in_expr(initializer, functions, names);
        },
        Stmt::Assign { value, .. } => {
            collect_captured_in_expr(value, functions, names);
        },
        Stmt::IndexAssign { target, index, value, .. } => {
            collect_captured_in_expr(target, functions, names);
            collect_captured_in_expr(index, functions, names);
            collect_captured_in_expr(value, functions, names);
        },
        Stmt::Return { value, .. } => {
            collect_captured_in_expr(value, functions, names);
        },
        Stmt::Expr { value, .. } => {
            collect_captured_in_expr(value, functions, names);
        },
        Stmt::If { condition, then_branch, else_branch, .. } => {
            collect_captured_in_expr(condition, functions, names);
            collect_captured_in_stmts(then_branch, functions, names);
            collect_captured_in_stmts(else_branch, functions, names);
        },
        Stmt::While { condition, body, .. } => {
            collect_captured_in_expr(condition, functions, names);
            collect_captured_in_stmts(body, functions, names);
        },
        Stmt::Block { statements, .. } => {
            collect_captured_in_stmts(statements, functions, names);
        },
    }
}

fn collect_captured_in_stmts(
    stmts: &Vec<Stmt>,
    functions: &NameMap<FunctionId>,
    names: &mut NameMap<bool>,
)
    ensures
        final(names)@.dom() == captured_in_stmts(
            stmt_views(stmts@),
            0,
            functions@,
            old(names)@.dom(),
        ),
    decreases *stmts, 0int,
{
    let ghost views = stmt_views(stmts@);
    let mut i: usize = 0;
    while i < stmts.len()
        invariant
            i <= stmts@.len(),
            views == stmt_views(stmts@),
            captured_in_stmts(views, 0, functions@, old(names)@.dom()) == captured_in_stmts(
                views,
                i as int,
                functions@,
                names@.dom(),
            ),
        decreases stmts.len() - i,
    {
        assert(views[i as int] == stmt_view(stmts@[i as int]));
        collect_captured_in_stmt(&stmts[i], functions, names);
        i = i + 1;
    }
}

/// The names that function literals in statements use from outside.
pub fn captured_names(stmts: &Vec<Stmt>, functions: &NameMap<FunctionId>) -> (names: NameMap<bool>)
    ensures
        names@.dom() == captured_in_stmts(stmt_views(stmts@), 0, functions@, Set::empty()),
{
    let mut names: NameMap<bool> = NameMap::new();
    assert(names@.dom() =~= Set::empty());
    collect_captured_in_stmts(stmts, functions, &mut names);
    names
}

} // verus!
