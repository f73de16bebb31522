//! Abstract syntax tree of the source language.
//!
//! Parser output is close to the user-written program: every statement and expression carries a
//! source span, so later compiler stages can report diagnostics that point back to the file.

use vstd::prelude::*;

use crate::bytecode::chunk::{clone_strings, string_views};
use crate::diagnostics::span::SourceSpan;

verus! {

/// Root node for one parsed source file or linked module set.
#[derive(Debug, PartialEq, Eq)]
pub struct ProgramAst {
    /// Top-level statements in source order.
    pub statements: Vec<Stmt>,
}

/// Statement forms.
#[derive(Debug, PartialEq, Eq)]
pub enum Stmt {
    /// `import name;` declaration used by the module loader.
    Import { module: String, span: SourceSpan },
    /// `let name = expr;` local binding.
    Let { name: String, initializer: Expr, exported: bool, span: SourceSpan },
    /// Top-level function declaration.
    Function {
        name: String,
        params: Vec<String>,
        body: Vec<Stmt>,
        exported: bool,
        span: SourceSpan,
    },
    /// Assignment to an existing local variable.
    Assign { name: String, value: Expr, span: SourceSpan },
    /// Assignment through an array/map index expression.
    IndexAssign { target: Expr, index: Expr, value: Expr, span: SourceSpan },
    /// `return expr;` from the current function or main chunk.
    Return { value: Expr, span: SourceSpan },
    /// Conditional statement with optional else branch.
    If { condition: Expr, then_branch: Vec<Stmt>, else_branch: Vec<Stmt>, span: SourceSpan },
    /// Loop statement with a boolean condition.
    While { condition: Expr, body: Vec<Stmt>, span: SourceSpan },
    /// Braced statement sequence.
    Block { statements: Vec<Stmt>, span: SourceSpan },
    /// Expression used only for its side effects.
    Expr { value: Expr, span: SourceSpan },
}

/// Expression forms.
#[derive(Debug, PartialEq, Eq)]
pub enum Expr {
    /// Integer, boolean, string, or nil literal.
    Literal { value: Literal, span: SourceSpan },
    /// Local variable or namespaced function alias.
    Variable { name: String, span: SourceSpan },
    /// Binary operator expression.
    Binary { op: BinaryOp, lhs: Box<Expr>, rhs: Box<Expr>, span: SourceSpan },
    /// Function call with positional arguments.
    Call { callee: String, args: Vec<Expr>, span: SourceSpan },
    /// Anonymous function expression that can capture outer locals.
    Function { params: Vec<String>, body: Vec<Stmt>, span: SourceSpan },
    /// Array/map indexing expression.
    Index { target: Box<Expr>, index: Box<Expr>, span: SourceSpan },
    /// Array literal.
    Array { elements: Vec<Expr>, span: SourceSpan },
    /// Map literal represented as key/value expression pairs.
    MapLiteral { entries: Vec<(Expr, Expr)>, span: SourceSpan },
    /// Parenthesized expression used to preserve source span.
    Grouping { expr: Box<Expr>, span: SourceSpan },
}

/// Literal values accepted by the parser.
#[derive(Debug, PartialEq, Eq)]
pub enum Literal {
    Int(i64),
    Bool(bool),
    String(String),
    Nil,
}

/// Binary operators ordered by parser precedence.
#[derive(Clone, Copy, Debug, PartialEq, Eq, Structural)]
pub enum BinaryOp {
    Add,
    Sub,
    Mul,
    Div,
    Equal,
    NotEqual,
    Less,
    LessEqual,
    Greater,
    GreaterEqual,
}

/// The mathematical content of a literal.
pub enum LiteralView {
    Int(i64),
    Bool(bool),
    Text(Seq<char>),
    Nil,
}

/// The mathematical content of an expression.
pub enum ExprView {
    Literal { value: LiteralView, span: SourceSpan },
    Variable { name: Seq<char>, span: SourceSpan },
    Binary { op: BinaryOp, lhs: Box<ExprView>, rhs: Box<ExprView>, span: SourceSpan },
    Call { callee: Seq<char>, args: Seq<ExprView>, span: SourceSpan },
    Function { params: Seq<Seq<char>>, body: Seq<StmtView>, span: SourceSpan },
    Index { target: Box<ExprView>, index: Box<ExprView>, span: SourceSpan },
    Array { elements: Seq<ExprView>, span: SourceSpan },
    MapLiteral { entries: Seq<(ExprView, ExprView)>, span: SourceSpan },
    Grouping { expr: Box<ExprView>, span: SourceSpan },
}

/// The mathematical content of a statement.
pub enum StmtView {
    Import { module: Seq<char>, span: SourceSpan },
    Let { name: Seq<char>, initializer: ExprView, exported: bool, span: SourceSpan },
    Function {
        name: Seq<char>,
        params: Seq<Seq<char>>,
        body: Seq<StmtView>,
        exported: bool,
        span: SourceSpan,
    },
    Assign { name: Seq<char>, value: ExprView, span: SourceSpan },
    IndexAssign { target: ExprView, index: ExprView, value: ExprView, span: SourceSpan },
    Return { value: ExprView, span: SourceSpan },
    If {
        condition: ExprView,
        then_branch: Seq<StmtView>,
        else_branch: Seq<StmtView>,
        span: SourceSpan,
    },
    While { condition: ExprView, body: Seq<StmtView>, span: SourceSpan },
    Block { statements: Seq<StmtView>, span: SourceSpan },
    Expr { value: ExprView, span: SourceSpan },
}

impl View for Literal {
    type V = LiteralView;

    open spec fn view(&self) -> LiteralView {
        match self {
            Literal::Int(value) => LiteralView::Int(*value),
            Literal::Bool(value) => LiteralView::Bool(*value),
            Literal::String(value) => LiteralView::Text(value@),
            Literal::Nil => LiteralView::Nil,
        }
    }
}

/// The content of an expression.
pub open spec fn expr_view(expr: Expr) -> ExprView
    decreases expr,
{
    match expr {
        Expr::Literal { value, span } => ExprView::Literal { value: value@, span },
        Expr::Variable { name, span } => ExprView::Variable { name: name@, span },
        Expr::Binary { op, lhs, rhs, span } => ExprView::Binary {
            op,
            lhs: Box::new(expr_view(*lhs)),
            rhs: Box::new(expr_view(*rhs)),
            span,
        },
        Expr::Call { callee, args, span } => ExprView::Call {
            callee: callee@,
            args: expr_views(args@),
            span,
        },
        Expr::Function { params, body, span } => ExprView::Function {
            params: string_views(params@),
            body: stmt_views(body@),
            span,
        },
        Expr::Index { target, index, span } => ExprView::Index {
            target: Box::new(expr_view(*target)),
            index: Box::new(expr_view(*index)),
            span,
        },
        Expr::Array { elements, span } => ExprView::Array { elements: expr_views(elements@), span },
        Expr::MapLiteral { entries, span } => ExprView::MapLiteral {
            entries: entry_views(entries@),
            span,
        },
        Expr::Grouping { expr, span } => ExprView::Grouping {
            expr: Box::new(expr_view(*expr)),
            span,
        },
    }
}

/// The contents of a list of expressions.
pub open spec fn expr_views(exprs: Seq<Expr>) -> Seq<ExprView>
    decreases exprs,
{
    Seq::new(
        exprs.len(),
        |i: int|
            if 0 <= i < exprs.len() {
                expr_view(exprs[i])
            } else {
                arbitrary()
            },
    )
}

/// The contents of a list of key/value pairs.
pub open spec fn entry_views(entries: Seq<(Expr, Expr)>) -> Seq<(ExprView, ExprView)>
    decreases entries,
{
    Seq::new(
        entries.len(),
        |i: int|
            if 0 <= i < entries.len() {
                (expr_view(entries[i].0), expr_view(entries[i].1))
            } else {
                arbitrary()
            },
    )
}

/// The content of a statement.
pub open spec fn stmt_view(stmt: Stmt) -> StmtView
    decreases stmt,
{
    match stmt {
        Stmt::Import { module, span } => StmtView::Import { module: module@, span },
        Stmt::Let { name, initializer, exported, span } => StmtView::Let {
            name: name@,
            initializer: expr_view(initializer),
            exported,
            span,
        },
        Stmt::Function { name, params, body, exported, span } => StmtView::Function {
            name: name@,
            params: string_views(params@),
            body: stmt_views(body@),
            exported,
            span,
        },
        Stmt::Assign { name, value, span } => StmtView::Assign {
            name: name@,
            value: expr_view(value),
            span,
        },
        Stmt::IndexAssign { target, index, value, span } => StmtView::IndexAssign {
            target: expr_view(target),
            index: expr_view(index),
            value: expr_view(value),
            span,
        },
        Stmt::Return { value, span } => StmtView::Return { value: expr_view(value), span },
        Stmt::If { condition, then_branch, else_branch, span } => StmtView::If {
            condition: expr_view(condition),
            then_branch: stmt_views(then_branch@),
            else_branch: stmt_views(else_branch@),
            span,
        },
        Stmt::While { condition, body, span } => StmtView::While {
            condition: expr_view(condition),
            body: stmt_views(body@),
            span,
        },
        Stmt::Block { statements, span } => StmtView::Block {
            statements: stmt_views(statements@),
            span,
        },
        Stmt::Expr { value, span } => StmtView::Expr { value: expr_view(value), span },
    }
}

/// The contents of a list of statements.
pub open spec fn stmt_views(stmts: Seq<Stmt>) -> Seq<StmtView>
    decreases stmts,
{
    Seq::new(
        stmts.len(),
        |i: int|
            if 0 <= i < stmts.len() {
                stmt_view(stmts[i])
            } else {
                arbitrary()
            },
    )
}

impl View for Expr {
    type V = ExprView;

    open spec fn view(&self) -> ExprView {
        expr_view(*self)
    }
}

impl View for Stmt {
    type V = StmtView;

    open spec fn view(&self) -> StmtView {
        stmt_view(*self)
    }
}

impl View for ProgramAst {
    type V = Seq<StmtView>;

    open spec fn view(&self) -> Seq<StmtView> {
        stmt_views(self.statements@)
    }
}

impl ExprView {
    /// The source range of an expression.
    pub open spec fn span(self) -> SourceSpan {
        match self {
            ExprView::Literal { span, .. } => span,
            ExprView::Variable { span, .. } => span,
            ExprView::Binary { span, .. } => span,
            ExprView::Call { span, .. } => span,
            ExprView::Function { span, .. } => span,
            ExprView::Index { span, .. } => span,
            ExprView::Array { span, .. } => span,
            ExprView::MapLiteral { span, .. } => span,
            ExprView::Grouping { span, .. } => span,
        }
    }
}

impl Expr {
    /// Returns the source span covered by this expression.
    pub fn span(&self) -> (span: SourceSpan)
        ensures
            span == self@.span(),
    {
        match self {
            Expr::Literal { span, .. } => *span,
            Expr::Variable { span, .. } => *span,
            Expr::Binary { span, .. } => *span,
            Expr::Call { span, .. } => *span,
            Expr::Function { span, .. } => *span,
            Expr::Index { span, .. } => *span,
            Expr::Array { span, .. } => *span,
            Expr::MapLiteral { span, .. } => *span,
            Expr::Grouping { span, .. } => *span,
        }
    }
}

impl Clone for Literal {
    fn clone(&self) -> (copy: Self)
        ensures
            copy@ == self@,
    {
        match self {
            Literal::Int(value) => Literal::Int(*value),
            Literal::Bool(value) => Literal::Bool(*value),
            Literal::String(value) => Literal::String(value.clone()),
            Literal::Nil => Literal::Nil,
        }
    }
}

/// Copies an expression.
fn clone_expr(expr: &Expr) -> (copy: Expr)
    ensures
        expr_view(copy) == expr_view(*expr),
    decreases *expr,
{
    match expr {
        Expr::Literal { value, span } => Expr::Literal { value: value.clone(), span: *span },
        Expr::Variable { name, span } => Expr::Variable { name: name.clone(), span: *span },
        Expr::Binary { op, lhs, rhs, span } => Expr::Binary {
            op: *op,
            lhs: Box::new(clone_expr(lhs)),
            rhs: Box::new(clone_expr(rhs)),
            span: *span,
        },
        Expr::Call { callee, args, span } => Expr::Call {
            callee: callee.clone(),
            args: clone_exprs(args),
            span: *span,
        },
        Expr::Function { params, body, span } => Expr::Function {
            params: clone_strings(params),
            body: clone_stmts(body),
            span: *span,
        },
        Expr::Index { target, index, span } => Expr::Index {
            target: Box::new(clone_expr(target)),
            index: Box::new(clone_expr(index)),
            span: *span,
        },
        Expr::Array { elements, span } => Expr::Array {
            elements: clone_exprs(elements),
            span: *span,
        },
        Expr::MapLiteral { entries, span } => Expr::MapLiteral {
            entries: clone_entries(entries),
            span: *span,
        },
        Expr::Grouping { expr, span } => Expr::Grouping {
            expr: Box::new(clone_expr(expr)),
            span: *span,
        },
    }
}

/// Copies a list of expressions.
fn clone_exprs(exprs: &Vec<Expr>) -> (copy: Vec<Expr>)
    ensures
        expr_views(copy@) == expr_views(exprs@),
    decreases *exprs,
{
    let mut copy: Vec<Expr> = Vec::new();
    let mut i: usize = 0;
    while i < exprs.len()
        invariant
            i <= exprs@.len(),
            copy@.len() == i,
            forall|k: int| 0 <= k < i ==> expr_view(#[trigger] copy@[k]) == expr_view(exprs@[k]),
        decreases exprs.len() - i,
    {
        copy.push(clone_expr(&exprs[i]));
        i = i + 1;
    }
    assert(expr_views(copy@) == expr_views(exprs@));
    copy
}

/// Copies a list of key/value pairs.
fn clone_entries(entries: &Vec<(Expr, Expr)>) -> (copy: Vec<(Expr, Expr)>)
    ensures
        entry_views(copy@) == entry_views(entries@),
    decreases *entries,
{
    let mut copy: Vec<(Expr, Expr)> = Vec::new();
    let mut i: usize = 0;
    while i < entries.len()
        invariant
            i <= entries@.len(),
            copy@.len() == i,
            forall|k: int|
                0 <= k < i ==> expr_view((#[trigger] copy@[k]).0) == expr_view(entries@[k].0)
                    && expr_view(copy@[k].1) == expr_view(entries@[k].1),
        decreases entries.len() - i,
    {
        let entry = &entries[i];
        assert(decreases_to!(*entries => entries@[i as int]));
        copy.push((clone_expr(&entry.0), clone_expr(&entry.1)));
        i = i + 1;
    }
    assert(entry_views(copy@) == entry_views(entries@));
    copy
}

/// Copies a statement.
fn clone_stmt(stmt: &Stmt) -> (copy: Stmt)
    ensures
        stmt_view(copy) == stmt_view(*stmt),
    decreases *stmt,
{
    match stmt {
        Stmt::Import { module, span } => Stmt::Import { module: module.clone(), span: *span },
        Stmt::Let { name, initializer, exported, span } => Stmt::Let {
            name: name.clone(),
            initializer: clone_expr(initializer),
            exported: *exported,
            span: *span,
        },
        Stmt::Function { name, params, body, exported, span } => Stmt::Function {
            name: name.clone(),
            params: clone_strings(params),
            body: clone_stmts(body),
            exported: *exported,
            span: *span,
        },
        Stmt::Assign { name, value, span } => Stmt::Assign {
            name: name.clone(),
            value: clone_expr(value),
            span: *span,
        },
        Stmt::IndexAssign { target, index, value, span } => Stmt::IndexAssign {
            target: clone_expr(target),
            index: clone_expr(index),
            value: clone_expr(value),
            span: *span,
        },
        Stmt::Return { value, span } => Stmt::Return { value: clone_expr(value), span: *span },
        Stmt::If { condition, then_branch, else_branch, span } => Stmt::If {
            condition: clone_expr(condition),
            then_branch: clone_stmts(then_branch),
            else_branch: clone_stmts(else_branch),
            span: *span,
        },
        Stmt::While { condition, body, span } => Stmt::While {
            condition: clone_expr(condition),
            body: clone_stmts(body),
            span: *span,
        },
        Stmt::Block { statements, span } => Stmt::Block {
            statements: clone_stmts(statements),
            span: *span,
        },
        Stmt::Expr { value, span } => Stmt::Expr { value: clone_expr(value), span: *span },
    }
}

/// Copies a list of statements.
fn clone_stmts(stmts: &Vec<Stmt>) -> (copy: Vec<Stmt>)
    ensures
        stmt_views(copy@) == stmt_views(stmts@),
    decreases *stmts,
{
    let mut copy: Vec<Stmt> = Vec::new();
    let mut i: usize = 0;
    while i < stmts.len()
        invariant
            i <= stmts@.len(),
            copy@.len() == i,
            forall|k: int| 0 <= k < i ==> stmt_view(#[trigger] copy@[k]) == stmt_view(stmts@[k]),
        decreases stmts.len() - i,
    {
        copy.push(clone_stmt(&stmts[i]));
        i = i + 1;
    }
    assert(stmt_views(copy@) == stmt_views(stmts@));
    copy
}

impl Clone for Expr {
    fn clone(&self) -> (copy: Self)
        ensures
            copy@ == self@,
    {
        clone_expr(self)
    }
}

impl Clone for Stmt {
    fn clone(&self) -> (copy: Self)
        ensures
            copy@ == self@,
    {
        clone_stmt(self)
    }
}

impl Clone for ProgramAst {
    fn clone(&self) -> (copy: Self)
        ensures
            copy@ == self@,
    {
        ProgramAst { statements: clone_stmts(&self.statements) }
    }
}

} // verus!
