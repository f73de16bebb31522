//! Programs that are written down are parsed back.

use vstd::prelude::*;

use crate::compiler::ast::{BinaryOp, ExprView, LiteralView, StmtView};
use crate::compiler::error::CompileErrorView;
use crate::compiler::lexer::{TokenKindView, TokenView};
use crate::compiler::parser::{
    assignment, binary_expr, binary_rest, block_rest, call_rest, entry_list, expr_list, gives,
    joined, kind_at, module_name_rest, operator, param_list, parse_assignment_or_expr, parse_binary,
    parse_block, parse_call, parse_condition, parse_declaration, parse_entries, parse_expr,
    parse_exprs, parse_function, parse_if, parse_import, parse_let, parse_primary, parse_program,
    parse_signature, parse_stmt, parse_stmts, parse_while, parsed,
};
use crate::diagnostics::span::SourceSpan;

verus! {

// ---------------------------------------------------------------------------
// Programs as tokens
// ---------------------------------------------------------------------------

/// How tightly an operator binds.
pub open spec fn binds(op: BinaryOp) -> nat {
    match op {
        BinaryOp::Equal | BinaryOp::NotEqual => 0,
        BinaryOp::Less | BinaryOp::LessEqual | BinaryOp::Greater | BinaryOp::GreaterEqual => 1,
        BinaryOp::Add | BinaryOp::Sub => 2,
        BinaryOp::Mul | BinaryOp::Div => 3,
    }
}

/// The token of an operator.
pub open spec fn op_token(op: BinaryOp) -> TokenKindView {
    match op {
        BinaryOp::Equal => TokenKindView::EqualEqual,
        BinaryOp::NotEqual => TokenKindView::BangEqual,
        BinaryOp::Less => TokenKindView::Less,
        BinaryOp::LessEqual => TokenKindView::LessEqual,
        BinaryOp::Greater => TokenKindView::Greater,
        BinaryOp::GreaterEqual => TokenKindView::GreaterEqual,
        BinaryOp::Add => TokenKindView::Plus,
        BinaryOp::Sub => TokenKindView::Minus,
        BinaryOp::Mul => TokenKindView::Star,
        BinaryOp::Div => TokenKindView::Slash,
    }
}

/// How tightly an expression holds together; only operators let go.
pub open spec fn strength(expr: ExprView) -> nat {
    match expr {
        ExprView::Binary { op, .. } => binds(op),
        _ => 4,
    }
}

/// The last dot among the first `n` characters of a name, or a negative number.
pub open spec fn last_dot(name: Seq<char>, n: int) -> int
    decreases n,
{
    if n <= 0 {
        -1
    } else if name[n - 1] == '.' {
        n - 1
    } else {
        last_dot(name, n - 1)
    }
}

/// The tokens of a name: its parts with dots between them.
pub open spec fn name_tokens(name: Seq<char>) -> Seq<TokenKindView>
    decreases name.len(),
{
    let k = last_dot(name, name.len() as int);
    if 0 <= k < name.len() {
        name_tokens(name.take(k)) + seq![
            TokenKindView::Dot,
            TokenKindView::Identifier(name.skip(k + 1)),
        ]
    } else {
        seq![TokenKindView::Identifier(name)]
    }
}

pub open spec fn literal_token(value: LiteralView) -> TokenKindView {
    match value {
        LiteralView::Int(value) => TokenKindView::Integer(value),
        LiteralView::Text(value) => TokenKindView::Text(value),
        LiteralView::Bool(true) => TokenKindView::True,
        LiteralView::Bool(false) => TokenKindView::False,
        LiteralView::Nil => TokenKindView::Nil,
    }
}

/// The tokens of parameters from `i` on, with commas between them.
pub open spec fn params_tokens(params: Seq<Seq<char>>, i: int) -> Seq<TokenKindView>
    decreases params.len() - i,
{
    if 0 <= i && i + 1 < params.len() {
        seq![TokenKindView::Identifier(params[i]), TokenKindView::Comma] + params_tokens(
            params,
            i + 1,
        )
    } else if 0 <= i < params.len() {
        seq![TokenKindView::Identifier(params[i])]
    } else {
        Seq::empty()
    }
}

/// The tokens of parameters in parentheses.
pub open spec fn signature_tokens(params: Seq<Seq<char>>) -> Seq<TokenKindView> {
    seq![TokenKindView::LeftParen] + params_tokens(params, 0) + seq![TokenKindView::RightParen]
}

/// The tokens of an expression.
pub open spec fn expr_tokens(expr: ExprView) -> Seq<TokenKindView>
    decreases expr, 0int,
{
    match expr {
        ExprView::Literal { value, .. } => seq![literal_token(value)],
        ExprView::Variable { name, .. } => name_tokens(name),
        ExprView::Binary { op, lhs, rhs, .. } => expr_tokens(*lhs) + seq![op_token(op)]
            + expr_tokens(*rhs),
        ExprView::Call { callee, args, .. } => name_tokens(callee) + seq![TokenKindView::LeftParen]
            + list_tokens(args, 0) + seq![TokenKindView::RightParen],
        ExprView::Function { params, body, .. } => seq![TokenKindView::Fn] + signature_tokens(
            params,
        ) + block_tokens(body),
        ExprView::Index { target, index, .. } => expr_tokens(*target) + seq![
            TokenKindView::LeftBracket,
        ] + expr_tokens(*index) + seq![TokenKindView::RightBracket],
        ExprView::Array { elements, .. } => seq![TokenKindView::LeftBracket] + list_tokens(
            elements,
            0,
        ) + seq![TokenKindView::RightBracket],
        ExprView::MapLiteral { entries, .. } => seq![TokenKindView::LeftBrace] + entries_tokens(
            entries,
            0,
        ) + seq![TokenKindView::RightBrace],
        ExprView::Grouping { expr, .. } => seq![TokenKindView::LeftParen] + expr_tokens(*expr)
            + seq![TokenKindView::RightParen],
    }
}

/// The tokens of expressions from `i` on, with commas between them.
pub open spec fn list_tokens(exprs: Seq<ExprView>, i: int) -> Seq<TokenKindView>
    decreases exprs, exprs.len() - i,
{
    if 0 <= i && i + 1 < exprs.len() {
        expr_tokens(exprs[i]) + seq![TokenKindView::Comma] + list_tokens(exprs, i + 1)
    } else if 0 <= i < exprs.len() {
        expr_tokens(exprs[i])
    } else {
        Seq::empty()
    }
}

/// The tokens of a key/value pair.
pub open spec fn entry_tokens(entry: (ExprView, ExprView)) -> Seq<TokenKindView>
    decreases entry, 0int,
{
    expr_tokens(entry.0) + seq![TokenKindView::Colon] + expr_tokens(entry.1)
}

/// The tokens of key/value pairs from `i` on, with commas between them.
pub open spec fn entries_tokens(entries: Seq<(ExprView, ExprView)>, i: int) -> Seq<TokenKindView>
    decreases entries, entries.len() - i,
{
    if 0 <= i && i + 1 < entries.len() {
        entry_tokens(entries[i]) + seq![TokenKindView::Comma] + entries_tokens(entries, i + 1)
    } else if 0 <= i < entries.len() {
        entry_tokens(entries[i])
    } else {
        Seq::empty()
    }
}

/// The tokens of statements in braces.
pub open spec fn block_tokens(body: Seq<StmtView>) -> Seq<TokenKindView>
    decreases body, body.len() + 1,
{
    seq![TokenKindView::LeftBrace] + stmts_tokens(body, 0) + seq![TokenKindView::RightBrace]
}

/// The tokens of statements from `i` on.
pub open spec fn stmts_tokens(stmts: Seq<StmtView>, i: int) -> Seq<TokenKindView>
    decreases stmts, stmts.len() - i,
{
    if 0 <= i < stmts.len() {
        stmt_tokens(stmts[i]) + stmts_tokens(stmts, i + 1)
    } else {
        Seq::empty()
    }
}

/// The tokens of a declaration's mark.
pub open spec fn export_tokens(exported: bool) -> Seq<TokenKindView> {
    if exported {
        seq![TokenKindView::Export]
    } else {
        Seq::empty()
    }
}

/// The tokens of a condition in parentheses.
pub open spec fn condition_tokens(condition: ExprView) -> Seq<TokenKindView>
    decreases condition, 1int,
{
    seq![TokenKindView::LeftParen] + expr_tokens(condition) + seq![TokenKindView::RightParen]
}

/// The tokens of a statement.
pub open spec fn stmt_tokens(stmt: StmtView) -> Seq<TokenKindView>
    decreases stmt, 0int,
{
    match stmt {
        StmtView::Import { module, .. } => seq![TokenKindView::Import] + name_tokens(module) + seq![
            TokenKindView::Semicolon,
        ],
        StmtView::Let { name, initializer, exported, .. } => export_tokens(exported) + seq![
            TokenKindView::Let,
            TokenKindView::Identifier(name),
            TokenKindView::Equal,
        ] + expr_tokens(initializer) + seq![TokenKindView::Semicolon],
        StmtView::Function { name, params, body, exported, .. } => export_tokens(exported) + seq![
            TokenKindView::Fn,
            TokenKindView::Identifier(name),
        ] + signature_tokens(params) + block_tokens(body),
        StmtView::Assign { name, value, .. } => name_tokens(name) + seq![TokenKindView::Equal]
            + expr_tokens(value) + seq![TokenKindView::Semicolon],
        StmtView::IndexAssign { target, index, value, .. } => expr_tokens(target) + seq![
            TokenKindView::LeftBracket,
        ] + expr_tokens(index) + seq![TokenKindView::RightBracket] + seq![TokenKindView::Equal]
            + expr_tokens(value) + seq![TokenKindView::Semicolon],
        StmtView::Return { value, .. } => seq![TokenKindView::Return] + expr_tokens(value) + seq![
            TokenKindView::Semicolon,
        ],
        StmtView::Expr { value, .. } => expr_tokens(value) + seq![TokenKindView::Semicolon],
        StmtView::If { condition, then_branch, else_branch, .. } => if else_branch.len() == 0 {
            seq![TokenKindView::If] + condition_tokens(condition) + block_tokens(then_branch)
        } else {
            seq![TokenKindView::If] + condition_tokens(condition) + block_tokens(then_branch)
                + seq![TokenKindView::Else] + block_tokens(else_branch)
        },
        StmtView::While { condition, body, .. } => seq![TokenKindView::While] + condition_tokens(
            condition,
        ) + block_tokens(body),
        StmtView::Block { statements, .. } => block_tokens(statements),
    }
}

// ---------------------------------------------------------------------------
// Programs that can be written down
// ---------------------------------------------------------------------------

/// Whether an expression can be written without more parentheses: an operand of an operator binds
/// tighter than the operator, or as tight where it stands on the left.
pub open spec fn writable(expr: ExprView) -> bool
    decreases expr,
{
    match expr {
        ExprView::Literal { .. } | ExprView::Variable { .. } => true,
        ExprView::Binary { op, lhs, rhs, .. } => {
            &&& writable(*lhs)
            &&& writable(*rhs)
            &&& strength(*lhs) >= binds(op)
            &&& strength(*rhs) > binds(op)
        },
        ExprView::Call { args, .. } => forall|i: int|
            0 <= i < args.len() ==> writable(#[trigger] args[i]),
        ExprView::Function { body, .. } => forall|i: int|
            0 <= i < body.len() ==> writable_stmt(#[trigger] body[i], false),
        ExprView::Index { target, index, .. } => writable(*target) && strength(*target) == 4
            && writable(*index),
        ExprView::Array { elements, .. } => forall|i: int|
            0 <= i < elements.len() ==> writable(#[trigger] elements[i]),
        ExprView::MapLiteral { entries, .. } => forall|i: int|
            0 <= i < entries.len() ==> writable((#[trigger] entries[i]).0) && writable(entries[i].1),
        ExprView::Grouping { expr, .. } => writable(*expr),
    }
}

/// Whether an expression can begin a statement: a brace begins a block, and `fn` begins a
/// declaration where declarations may stand.
pub open spec fn leads(expr: ExprView, outside: bool) -> bool {
    &&& !(expr_tokens(expr)[0] is LeftBrace)
    &&& outside ==> !(expr_tokens(expr)[0] is Fn)
}

/// Whether a statement can be written down, inside a block or outside all of them.
pub open spec fn writable_stmt(stmt: StmtView, outside: bool) -> bool
    decreases stmt,
{
    match stmt {
        StmtView::Import { .. } => outside,
        StmtView::Let { initializer, exported, .. } => writable(initializer) && (exported ==>
            outside),
        StmtView::Function { body, .. } => outside && forall|i: int|
            0 <= i < body.len() ==> writable_stmt(#[trigger] body[i], false),
        StmtView::Assign { value, .. } => writable(value),
        StmtView::IndexAssign { target, index, value, .. } => writable(target) && strength(target)
            == 4 && writable(index) && writable(value) && leads(target, outside),
        StmtView::Return { value, .. } => writable(value),
        StmtView::Expr { value, .. } => writable(value) && leads(value, outside),
        StmtView::If { condition, then_branch, else_branch, .. } => {
            &&& writable(condition)
            &&& forall|i: int|
                0 <= i < then_branch.len() ==> writable_stmt(#[trigger] then_branch[i], false)
            &&& forall|i: int|
                0 <= i < else_branch.len() ==> writable_stmt(#[trigger] else_branch[i], false)
        },
        StmtView::While { condition, body, .. } => {
            &&& writable(condition)
            &&& forall|i: int| 0 <= i < body.len() ==> writable_stmt(#[trigger] body[i], false)
        },
        StmtView::Block { statements, .. } => forall|i: int|
            0 <= i < statements.len() ==> writable_stmt(#[trigger] statements[i], false),
    }
}

// ---------------------------------------------------------------------------
// Trees that differ only in their places
// ---------------------------------------------------------------------------

/// Whether two expressions are the same but for where they stand.
pub open spec fn alike(a: ExprView, b: ExprView) -> bool
    decreases a,
{
    match (a, b) {
        (ExprView::Literal { value: v, .. }, ExprView::Literal { value: w, .. }) => v == w,
        (ExprView::Variable { name: v, .. }, ExprView::Variable { name: w, .. }) => v == w,
        (
            ExprView::Binary { op: o, lhs: l, rhs: r, .. },
            ExprView::Binary { op: p, lhs: m, rhs: s, .. },
        ) => o == p && alike(*l, *m) && alike(*r, *s),
        (
            ExprView::Call { callee: c, args: x, .. },
            ExprView::Call { callee: d, args: y, .. },
        ) => c == d && x.len() == y.len() && forall|i: int|
            0 <= i < x.len() ==> alike(#[trigger] x[i], y[i]),
        (
            ExprView::Function { params: c, body: x, .. },
            ExprView::Function { params: d, body: y, .. },
        ) => c == d && x.len() == y.len() && forall|i: int|
            0 <= i < x.len() ==> alike_stmt(#[trigger] x[i], y[i]),
        (
            ExprView::Index { target: t, index: i, .. },
            ExprView::Index { target: u, index: j, .. },
        ) => alike(*t, *u) && alike(*i, *j),
        (ExprView::Array { elements: x, .. }, ExprView::Array { elements: y, .. }) => x.len()
            == y.len() && forall|i: int| 0 <= i < x.len() ==> alike(#[trigger] x[i], y[i]),
        (ExprView::MapLiteral { entries: x, .. }, ExprView::MapLiteral { entries: y, .. }) =>
            x.len() == y.len() && forall|i: int|
            0 <= i < x.len() ==> alike((#[trigger] x[i]).0, y[i].0) && alike(x[i].1, y[i].1),
        (ExprView::Grouping { expr: x, .. }, ExprView::Grouping { expr: y, .. }) => alike(*x, *y),
        _ => false,
    }
}

/// Whether two statements are the same but for where they stand.
pub open spec fn alike_stmt(a: StmtView, b: StmtView) -> bool
    decreases a,
{
    match (a, b) {
        (StmtView::Import { module: v, .. }, StmtView::Import { module: w, .. }) => v == w,
        (
            StmtView::Let { name: v, initializer: x, exported: e, .. },
            StmtView::Let { name: w, initializer: y, exported: f, .. },
        ) => v == w && alike(x, y) && e == f,
        (
            StmtView::Function { name: v, params: c, body: x, exported: e, .. },
            StmtView::Function { name: w, params: d, body: y, exported: f, .. },
        ) => v == w && c == d && e == f && x.len() == y.len() && forall|i: int|
            0 <= i < x.len() ==> alike_stmt(#[trigger] x[i], y[i]),
        (
            StmtView::Assign { name: v, value: x, .. },
            StmtView::Assign { name: w, value: y, .. },
        ) => v == w && alike(x, y),
        (
            StmtView::IndexAssign { target: t, index: i, value: x, .. },
            StmtView::IndexAssign { target: u, index: j, value: y, .. },
        ) => alike(t, u) && alike(i, j) && alike(x, y),
        (StmtView::Return { value: x, .. }, StmtView::Return { value: y, .. }) => alike(x, y),
        (StmtView::Expr { value: x, .. }, StmtView::Expr { value: y, .. }) => alike(x, y),
        (
            StmtView::If { condition: c, then_branch: x, else_branch: v, .. },
            StmtView::If { condition: d, then_branch: y, else_branch: w, .. },
        ) => {
            &&& alike(c, d)
            &&& x.len() == y.len() && v.len() == w.len()
            &&& forall|i: int| 0 <= i < x.len() ==> alike_stmt(#[trigger] x[i], y[i])
            &&& forall|i: int| 0 <= i < v.len() ==> alike_stmt(#[trigger] v[i], w[i])
        },
        (
            StmtView::While { condition: c, body: x, .. },
            StmtView::While { condition: d, body: y, .. },
        ) => alike(c, d) && x.len() == y.len() && forall|i: int|
            0 <= i < x.len() ==> alike_stmt(#[trigger] x[i], y[i]),
        (StmtView::Block { statements: x, .. }, StmtView::Block { statements: y, .. }) => x.len()
            == y.len() && forall|i: int| 0 <= i < x.len() ==> alike_stmt(#[trigger] x[i], y[i]),
        _ => false,
    }
}

/// Whether two rows of statements are the same but for where they stand.
pub open spec fn alike_stmts(a: Seq<StmtView>, b: Seq<StmtView>) -> bool {
    a.len() == b.len() && forall|i: int| 0 <= i < a.len() ==> alike_stmt(#[trigger] a[i], b[i])
}

// ---------------------------------------------------------------------------
// Tokens in their places
// ---------------------------------------------------------------------------

/// Whether tokens of some kinds stand at a position.
#[verifier::opaque]
pub open spec fn stands(ts: Seq<TokenView>, p: int, kinds: Seq<TokenKindView>) -> bool {
    &&& 0 <= p && p + kinds.len() <= ts.len()
    &&& forall|i: int| 0 <= i < kinds.len() ==> ts[p + i].kind == #[trigger] kinds[i]
}

proof fn lemma_cut(ts: Seq<TokenView>, p: int, a: Seq<TokenKindView>, b: Seq<TokenKindView>)
    requires
        stands(ts, p, a + b),
    ensures
        stands(ts, p, a),
        stands(ts, p + a.len(), b),
        0 <= p,
        p + a.len() + b.len() <= ts.len(),
        (a + b).len() == a.len() + b.len(),
{
    reveal(stands);
    assert forall|i: int| 0 <= i < a.len() implies ts[p + i].kind == #[trigger] a[i] by {
        assert((a + b)[i] == a[i]);
    }
    assert forall|i: int| 0 <= i < b.len() implies ts[p + a.len() + i].kind == #[trigger] b[i] by {
        assert((a + b)[a.len() + i] == b[i]);
    }
}

proof fn lemma_token(ts: Seq<TokenView>, p: int, kind: TokenKindView)
    requires
        stands(ts, p, seq![kind]),
    ensures
        0 <= p < ts.len(),
        kind_at(ts, p) == kind,
        ts[p].kind == kind,
        seq![kind].len() == 1,
{
    reveal(stands);
    assert(seq![kind][0] == kind);
}

proof fn lemma_pair(ts: Seq<TokenView>, p: int, a: TokenKindView, b: TokenKindView)
    requires
        stands(ts, p, seq![a, b]),
    ensures
        0 <= p && p + 1 < ts.len(),
        kind_at(ts, p) == a,
        kind_at(ts, p + 1) == b,
        ts[p].kind == a,
        ts[p + 1].kind == b,
{
    reveal(stands);
    assert(seq![a, b][0] == a);
    assert(seq![a, b][1] == b);
}

proof fn lemma_triple(
    ts: Seq<TokenView>,
    p: int,
    a: TokenKindView,
    b: TokenKindView,
    c: TokenKindView,
)
    requires
        stands(ts, p, seq![a, b, c]),
    ensures
        0 <= p && p + 2 < ts.len(),
        kind_at(ts, p) == a,
        kind_at(ts, p + 1) == b,
        kind_at(ts, p + 2) == c,
        ts[p].kind == a,
        ts[p + 1].kind == b,
        ts[p + 2].kind == c,
{
    reveal(stands);
    assert(seq![a, b, c][0] == a);
    assert(seq![a, b, c][1] == b);
    assert(seq![a, b, c][2] == c);
}

proof fn lemma_front(ts: Seq<TokenView>, p: int, kinds: Seq<TokenKindView>)
    requires
        stands(ts, p, kinds),
    ensures
        0 <= p,
        p + kinds.len() <= ts.len(),
        kinds.len() > 0 ==> p < ts.len() && kind_at(ts, p) == kinds[0] && ts[p].kind == kinds[0],
{
    reveal(stands);
    if kinds.len() > 0 {
        assert(ts[p + 0].kind == kinds[0]);
    }
}

/// Whether a token can begin an expression.
pub open spec fn begins_expr(kind: TokenKindView) -> bool {
    kind is Identifier || kind is Integer || kind is Text || kind is True || kind is False
        || kind is Nil || kind is Fn || kind is LeftParen || kind is LeftBracket
        || kind is LeftBrace
}

proof fn lemma_name_begins(name: Seq<char>)
    ensures
        name_tokens(name).len() > 0,
        name_tokens(name)[0] is Identifier,
    decreases name.len(),
{
    let k = last_dot(name, name.len() as int);
    if 0 <= k < name.len() {
        lemma_name_begins(name.take(k));
    }
}

proof fn lemma_expr_begins(expr: ExprView)
    ensures
        expr_tokens(expr).len() > 0,
        begins_expr(expr_tokens(expr)[0]),
    decreases expr,
{
    match expr {
        ExprView::Variable { name, .. } => {
            lemma_name_begins(name);
        },
        ExprView::Call { callee, .. } => {
            lemma_name_begins(callee);
        },
        ExprView::Binary { lhs, .. } => {
            lemma_expr_begins(*lhs);
        },
        ExprView::Index { target, .. } => {
            lemma_expr_begins(*target);
        },
        _ => {},
    }
}

proof fn lemma_stmt_begins(stmt: StmtView)
    ensures
        stmt_tokens(stmt).len() > 0,
        !(stmt_tokens(stmt)[0] is Else),
        !(stmt_tokens(stmt)[0] is RightBrace),
        !(stmt_tokens(stmt)[0] is Eof),
{
    match stmt {
        StmtView::Assign { name, .. } => {
            lemma_name_begins(name);
        },
        StmtView::IndexAssign { target, .. } => {
            lemma_expr_begins(target);
        },
        StmtView::Expr { value, .. } => {
            lemma_expr_begins(value);
        },
        _ => {},
    }
}

/// Whether a token ends an expression whose operators bind as tight as `level` or tighter.
pub open spec fn ends_expr(kind: TokenKindView, level: nat) -> bool {
    &&& !(kind is LeftParen) && !(kind is Dot) && !(kind is LeftBracket)
    &&& forall|op: BinaryOp| binds(op) >= level ==> #[trigger] op_token(op) != kind
}

proof fn lemma_operator(level: nat, kind: TokenKindView)
    requires
        level < 4,
    ensures
        match operator(level, kind) {
            Some(op) => op_token(op) == kind && binds(op) == level,
            None => forall|op: BinaryOp| #[trigger] op_token(op) == kind ==> binds(op) != level,
        },
{
}

// ---------------------------------------------------------------------------
// Names and parameters
// ---------------------------------------------------------------------------

proof fn lemma_last_dot(name: Seq<char>, n: int)
    requires
        n <= name.len(),
    ensures
        last_dot(name, n) < n || n <= 0,
        last_dot(name, n) >= 0 ==> name[last_dot(name, n)] == '.',
    decreases n,
{
    if n > 0 && name[n - 1] != '.' {
        lemma_last_dot(name, n - 1);
    }
}

proof fn lemma_dotted(name: Seq<char>)
    ensures
        last_dot(name, name.len() as int) >= 0 ==> {
            let k = last_dot(name, name.len() as int);
            k < name.len() && name == name.take(k) + "."@ + name.skip(k + 1)
        },
{
    let k = last_dot(name, name.len() as int);
    lemma_last_dot(name, name.len() as int);
    reveal_strlit(".");
    if k >= 0 {
        assert(name =~= name.take(k) + "."@ + name.skip(k + 1));
    }
}

proof fn lemma_variable(name: Seq<char>, ts: Seq<TokenView>, p: int) -> (t: ExprView)
    requires
        stands(ts, p, name_tokens(name)),
    ensures
        parse_call(ts, p) == call_rest(ts, t, p + name_tokens(name).len()),
        t matches ExprView::Variable { name: n, .. } && n == name,
    decreases name.len(),
{
    let k = last_dot(name, name.len() as int);
    lemma_dotted(name);
    lemma_front(ts, p, name_tokens(name));
    if k >= 0 {
        let front = name_tokens(name.take(k));
        let member = name.skip(k + 1);
        let back = seq![TokenKindView::Dot, TokenKindView::Identifier(member)];
        lemma_cut(ts, p, front, back);
        let before = lemma_variable(name.take(k), ts, p);
        let q = p + front.len();
        lemma_pair(ts, q, TokenKindView::Dot, TokenKindView::Identifier(member));
        let t = ExprView::Variable { name, span: joined(before->Variable_span, ts[q + 1].span) };
        assert(call_rest(ts, before, q) == call_rest(ts, t, q + 2));
        t
    } else {
        let t = ExprView::Variable { name, span: ts[p].span };
        lemma_token(ts, p, TokenKindView::Identifier(name));
        assert(parse_primary(ts, p) == Ok::<
            (ExprView, int),
            CompileErrorView,
        >((t, p + 1)));
        t
    }
}

proof fn lemma_module(name: Seq<char>, ts: Seq<TokenView>, p: int) -> (first: Seq<char>)
    requires
        stands(ts, p, name_tokens(name)),
    ensures
        0 <= p < ts.len(),
        ts[p].kind == TokenKindView::Identifier(first),
        module_name_rest(ts, first, p + 1) == module_name_rest(
            ts,
            name,
            p + name_tokens(name).len(),
        ),
    decreases name.len(),
{
    let k = last_dot(name, name.len() as int);
    lemma_dotted(name);
    lemma_front(ts, p, name_tokens(name));
    if k >= 0 {
        let front = name_tokens(name.take(k));
        let member = name.skip(k + 1);
        let back = seq![TokenKindView::Dot, TokenKindView::Identifier(member)];
        lemma_cut(ts, p, front, back);
        let first = lemma_module(name.take(k), ts, p);
        let q = p + front.len();
        lemma_pair(ts, q, TokenKindView::Dot, TokenKindView::Identifier(member));
        assert(module_name_rest(ts, name.take(k), q) == module_name_rest(ts, name, q + 2));
        first
    } else {
        lemma_token(ts, p, TokenKindView::Identifier(name));
        name
    }
}

proof fn lemma_params(params: Seq<Seq<char>>, i: int, ts: Seq<TokenView>, p: int)
    requires
        0 <= i < params.len(),
        stands(ts, p, params_tokens(params, i)),
        kind_at(ts, p + params_tokens(params, i).len()) is RightParen,
    ensures
        param_list(ts, p) == Ok::<(Seq<Seq<char>>, int), CompileErrorView>(
            (params.skip(i), p + params_tokens(params, i).len()),
        ),
    decreases params.len() - i,
{
    if i + 1 < params.len() {
        let front = seq![TokenKindView::Identifier(params[i]), TokenKindView::Comma];
        lemma_cut(ts, p, front, params_tokens(params, i + 1));
        lemma_pair(ts, p, TokenKindView::Identifier(params[i]), TokenKindView::Comma);
        lemma_params(params, i + 1, ts, p + 2);
        assert(params.skip(i) =~= seq![params[i]] + params.skip(i + 1));
    } else {
        lemma_token(ts, p, TokenKindView::Identifier(params[i]));
        assert(params.skip(i) =~= seq![params[i]]);
    }
}

proof fn lemma_signature(params: Seq<Seq<char>>, ts: Seq<TokenView>, p: int)
    requires
        stands(ts, p, signature_tokens(params)),
    ensures
        parse_signature(ts, p) == Ok::<
            (Seq<Seq<char>>, int),
            CompileErrorView,
        >((params, p + signature_tokens(params).len())),
{
    let open = seq![TokenKindView::LeftParen];
    let names = params_tokens(params, 0);
    lemma_cut(ts, p, open + names, seq![TokenKindView::RightParen]);
    lemma_cut(ts, p, open, names);
    lemma_token(ts, p, TokenKindView::LeftParen);
    let q = p + 1 + names.len();
    lemma_token(ts, q, TokenKindView::RightParen);
    if params.len() > 0 {
        lemma_params(params, 0, ts, p + 1);
        lemma_front(ts, p + 1, names);
        assert(params.skip(0) =~= params);
    } else {
        assert(params =~= Seq::empty());
    }
}

// ---------------------------------------------------------------------------
// Expressions
// ---------------------------------------------------------------------------

proof fn lemma_tokens_differ(a: BinaryOp, b: BinaryOp)
    ensures
        op_token(a) == op_token(b) ==> a == b,
{
}

/// An expression that holds together is an operand of every level.
proof fn lemma_climb(t: ExprView, level: nat, ts: Seq<TokenView>, p: int, q: int)
    requires
        level <= 4,
        parse_call(ts, p) == call_rest(ts, t, q),
        p <= q <= ts.len(),
        ends_expr(kind_at(ts, q), level),
    ensures
        gives(parse_binary(ts, level, p), t, q),
    decreases 4 - level,
{
    if level < 4 {
        lemma_climb(t, level + 1, ts, p, q);
        lemma_operator(level, kind_at(ts, q));
        assert(gives(binary_rest(ts, level, t, q), t, q));
    } else {
        assert(gives(call_rest(ts, t, q), t, q));
    }
}

/// An index behind an expression.
proof fn lemma_index(t: ExprView, index: ExprView, ts: Seq<TokenView>, q: int, r: int)
    requires
        0 <= q < r < ts.len(),
        kind_at(ts, q) is LeftBracket,
        gives(parse_expr(ts, q + 1), index, r),
        kind_at(ts, r) is RightBracket,
    ensures
        call_rest(ts, t, q) == call_rest(
            ts,
            ExprView::Index {
                target: Box::new(t),
                index: Box::new(index),
                span: joined(t.span(), ts[r].span),
            },
            r + 1,
        ),
{
}

proof fn lemma_level(expr: ExprView, level: nat, ts: Seq<TokenView>, p: int) -> (t: ExprView)
    requires
        writable(expr),
        level <= strength(expr),
        stands(ts, p, expr_tokens(expr)),
        ends_expr(kind_at(ts, p + expr_tokens(expr).len()), level),
    ensures
        gives(parse_binary(ts, level, p), t, p + expr_tokens(expr).len()),
        alike(expr, t),
    decreases expr, 11 - 2 * level,
{
    let q = p + expr_tokens(expr).len();
    lemma_front(ts, p, expr_tokens(expr));
    if level < 4 {
        let t = lemma_spine(expr, level, ts, p);
        lemma_operator(level, kind_at(ts, q));
        t
    } else {
        let t = lemma_call(expr, ts, p);
        lemma_climb(t, 4, ts, p, q);
        t
    }
}

#[verifier::rlimit(60)]
proof fn lemma_spine(expr: ExprView, level: nat, ts: Seq<TokenView>, p: int) -> (t: ExprView)
    requires
        writable(expr),
        level < 4,
        level <= strength(expr),
        stands(ts, p, expr_tokens(expr)),
        ends_expr(kind_at(ts, p + expr_tokens(expr).len()), level + 1),
    ensures
        parse_binary(ts, level, p) == binary_rest(ts, level, t, p + expr_tokens(expr).len()),
        alike(expr, t),
    decreases expr, 10 - 2 * level,
{
    lemma_front(ts, p, expr_tokens(expr));
    if strength(expr) > level {
        lemma_level(expr, level + 1, ts, p)
    } else {
        let op = expr->Binary_op;
        let lhs = *expr->Binary_lhs;
        let rhs = *expr->Binary_rhs;
        let a = expr_tokens(lhs);
        let b = expr_tokens(rhs);
        let sign = op_token(op);
        assert(expr_tokens(expr) == a + seq![sign] + b);
        lemma_cut(ts, p, a + seq![sign], b);
        lemma_cut(ts, p, a, seq![sign]);
        let q = p + a.len();
        lemma_token(ts, q, sign);
        assert forall|other: BinaryOp| binds(other) >= level + 1 implies #[trigger] op_token(other)
            != sign by {
            lemma_tokens_differ(other, op);
        }
        let l = lemma_spine(lhs, level, ts, p);
        let r = lemma_level(rhs, level + 1, ts, q + 1);
        lemma_operator(level, sign);
        assert(operator(level, sign) == Some(op)) by {
            if let Some(other) = operator(level, sign) {
                lemma_tokens_differ(other, op);
            }
        }
        lemma_expr_begins(rhs);
        let t = binary_expr(l, op, r);
        assert(binary_rest(ts, level, l, q) == binary_rest(ts, level, t, q + 1 + b.len()));
        t
    }
}

#[verifier::rlimit(60)]
proof fn lemma_call(expr: ExprView, ts: Seq<TokenView>, p: int) -> (t: ExprView)
    requires
        writable(expr),
        strength(expr) == 4,
        stands(ts, p, expr_tokens(expr)),
    ensures
        parse_call(ts, p) == call_rest(ts, t, p + expr_tokens(expr).len()),
        alike(expr, t),
    decreases expr, 2int,
{
    lemma_front(ts, p, expr_tokens(expr));
    match expr {
        ExprView::Variable { name, .. } => lemma_variable(name, ts, p),
        ExprView::Call { callee, args, .. } => lemma_function_call(expr, callee, args, ts, p),
        ExprView::Index { target, index, .. } => {
            let a = expr_tokens(*target);
            let open = seq![TokenKindView::LeftBracket];
            let b = expr_tokens(*index);
            let close = seq![TokenKindView::RightBracket];
            lemma_cut(ts, p, a + open + b, close);
            lemma_cut(ts, p, a + open, b);
            lemma_cut(ts, p, a, open);
            let q = p + a.len();
            let r = q + 1 + b.len();
            lemma_token(ts, q, TokenKindView::LeftBracket);
            lemma_token(ts, r, TokenKindView::RightBracket);
            let t = lemma_call(*target, ts, p);
            let i = lemma_level(*index, 0, ts, q + 1);
            lemma_expr_begins(*index);
            lemma_index(t, i, ts, q, r);
            ExprView::Index {
                target: Box::new(t),
                index: Box::new(i),
                span: joined(t.span(), ts[r].span),
            }
        },
        _ => lemma_primary(expr, ts, p),
    }
}

#[verifier::rlimit(60)]
proof fn lemma_function_call(
    expr: ExprView,
    callee: Seq<char>,
    args: Seq<ExprView>,
    ts: Seq<TokenView>,
    p: int,
) -> (t: ExprView)
    requires
        writable(expr),
        expr matches ExprView::Call { callee: c, args: a, .. } && c == callee && a == args,
        stands(ts, p, expr_tokens(expr)),
    ensures
        parse_call(ts, p) == call_rest(ts, t, p + expr_tokens(expr).len()),
        alike(expr, t),
    decreases expr, 1int,
{
    let a = name_tokens(callee);
    let open = seq![TokenKindView::LeftParen];
    let b = list_tokens(args, 0);
    let close = seq![TokenKindView::RightParen];
    assert(expr_tokens(expr) == a + open + b + close);
    lemma_cut(ts, p, a + open + b, close);
    lemma_cut(ts, p, a + open, b);
    lemma_cut(ts, p, a, open);
    let q = p + a.len();
    let r = q + 1 + b.len();
    lemma_token(ts, q, TokenKindView::LeftParen);
    lemma_token(ts, r, TokenKindView::RightParen);
    let v = lemma_variable(callee, ts, p);
    let list = lemma_exprs(args, ts, q + 1, TokenKindView::RightParen);
    let t = ExprView::Call {
        callee,
        args: list,
        span: joined(v->Variable_span, ts[r].span),
    };
    assert(call_rest(ts, v, q) == call_rest(ts, t, r + 1));
    t
}

#[verifier::rlimit(60)]
proof fn lemma_primary(expr: ExprView, ts: Seq<TokenView>, p: int) -> (t: ExprView)
    requires
        writable(expr),
        strength(expr) == 4,
        !(expr is Variable) && !(expr is Call) && !(expr is Index),
        stands(ts, p, expr_tokens(expr)),
    ensures
        parse_call(ts, p) == call_rest(ts, t, p + expr_tokens(expr).len()),
        alike(expr, t),
    decreases expr, 1int,
{
    lemma_front(ts, p, expr_tokens(expr));
    match expr {
        ExprView::Literal { value, .. } => {
            lemma_token(ts, p, literal_token(value));
            let t = ExprView::Literal { value, span: ts[p].span };
            assert(gives(parse_primary(ts, p), t, p + 1));
            t
        },
        ExprView::Function { params, body, .. } => {
            let a = signature_tokens(params);
            let b = block_tokens(body);
            lemma_cut(ts, p, seq![TokenKindView::Fn] + a, b);
            lemma_cut(ts, p, seq![TokenKindView::Fn], a);
            lemma_token(ts, p, TokenKindView::Fn);
            lemma_signature(params, ts, p + 1);
            let q = p + 1 + a.len();
            let list = lemma_block(body, ts, q);
            let end = ts[q + b.len() - 1].span;
            let t = ExprView::Function { params, body: list, span: joined(ts[p].span, end) };
            assert(gives(parse_primary(ts, p), t, q + b.len()));
            t
        },
        ExprView::Array { elements, .. } => {
            let b = list_tokens(elements, 0);
            lemma_cut(ts, p, seq![TokenKindView::LeftBracket] + b, seq![TokenKindView::RightBracket]);
            lemma_cut(ts, p, seq![TokenKindView::LeftBracket], b);
            lemma_token(ts, p, TokenKindView::LeftBracket);
            let r = p + 1 + b.len();
            lemma_token(ts, r, TokenKindView::RightBracket);
            let list = lemma_exprs(elements, ts, p + 1, TokenKindView::RightBracket);
            let t = ExprView::Array { elements: list, span: joined(ts[p].span, ts[r].span) };
            assert(gives(parse_primary(ts, p), t, r + 1));
            t
        },
        ExprView::MapLiteral { entries, .. } => {
            let b = entries_tokens(entries, 0);
            lemma_cut(ts, p, seq![TokenKindView::LeftBrace] + b, seq![TokenKindView::RightBrace]);
            lemma_cut(ts, p, seq![TokenKindView::LeftBrace], b);
            lemma_token(ts, p, TokenKindView::LeftBrace);
            let r = p + 1 + b.len();
            lemma_token(ts, r, TokenKindView::RightBrace);
            let list = lemma_entries(entries, ts, p + 1);
            let t = ExprView::MapLiteral { entries: list, span: joined(ts[p].span, ts[r].span) };
            assert(gives(parse_primary(ts, p), t, r + 1));
            t
        },
        ExprView::Grouping { expr: inner, .. } => {
            let b = expr_tokens(*inner);
            lemma_cut(ts, p, seq![TokenKindView::LeftParen] + b, seq![TokenKindView::RightParen]);
            lemma_cut(ts, p, seq![TokenKindView::LeftParen], b);
            lemma_token(ts, p, TokenKindView::LeftParen);
            let r = p + 1 + b.len();
            lemma_token(ts, r, TokenKindView::RightParen);
            let i = lemma_level(*inner, 0, ts, p + 1);
            let t = ExprView::Grouping {
                expr: Box::new(i),
                span: joined(ts[p].span, ts[r].span),
            };
            assert(gives(parse_primary(ts, p), t, r + 1));
            t
        },
        _ => expr,
    }
}

proof fn lemma_exprs(
    exprs: Seq<ExprView>,
    ts: Seq<TokenView>,
    p: int,
    close: TokenKindView,
) -> (list: Seq<ExprView>)
    requires
        forall|i: int| 0 <= i < exprs.len() ==> writable(#[trigger] exprs[i]),
        stands(ts, p, list_tokens(exprs, 0)),
        kind_at(ts, p + list_tokens(exprs, 0).len()) == close,
        close is RightParen || close is RightBracket,
    ensures
        gives(parse_exprs(ts, p, close), list, p + list_tokens(exprs, 0).len()),
        list.len() == exprs.len(),
        forall|i: int| 0 <= i < exprs.len() ==> alike(#[trigger] exprs[i], list[i]),
    decreases exprs, exprs.len() + 1,
{
    if exprs.len() == 0 {
        Seq::empty()
    } else {
        lemma_front(ts, p, list_tokens(exprs, 0));
        lemma_expr_begins(exprs[0]);
        let list = lemma_list(exprs, 0, ts, p);
        assert forall|i: int| 0 <= i < exprs.len() implies alike(#[trigger] exprs[i], list[i]) by {
            assert(alike(exprs[0 + i], list[i]));
        }
        list
    }
}

#[verifier::rlimit(60)]
proof fn lemma_list(exprs: Seq<ExprView>, i: int, ts: Seq<TokenView>, p: int) -> (list: Seq<
    ExprView,
>)
    requires
        0 <= i < exprs.len(),
        forall|i: int| 0 <= i < exprs.len() ==> writable(#[trigger] exprs[i]),
        stands(ts, p, list_tokens(exprs, i)),
        kind_at(ts, p + list_tokens(exprs, i).len()) is RightParen || kind_at(
            ts,
            p + list_tokens(exprs, i).len(),
        ) is RightBracket,
    ensures
        gives(expr_list(ts, p), list, p + list_tokens(exprs, i).len()),
        list.len() == exprs.len() - i,
        forall|k: int| 0 <= k < list.len() ==> alike(exprs[i + k], #[trigger] list[k]),
    decreases exprs, exprs.len() - i,
{
    let a = expr_tokens(exprs[i]);
    assert(writable(exprs[i]));
    lemma_front(ts, p, list_tokens(exprs, i));
    lemma_expr_begins(exprs[i]);
    if i + 1 < exprs.len() {
        let b = list_tokens(exprs, i + 1);
        let comma = seq![TokenKindView::Comma];
        lemma_cut(ts, p, a + comma, b);
        lemma_cut(ts, p, a, comma);
        let q = p + a.len();
        lemma_token(ts, q, TokenKindView::Comma);
        let t = lemma_level(exprs[i], 0, ts, p);
        assert(gives(parse_expr(ts, p), t, q));
        let rest = lemma_list(exprs, i + 1, ts, q + 1);
        let list = seq![t] + rest;
        assert forall|k: int| 0 <= k < list.len() implies alike(exprs[i + k], #[trigger] list[k]) by {
            if k > 0 {
                assert(alike(exprs[i + 1 + (k - 1)], rest[k - 1]));
            }
        }
        list
    } else {
        let t = lemma_level(exprs[i], 0, ts, p);
        assert(gives(parse_expr(ts, p), t, p + a.len()));
        seq![t]
    }
}

proof fn lemma_entries(
    entries: Seq<(ExprView, ExprView)>,
    ts: Seq<TokenView>,
    p: int,
) -> (list: Seq<(ExprView, ExprView)>)
    requires
        forall|i: int|
            0 <= i < entries.len() ==> writable((#[trigger] entries[i]).0) && writable(entries[i].1),
        stands(ts, p, entries_tokens(entries, 0)),
        kind_at(ts, p + entries_tokens(entries, 0).len()) is RightBrace,
    ensures
        gives(parse_entries(ts, p), list, p + entries_tokens(entries, 0).len()),
        list.len() == entries.len(),
        forall|i: int|
            0 <= i < entries.len() ==> alike((#[trigger] entries[i]).0, list[i].0) && alike(
                entries[i].1,
                list[i].1,
            ),
    decreases entries, entries.len() + 1,
{
    if entries.len() == 0 {
        Seq::empty()
    } else {
        lemma_front(ts, p, entries_tokens(entries, 0));
        lemma_expr_begins(entries[0].0);
        assert(entry_tokens(entries[0])[0] == expr_tokens(entries[0].0)[0]);
        assert(entries_tokens(entries, 0)[0] == entry_tokens(entries[0])[0]);
        let list = lemma_entry_list(entries, 0, ts, p);
        assert forall|i: int| 0 <= i < entries.len() implies alike(
            (#[trigger] entries[i]).0,
            list[i].0,
        ) && alike(entries[i].1, list[i].1) by {
            assert(alike(entries[0 + i].0, list[i].0) && alike(entries[0 + i].1, list[i].1));
        }
        list
    }
}

#[verifier::rlimit(60)]
proof fn lemma_entry_list(
    entries: Seq<(ExprView, ExprView)>,
    i: int,
    ts: Seq<TokenView>,
    p: int,
) -> (list: Seq<(ExprView, ExprView)>)
    requires
        0 <= i < entries.len(),
        forall|i: int|
            0 <= i < entries.len() ==> writable((#[trigger] entries[i]).0) && writable(entries[i].1),
        stands(ts, p, entries_tokens(entries, i)),
        kind_at(ts, p + entries_tokens(entries, i).len()) is RightBrace,
    ensures
        gives(entry_list(ts, p), list, p + entries_tokens(entries, i).len()),
        list.len() == entries.len() - i,
        forall|k: int|
            0 <= k < list.len() ==> alike(entries[i + k].0, (#[trigger] list[k]).0) && alike(
                entries[i + k].1,
                list[k].1,
            ),
    decreases entries, entries.len() - i,
{
    let a = expr_tokens(entries[i].0);
    let colon = seq![TokenKindView::Colon];
    let b = expr_tokens(entries[i].1);
    assert(writable(entries[i].0) && writable(entries[i].1));
    assert(entry_tokens(entries[i]) == a + colon + b);
    lemma_front(ts, p, entries_tokens(entries, i));
    lemma_expr_begins(entries[i].0);
    lemma_expr_begins(entries[i].1);
    let q = p + a.len();
    let r = q + 1 + b.len();
    if i + 1 < entries.len() {
        let rest = entries_tokens(entries, i + 1);
        let comma = seq![TokenKindView::Comma];
        lemma_cut(ts, p, a + colon + b + comma, rest);
        lemma_cut(ts, p, a + colon + b, comma);
        lemma_cut(ts, p, a + colon, b);
        lemma_cut(ts, p, a, colon);
        lemma_token(ts, q, TokenKindView::Colon);
        lemma_token(ts, r, TokenKindView::Comma);
        let key = lemma_level(entries[i].0, 0, ts, p);
        let value = lemma_level(entries[i].1, 0, ts, q + 1);
        assert(gives(parse_expr(ts, p), key, q));
        assert(gives(parse_expr(ts, q + 1), value, r));
        let more = lemma_entry_list(entries, i + 1, ts, r + 1);
        let list = seq![(key, value)] + more;
        assert forall|k: int| 0 <= k < list.len() implies alike(
            entries[i + k].0,
            (#[trigger] list[k]).0,
        ) && alike(entries[i + k].1, list[k].1) by {
            if k > 0 {
                assert(alike(entries[i + 1 + (k - 1)].0, more[k - 1].0));
            }
        }
        list
    } else {
        lemma_cut(ts, p, a + colon, b);
        lemma_cut(ts, p, a, colon);
        lemma_token(ts, q, TokenKindView::Colon);
        let key = lemma_level(entries[i].0, 0, ts, p);
        let value = lemma_level(entries[i].1, 0, ts, q + 1);
        assert(gives(parse_expr(ts, p), key, q));
        assert(gives(parse_expr(ts, q + 1), value, r));
        seq![(key, value)]
    }
}

// ---------------------------------------------------------------------------
// Statements
// ---------------------------------------------------------------------------

#[verifier::rlimit(60)]
proof fn lemma_block(body: Seq<StmtView>, ts: Seq<TokenView>, p: int) -> (list: Seq<StmtView>)
    requires
        forall|i: int| 0 <= i < body.len() ==> writable_stmt(#[trigger] body[i], false),
        stands(ts, p, block_tokens(body)),
    ensures
        0 <= p && p + block_tokens(body).len() <= ts.len(),
        block_tokens(body).len() >= 2,
        kind_at(ts, p) is LeftBrace,
        gives(
            block_rest(ts, p + 1),
            (list, ts[p + block_tokens(body).len() - 1].span),
            p + block_tokens(body).len(),
        ),
        gives(
            parse_block(ts, p),
            (list, ts[p + block_tokens(body).len() - 1].span),
            p + block_tokens(body).len(),
        ),
        alike_stmts(body, list),
    decreases body, body.len() + 1,
{
    let open = seq![TokenKindView::LeftBrace];
    let b = stmts_tokens(body, 0);
    lemma_cut(ts, p, open + b, seq![TokenKindView::RightBrace]);
    lemma_cut(ts, p, open, b);
    lemma_token(ts, p, TokenKindView::LeftBrace);
    let r = p + 1 + b.len();
    lemma_token(ts, r, TokenKindView::RightBrace);
    let list = lemma_stmts(body, 0, ts, p + 1);
    assert forall|i: int| 0 <= i < body.len() implies alike_stmt(#[trigger] body[i], list[i]) by {
        assert(alike_stmt(body[0 + i], list[i]));
    }
    list
}

#[verifier::rlimit(60)]
proof fn lemma_stmts(stmts: Seq<StmtView>, i: int, ts: Seq<TokenView>, p: int) -> (list: Seq<
    StmtView,
>)
    requires
        0 <= i <= stmts.len(),
        forall|i: int| 0 <= i < stmts.len() ==> writable_stmt(#[trigger] stmts[i], false),
        stands(ts, p, stmts_tokens(stmts, i)),
        kind_at(ts, p + stmts_tokens(stmts, i).len()) is RightBrace,
    ensures
        gives(parse_stmts(ts, p), list, p + stmts_tokens(stmts, i).len()),
        list.len() == stmts.len() - i,
        forall|k: int| 0 <= k < list.len() ==> alike_stmt(stmts[i + k], #[trigger] list[k]),
    decreases stmts, stmts.len() - i,
{
    if i < stmts.len() {
        let a = stmt_tokens(stmts[i]);
        let b = stmts_tokens(stmts, i + 1);
        assert(writable_stmt(stmts[i], false));
        lemma_cut(ts, p, a, b);
        lemma_front(ts, p, a);
        let q = p + a.len();
        lemma_stmt_begins(stmts[i]);
        lemma_front(ts, q, b);
        if i + 1 < stmts.len() {
            lemma_stmt_begins(stmts[i + 1]);
        }
        let t = lemma_stmt(stmts[i], false, ts, p);
        let rest = lemma_stmts(stmts, i + 1, ts, q);
        let list = seq![t] + rest;
        assert forall|k: int| 0 <= k < list.len() implies alike_stmt(
            stmts[i + k],
            #[trigger] list[k],
        ) by {
            if k > 0 {
                assert(alike_stmt(stmts[i + 1 + (k - 1)], rest[k - 1]));
            }
        }
        list
    } else {
        Seq::empty()
    }
}

/// A binding behind its `let`.
#[verifier::rlimit(60)]
proof fn lemma_let(
    name: Seq<char>,
    initializer: ExprView,
    exported: bool,
    ts: Seq<TokenView>,
    p: int,
) -> (t: StmtView)
    requires
        writable(initializer),
        stands(
            ts,
            p,
            seq![TokenKindView::Let, TokenKindView::Identifier(name), TokenKindView::Equal]
                + expr_tokens(initializer) + seq![TokenKindView::Semicolon],
        ),
    ensures
        0 <= p < ts.len(),
        kind_at(ts, p) is Let,
        gives(parse_let(ts, p + 1, exported), t, p + 3 + expr_tokens(initializer).len() + 1),
        t matches StmtView::Let { name: n, initializer: i, exported: e, .. } && n == name && e
            == exported && alike(initializer, i),
    decreases initializer, 20int,
{
    let front = seq![TokenKindView::Let, TokenKindView::Identifier(name), TokenKindView::Equal];
    let a = expr_tokens(initializer);
    lemma_cut(ts, p, front + a, seq![TokenKindView::Semicolon]);
    lemma_cut(ts, p, front, a);
    lemma_triple(
        ts,
        p,
        TokenKindView::Let,
        TokenKindView::Identifier(name),
        TokenKindView::Equal,
    );
    let q = p + 3 + a.len();
    lemma_token(ts, q, TokenKindView::Semicolon);
    let i = lemma_level(initializer, 0, ts, p + 3);
    StmtView::Let { name, initializer: i, exported, span: joined(ts[p].span, ts[q].span) }
}

#[verifier::rlimit(60)]
proof fn lemma_condition(condition: ExprView, ts: Seq<TokenView>, p: int) -> (t: ExprView)
    requires
        writable(condition),
        stands(ts, p, condition_tokens(condition)),
    ensures
        0 <= p && p + condition_tokens(condition).len() <= ts.len(),
        condition_tokens(condition).len() >= 2,
        gives(parse_condition(ts, p), t, p + condition_tokens(condition).len()),
        alike(condition, t),
    decreases condition, 20int,
{
    let a = expr_tokens(condition);
    let open = seq![TokenKindView::LeftParen];
    lemma_cut(ts, p, open + a, seq![TokenKindView::RightParen]);
    lemma_cut(ts, p, open, a);
    lemma_token(ts, p, TokenKindView::LeftParen);
    let q = p + 1 + a.len();
    lemma_token(ts, q, TokenKindView::RightParen);
    lemma_level(condition, 0, ts, p + 1)
}

#[verifier::rlimit(50)]
#[verifier::spinoff_prover]
proof fn lemma_branch(stmt: StmtView, ts: Seq<TokenView>, p: int) -> (t: StmtView)
    requires
        stmt is If,
        stmt->If_else_branch.len() == 0,
        writable_stmt(stmt, false),
        stands(ts, p, stmt_tokens(stmt)),
        !(kind_at(ts, p + stmt_tokens(stmt).len()) is Else),
    ensures
        kind_at(ts, p) is If,
        gives(parse_if(ts, p + 1), t, p + stmt_tokens(stmt).len()),
        alike_stmt(stmt, t),
    decreases stmt, 3int,
{
    let condition = stmt->If_condition;
    let first = stmt->If_then_branch;
    let word = seq![TokenKindView::If];
    let a = condition_tokens(condition);
    let b = block_tokens(first);
    let q = p + 1 + a.len();
    let r = q + b.len();
    assert(stmt_tokens(stmt) == word + a + b);
    lemma_cut(ts, p, word + a, b);
    lemma_cut(ts, p, word, a);
    lemma_token(ts, p, TokenKindView::If);
    let c = lemma_condition(condition, ts, p + 1);
    let x = lemma_block(first, ts, q);
    let t = StmtView::If {
        condition: c,
        then_branch: x,
        else_branch: Seq::empty(),
        span: joined(ts[p].span, ts[r - 1].span),
    };
    assert(gives(parse_if(ts, p + 1), t, r));
    t
}

#[verifier::rlimit(50)]
#[verifier::spinoff_prover]
proof fn lemma_branches(stmt: StmtView, ts: Seq<TokenView>, p: int) -> (t: StmtView)
    requires
        stmt is If,
        stmt->If_else_branch.len() > 0,
        writable_stmt(stmt, false),
        stands(ts, p, stmt_tokens(stmt)),
        !(kind_at(ts, p + stmt_tokens(stmt).len()) is Else),
    ensures
        kind_at(ts, p) is If,
        gives(parse_if(ts, p + 1), t, p + stmt_tokens(stmt).len()),
        alike_stmt(stmt, t),
    decreases stmt, 3int,
{
    let condition = stmt->If_condition;
    let first = stmt->If_then_branch;
    let word = seq![TokenKindView::If];
    let a = condition_tokens(condition);
    let b = block_tokens(first);
    let q = p + 1 + a.len();
    let r = q + b.len();
    let second = stmt->If_else_branch;
    let d = block_tokens(second);
    assert(stmt_tokens(stmt) == word + a + b + seq![TokenKindView::Else] + d);
    lemma_cut(ts, p, word + a + b + seq![TokenKindView::Else], d);
    lemma_cut(ts, p, word + a + b, seq![TokenKindView::Else]);
    lemma_cut(ts, p, word + a, b);
    lemma_cut(ts, p, word, a);
    lemma_token(ts, p, TokenKindView::If);
    lemma_token(ts, r, TokenKindView::Else);
    let c = lemma_condition(condition, ts, p + 1);
    let x = lemma_block(first, ts, q);
    let y = lemma_block(second, ts, r + 1);
    let t = StmtView::If {
        condition: c,
        then_branch: x,
        else_branch: y,
        span: joined(ts[p].span, ts[r + d.len()].span),
    };
    assert(gives(parse_if(ts, p + 1), t, r + 1 + d.len()));
    t
}

/// A loop whose parts have been parsed.
proof fn lemma_looped(
    c: ExprView,
    x: Seq<StmtView>,
    end: SourceSpan,
    ts: Seq<TokenView>,
    p: int,
    q: int,
    r: int,
)
    requires
        0 <= p < q <= ts.len(),
        gives(parse_condition(ts, p), c, q),
        gives(parse_block(ts, q), (x, end), r),
    ensures
        gives(
            parse_while(ts, p),
            StmtView::While { condition: c, body: x, span: joined(ts[p - 1].span, end) },
            r,
        ),
{
}

#[verifier::rlimit(80)]
#[verifier::spinoff_prover]
proof fn lemma_loop(stmt: StmtView, ts: Seq<TokenView>, p: int) -> (t: StmtView)
    requires
        stmt is While,
        writable_stmt(stmt, false),
        stands(ts, p, stmt_tokens(stmt)),
    ensures
        kind_at(ts, p) is While,
        gives(parse_while(ts, p + 1), t, p + stmt_tokens(stmt).len()),
        alike_stmt(stmt, t),
    decreases stmt, 3int,
{
    let condition = stmt->While_condition;
    let body = stmt->While_body;
    let word = seq![TokenKindView::While];
    let a = condition_tokens(condition);
    let b = block_tokens(body);
    let q = p + 1 + a.len();
    assert(stmt_tokens(stmt) == word + a + b);
    lemma_cut(ts, p, word + a, b);
    lemma_cut(ts, p, word, a);
    lemma_token(ts, p, TokenKindView::While);
    let c = lemma_condition(condition, ts, p + 1);
    let x = lemma_block(body, ts, q);
    let end = ts[q + b.len() - 1].span;
    lemma_looped(c, x, end, ts, p + 1, q, q + b.len());
    let t = StmtView::While { condition: c, body: x, span: joined(ts[p].span, end) };
    assert(alike_stmt(stmt, t));
    t
}

#[verifier::rlimit(50)]
#[verifier::spinoff_prover]
proof fn lemma_assign(stmt: StmtView, ts: Seq<TokenView>, p: int) -> (t: StmtView)
    requires
        stmt is Assign,
        writable_stmt(stmt, false),
        stands(ts, p, stmt_tokens(stmt)),
    ensures
        gives(parse_assignment_or_expr(ts, p), t, p + stmt_tokens(stmt).len()),
        alike_stmt(stmt, t),
    decreases stmt, 3int,
{
    let name = stmt->Assign_name;
    let value = stmt->Assign_value;
    let equal = seq![TokenKindView::Equal];
    let end = seq![TokenKindView::Semicolon];
    let a = name_tokens(name);
    let b = expr_tokens(value);
    assert(stmt_tokens(stmt) == a + equal + b + end);
    lemma_cut(ts, p, a + equal + b, end);
    lemma_cut(ts, p, a + equal, b);
    lemma_cut(ts, p, a, equal);
    let q = p + a.len();
    let r = q + 1 + b.len();
    lemma_token(ts, q, TokenKindView::Equal);
    lemma_token(ts, r, TokenKindView::Semicolon);
    let v = lemma_place(name, ts, p);
    let x = lemma_level(value, 0, ts, q + 1);
    lemma_expr_begins(value);
    lemma_assigned(v, x, ts, p, q, r);
    let t = StmtView::Assign { name, value: x, span: joined(v.span(), ts[r].span) };
    assert(assignment(v, x, ts[r].span) == Ok::<StmtView, CompileErrorView>(t));
    t
}

/// A name that is assigned to.
proof fn lemma_place(name: Seq<char>, ts: Seq<TokenView>, p: int) -> (v: ExprView)
    requires
        stands(ts, p, name_tokens(name)),
        kind_at(ts, p + name_tokens(name).len()) is Equal,
    ensures
        gives(parse_binary(ts, 0, p), v, p + name_tokens(name).len()),
        v is Variable,
        v->Variable_name == name,
{
    lemma_front(ts, p, name_tokens(name));
    let v = lemma_variable(name, ts, p);
    lemma_climb(v, 0, ts, p, p + name_tokens(name).len());
    v
}

/// An assignment whose sides have been parsed.
proof fn lemma_assigned(place: ExprView, x: ExprView, ts: Seq<TokenView>, p: int, q: int, r: int)
    requires
        0 <= p <= q < r < ts.len(),
        gives(parse_binary(ts, 0, p), place, q),
        gives(parse_binary(ts, 0, q + 1), x, r),
        kind_at(ts, q) is Equal,
        kind_at(ts, r) is Semicolon,
        assignment(place, x, ts[r].span) is Ok,
    ensures
        gives(parse_assignment_or_expr(ts, p), assignment(place, x, ts[r].span)->Ok_0, r + 1),
{
    assert(gives(parse_expr(ts, p), place, q));
    assert(gives(parse_expr(ts, q + 1), x, r));
}

#[verifier::rlimit(50)]
#[verifier::spinoff_prover]
proof fn lemma_index_assign(stmt: StmtView, outside: bool, ts: Seq<TokenView>, p: int) -> (t:
    StmtView)
    requires
        stmt is IndexAssign,
        writable_stmt(stmt, outside),
        stands(ts, p, stmt_tokens(stmt)),
    ensures
        gives(parse_assignment_or_expr(ts, p), t, p + stmt_tokens(stmt).len()),
        alike_stmt(stmt, t),
    decreases stmt, 3int,
{
    let target = stmt->IndexAssign_target;
    let index = stmt->IndexAssign_index;
    let value = stmt->IndexAssign_value;
    let a = expr_tokens(target);
    let open = seq![TokenKindView::LeftBracket];
    let b = expr_tokens(index);
    let close = seq![TokenKindView::RightBracket];
    let equal = seq![TokenKindView::Equal];
    let c = expr_tokens(value);
    let end = seq![TokenKindView::Semicolon];
    assert(stmt_tokens(stmt) == a + open + b + close + equal + c + end);
    lemma_cut(ts, p, a + open + b + close + equal + c, end);
    lemma_cut(ts, p, a + open + b + close + equal, c);
    lemma_cut(ts, p, a + open + b + close, equal);
    lemma_cut(ts, p, a + open + b, close);
    lemma_cut(ts, p, a + open, b);
    lemma_cut(ts, p, a, open);
    let q = p + a.len();
    let r = q + 1 + b.len();
    let s = r + 2 + c.len();
    lemma_token(ts, q, TokenKindView::LeftBracket);
    lemma_token(ts, r, TokenKindView::RightBracket);
    lemma_token(ts, r + 1, TokenKindView::Equal);
    lemma_token(ts, s, TokenKindView::Semicolon);
    let t = lemma_call(target, ts, p);
    let i = lemma_level(index, 0, ts, q + 1);
    lemma_expr_begins(index);
    assert(gives(parse_expr(ts, q + 1), i, r));
    lemma_index(t, i, ts, q, r);
    let place = ExprView::Index {
        target: Box::new(t),
        index: Box::new(i),
        span: joined(t.span(), ts[r].span),
    };
    lemma_climb(place, 0, ts, p, r + 1);
    let x = lemma_level(value, 0, ts, r + 2);
    lemma_expr_begins(value);
    lemma_assigned(place, x, ts, p, r + 1, s);
    assignment(place, x, ts[s].span)->Ok_0
}

/// A statement that is an expression or an assignment.
#[verifier::rlimit(60)]
proof fn lemma_simple(stmt: StmtView, outside: bool, ts: Seq<TokenView>, p: int) -> (t: StmtView)
    requires
        stmt is Assign || stmt is IndexAssign || stmt is Expr,
        writable_stmt(stmt, outside),
        stands(ts, p, stmt_tokens(stmt)),
    ensures
        gives(parse_assignment_or_expr(ts, p), t, p + stmt_tokens(stmt).len()),
        alike_stmt(stmt, t),
    decreases stmt, 4int,
{
    if stmt is Assign {
        lemma_assign(stmt, ts, p)
    } else if stmt is IndexAssign {
        lemma_index_assign(stmt, outside, ts, p)
    } else {
        let value = stmt->Expr_value;
        let a = expr_tokens(value);
        let end = seq![TokenKindView::Semicolon];
        lemma_cut(ts, p, a, end);
        let q = p + a.len();
        lemma_token(ts, q, TokenKindView::Semicolon);
        let x = lemma_level(value, 0, ts, p);
        assert(gives(parse_expr(ts, p), x, q));
        StmtView::Expr { value: x, span: joined(x.span(), ts[q].span) }
    }
}

#[verifier::rlimit(60)]
proof fn lemma_stmt(stmt: StmtView, outside: bool, ts: Seq<TokenView>, p: int) -> (t: StmtView)
    requires
        writable_stmt(stmt, outside),
        !(stmt is Import) && !(stmt is Function),
        stmt matches StmtView::Let { exported, .. } ==> !exported,
        stands(ts, p, stmt_tokens(stmt)),
        !(kind_at(ts, p + stmt_tokens(stmt).len()) is Else),
    ensures
        gives(parse_stmt(ts, p), t, p + stmt_tokens(stmt).len()),
        alike_stmt(stmt, t),
    decreases stmt, 5int,
{
    lemma_front(ts, p, stmt_tokens(stmt));
    match stmt {
        StmtView::Let { name, initializer, .. } => {
            let front = seq![
                TokenKindView::Let,
                TokenKindView::Identifier(name),
                TokenKindView::Equal,
            ];
            assert(Seq::<TokenKindView>::empty() + front =~= front);
            lemma_let(name, initializer, false, ts, p)
        },
        StmtView::If { else_branch, .. } => if else_branch.len() == 0 {
            lemma_branch(stmt, ts, p)
        } else {
            lemma_branches(stmt, ts, p)
        },
        StmtView::While { .. } => lemma_loop(stmt, ts, p),
        StmtView::Return { value, .. } => {
            let word = seq![TokenKindView::Return];
            let a = expr_tokens(value);
            lemma_cut(ts, p, word + a, seq![TokenKindView::Semicolon]);
            lemma_cut(ts, p, word, a);
            lemma_token(ts, p, TokenKindView::Return);
            let q = p + 1 + a.len();
            lemma_token(ts, q, TokenKindView::Semicolon);
            let x = lemma_level(value, 0, ts, p + 1);
            StmtView::Return { value: x, span: joined(ts[p].span, ts[q].span) }
        },
        StmtView::Block { statements, .. } => {
            let x = lemma_block(statements, ts, p);
            let end = ts[p + block_tokens(statements).len() - 1].span;
            StmtView::Block { statements: x, span: joined(ts[p].span, end) }
        },
        _ => {
            lemma_simple_begins(stmt, outside);
            lemma_simple(stmt, outside, ts, p)
        },
    }
}

proof fn lemma_simple_begins(stmt: StmtView, outside: bool)
    requires
        stmt is Assign || stmt is IndexAssign || stmt is Expr,
        writable_stmt(stmt, outside),
    ensures
        stmt_tokens(stmt).len() > 0,
        begins_expr(stmt_tokens(stmt)[0]),
        !(stmt_tokens(stmt)[0] is LeftBrace),
        outside ==> !(stmt_tokens(stmt)[0] is Fn),
{
    match stmt {
        StmtView::Assign { name, .. } => {
            lemma_name_begins(name);
        },
        StmtView::IndexAssign { target, .. } => {
            lemma_expr_begins(target);
        },
        _ => {
            lemma_expr_begins(stmt->Expr_value);
        },
    }
}

// ---------------------------------------------------------------------------
// Programs
// ---------------------------------------------------------------------------

/// A function behind its `fn`.
#[verifier::rlimit(60)]
proof fn lemma_function(
    name: Seq<char>,
    params: Seq<Seq<char>>,
    body: Seq<StmtView>,
    exported: bool,
    ts: Seq<TokenView>,
    p: int,
) -> (t: StmtView)
    requires
        forall|i: int| 0 <= i < body.len() ==> writable_stmt(#[trigger] body[i], false),
        stands(
            ts,
            p,
            seq![TokenKindView::Fn, TokenKindView::Identifier(name)] + signature_tokens(params)
                + block_tokens(body),
        ),
    ensures
        0 <= p < ts.len(),
        kind_at(ts, p) is Fn,
        gives(
            parse_function(ts, p + 1, exported),
            t,
            p + 2 + signature_tokens(params).len() + block_tokens(body).len(),
        ),
        t matches StmtView::Function { name: n, params: c, body: x, exported: e, .. } && n == name
            && c == params && e == exported && alike_stmts(body, x),
{
    let front = seq![TokenKindView::Fn, TokenKindView::Identifier(name)];
    let a = signature_tokens(params);
    let b = block_tokens(body);
    lemma_cut(ts, p, front + a, b);
    lemma_cut(ts, p, front, a);
    lemma_pair(ts, p, TokenKindView::Fn, TokenKindView::Identifier(name));
    lemma_signature(params, ts, p + 2);
    let q = p + 2 + a.len();
    let x = lemma_block(body, ts, q);
    StmtView::Function {
        name,
        params,
        body: x,
        exported,
        span: joined(ts[p].span, ts[q + b.len() - 1].span),
    }
}

#[verifier::rlimit(60)]
proof fn lemma_import(stmt: StmtView, ts: Seq<TokenView>, p: int) -> (t: StmtView)
    requires
        stmt is Import,
        stands(ts, p, stmt_tokens(stmt)),
    ensures
        gives(parse_declaration(ts, p), t, p + stmt_tokens(stmt).len()),
        alike_stmt(stmt, t),
{
    let module = stmt->Import_module;
    let word = seq![TokenKindView::Import];
    let a = name_tokens(module);
    lemma_cut(ts, p, word + a, seq![TokenKindView::Semicolon]);
    lemma_cut(ts, p, word, a);
    lemma_token(ts, p, TokenKindView::Import);
    let q = p + 1 + a.len();
    lemma_token(ts, q, TokenKindView::Semicolon);
    let first = lemma_module(module, ts, p + 1);
    let t = StmtView::Import { module, span: joined(ts[p].span, ts[q].span) };
    assert(gives(module_name_rest(ts, module, q), module, q));
    assert(gives(parse_import(ts, p + 1), t, q + 1));
    t
}

#[verifier::rlimit(60)]
proof fn lemma_function_stmt(stmt: StmtView, ts: Seq<TokenView>, p: int) -> (t: StmtView)
    requires
        stmt is Function,
        writable_stmt(stmt, true),
        stands(ts, p, stmt_tokens(stmt)),
    ensures
        gives(parse_declaration(ts, p), t, p + stmt_tokens(stmt).len()),
        alike_stmt(stmt, t),
{
    let name = stmt->Function_name;
    let params = stmt->Function_params;
    let body = stmt->Function_body;
    let mark = seq![TokenKindView::Export];
    let front = seq![TokenKindView::Fn, TokenKindView::Identifier(name)];
    let a = signature_tokens(params);
    let b = block_tokens(body);
    if stmt->Function_exported {
        assert(stmt_tokens(stmt) == mark + front + a + b);
        lemma_marked(mark, front, a, b);
        lemma_cut(ts, p, mark, front + a + b);
        lemma_token(ts, p, TokenKindView::Export);
        lemma_function(name, params, body, true, ts, p + 1)
    } else {
        assert(stmt_tokens(stmt) == Seq::<TokenKindView>::empty() + front + a + b);
        assert(Seq::<TokenKindView>::empty() + front =~= front);
        lemma_function(name, params, body, false, ts, p)
    }
}

#[verifier::rlimit(60)]
proof fn lemma_exported_let(
    name: Seq<char>,
    initializer: ExprView,
    ts: Seq<TokenView>,
    p: int,
) -> (t: StmtView)
    requires
        writable(initializer),
        stands(
            ts,
            p,
            export_tokens(true) + seq![
                TokenKindView::Let,
                TokenKindView::Identifier(name),
                TokenKindView::Equal,
            ] + expr_tokens(initializer) + seq![TokenKindView::Semicolon],
        ),
    ensures
        gives(parse_declaration(ts, p), t, p + 4 + expr_tokens(initializer).len() + 1),
        t matches StmtView::Let { name: n, initializer: i, exported: e, .. } && n == name && e
            && alike(initializer, i),
{
    let mark = export_tokens(true);
    let front = seq![TokenKindView::Let, TokenKindView::Identifier(name), TokenKindView::Equal];
    let a = expr_tokens(initializer);
    let end = seq![TokenKindView::Semicolon];
    lemma_marked(mark, front, a, end);
    lemma_cut(ts, p, mark, front + a + end);
    lemma_token(ts, p, TokenKindView::Export);
    let t = lemma_let(name, initializer, true, ts, p + 1);
    lemma_exports(ts, p);
    t
}

proof fn lemma_exports(ts: Seq<TokenView>, p: int)
    requires
        kind_at(ts, p) is Export,
        kind_at(ts, p + 1) is Let,
    ensures
        parse_declaration(ts, p) == parse_let(ts, p + 2, true),
{
}

proof fn lemma_marked(
    mark: Seq<TokenKindView>,
    front: Seq<TokenKindView>,
    a: Seq<TokenKindView>,
    end: Seq<TokenKindView>,
)
    ensures
        mark + front + a + end == mark + (front + a + end),
        (front + a + end).len() == front.len() + a.len() + end.len(),
{
    assert(mark + front + a + end =~= mark + (front + a + end));
}

#[verifier::rlimit(60)]
proof fn lemma_declaration(stmt: StmtView, ts: Seq<TokenView>, p: int) -> (t: StmtView)
    requires
        writable_stmt(stmt, true),
        stands(ts, p, stmt_tokens(stmt)),
        !(kind_at(ts, p + stmt_tokens(stmt).len()) is Else),
    ensures
        gives(parse_declaration(ts, p), t, p + stmt_tokens(stmt).len()),
        alike_stmt(stmt, t),
{
    lemma_front(ts, p, stmt_tokens(stmt));
    if stmt is Import {
        lemma_import(stmt, ts, p)
    } else if stmt is Function {
        lemma_function_stmt(stmt, ts, p)
    } else if stmt is Let && stmt->Let_exported {
        lemma_exported_let(stmt->Let_name, stmt->Let_initializer, ts, p)
    } else {
        if stmt is Assign || stmt is IndexAssign || stmt is Expr {
            lemma_simple_begins(stmt, true);
        } else {
            assert(!(stmt_tokens(stmt)[0] is Export) && !(stmt_tokens(stmt)[0] is Fn)
                && !(stmt_tokens(stmt)[0] is Import));
        }
        lemma_stmt(stmt, true, ts, p)
    }
}

proof fn lemma_program(stmts: Seq<StmtView>, i: int, ts: Seq<TokenView>, p: int) -> (list: Seq<
    StmtView,
>)
    requires
        0 <= i <= stmts.len(),
        forall|i: int| 0 <= i < stmts.len() ==> writable_stmt(#[trigger] stmts[i], true),
        stands(ts, p, stmts_tokens(stmts, i)),
        kind_at(ts, p + stmts_tokens(stmts, i).len()) is Eof,
    ensures
        gives(parse_program(ts, p), list, p + stmts_tokens(stmts, i).len()),
        list.len() == stmts.len() - i,
        forall|k: int| 0 <= k < list.len() ==> alike_stmt(stmts[i + k], #[trigger] list[k]),
    decreases stmts.len() - i,
{
    if i < stmts.len() {
        let a = stmt_tokens(stmts[i]);
        let b = stmts_tokens(stmts, i + 1);
        assert(writable_stmt(stmts[i], true));
        lemma_cut(ts, p, a, b);
        lemma_front(ts, p, a);
        let q = p + a.len();
        lemma_stmt_begins(stmts[i]);
        lemma_front(ts, q, b);
        if i + 1 < stmts.len() {
            lemma_stmt_begins(stmts[i + 1]);
        }
        let t = lemma_declaration(stmts[i], ts, p);
        let rest = lemma_program(stmts, i + 1, ts, q);
        let list = seq![t] + rest;
        assert forall|k: int| 0 <= k < list.len() implies alike_stmt(
            stmts[i + k],
            #[trigger] list[k],
        ) by {
            if k > 0 {
                assert(alike_stmt(stmts[i + 1 + (k - 1)], rest[k - 1]));
            }
        }
        list
    } else {
        Seq::empty()
    }
}

/// A program that is written down token by token is parsed back as the same program.
pub proof fn written_programs_are_parsed_back(stmts: Seq<StmtView>, ts: Seq<TokenView>) -> (tree:
    Seq<StmtView>)
    requires
        forall|i: int| 0 <= i < stmts.len() ==> writable_stmt(#[trigger] stmts[i], true),
        stands(ts, 0, stmts_tokens(stmts, 0)),
        ts.len() == stmts_tokens(stmts, 0).len() + 1,
        ts.last().kind is Eof,
    ensures
        parsed(ts) == Ok::<Seq<StmtView>, CompileErrorView>(tree),
        alike_stmts(stmts, tree),
{
    let list = lemma_program(stmts, 0, ts, 0);
    assert forall|i: int| 0 <= i < stmts.len() implies alike_stmt(#[trigger] stmts[i], list[i]) by {
        assert(alike_stmt(stmts[0 + i], list[i]));
    }
    list
}

} // verus!
