//! What the grammar guarantees: operator precedence, source spans and where statements part.

use vstd::prelude::*;
use vstd::utf8::encode_utf8;

use crate::compiler::ast::{BinaryOp, ExprView, StmtView};
use crate::compiler::lexer::{
    token_spans_are_ordered, tokens_end_with_one_eof, tokens_from, TokenKindView, TokenView,
};
use crate::compiler::parser::{
    assignment, at_end, binary_expr, binary_rest, block_rest, call_rest, entry_list, expect,
    expect_name, expr_list, held, joined, kind_at, left, module_name_rest, onward, operator,
    param_list, parse_assignment_or_expr, parse_binary, parse_block, parse_call, parse_condition,
    parse_declaration, parse_entries, parse_expr, parse_exprs, parse_function, parse_if,
    parse_import, parse_let, parse_primary, parse_program, parse_return, parse_signature,
    parse_stmt, parse_stmts, parse_while, parsed, step, taken,
};
use crate::diagnostics::span::{FileId, SourceSpan};

verus! {

// ---------------------------------------------------------------------------
// Precedence
// ---------------------------------------------------------------------------

/// How tight an operator binds: equality, comparison, sums, products.
pub open spec fn op_level(op: BinaryOp) -> nat {
    match op {
        BinaryOp::Equal => 0,
        BinaryOp::NotEqual => 0,
        BinaryOp::Less => 1,
        BinaryOp::LessEqual => 1,
        BinaryOp::Greater => 1,
        BinaryOp::GreaterEqual => 1,
        BinaryOp::Add => 2,
        BinaryOp::Sub => 2,
        BinaryOp::Mul => 3,
        BinaryOp::Div => 3,
    }
}

/// The operators at the root of a tree bind at least as tight as a level, no operand of an
/// operator is bound looser than the operator itself, and operators of one level group to the
/// left.
pub open spec fn binds_at(expr: ExprView, level: nat) -> bool
    decreases expr,
{
    match expr {
        ExprView::Binary { op, lhs, rhs, .. } => {
            &&& level <= op_level(op)
            &&& binds_at(*lhs, op_level(op))
            &&& binds_at(*rhs, op_level(op) + 1)
        },
        _ => true,
    }
}

/// Calls, member names and indices make no operator expression of another expression.
proof fn lemma_call_rest_form(ts: Seq<TokenView>, expr: ExprView, p: int)
    requires
        !(expr is Binary),
    ensures
        call_rest(ts, expr, p) matches Ok((value, _)) ==> !(value is Binary),
    decreases left(ts, p),
{
    match kind_at(ts, p) {
        TokenKindView::LeftParen => {
            if let ExprView::Variable { name, span } = expr {
                if let Ok((args, q)) = parse_exprs(ts, p + 1, TokenKindView::RightParen) {
                    let h = held(ts, p + 1, q);
                    lemma_call_rest_form(
                        ts,
                        ExprView::Call { callee: name, args, span: joined(span, ts[h].span) },
                        onward(ts, p, h + 1),
                    );
                }
            }
        },
        TokenKindView::Dot => {
            if let ExprView::Variable { name, span } = expr {
                if let TokenKindView::Identifier(member) = taken(ts, p + 1).kind {
                    lemma_call_rest_form(
                        ts,
                        ExprView::Variable {
                            name: name + "."@ + member,
                            span: joined(span, taken(ts, p + 1).span),
                        },
                        onward(ts, p, step(ts, p + 1)),
                    );
                }
            }
        },
        TokenKindView::LeftBracket => {
            if let Ok((index, q)) = parse_expr(ts, p + 1) {
                let h = held(ts, p + 1, q);
                lemma_call_rest_form(
                    ts,
                    ExprView::Index {
                        target: Box::new(expr),
                        index: Box::new(index),
                        span: joined(expr.span(), ts[h].span),
                    },
                    onward(ts, p, h + 1),
                );
            }
        },
        _ => {},
    }
}

proof fn lemma_binary_binds(ts: Seq<TokenView>, level: nat, p: int)
    requires
        level <= 4,
    ensures
        parse_binary(ts, level, p) matches Ok((value, _)) ==> binds_at(value, level),
    decreases left(ts, p), 20 - 2 * level,
{
    if level == 4 {
        assert(parse_binary(ts, level, p) == parse_call(ts, p));
        if let Ok((expr, q)) = parse_primary(ts, p) {
            lemma_call_rest_form(ts, expr, held(ts, p, q));
        }
    } else {
        lemma_binary_binds(ts, level + 1, p);
        if let Ok((lhs, q)) = parse_binary(ts, level + 1, p) {
            lemma_rest_binds(ts, level, lhs, held(ts, p, q));
        }
    }
}

proof fn lemma_rest_binds(ts: Seq<TokenView>, level: nat, lhs: ExprView, p: int)
    requires
        level < 4,
        binds_at(lhs, level),
    ensures
        binary_rest(ts, level, lhs, p) matches Ok((value, _)) ==> binds_at(value, level),
    decreases left(ts, p), 19 - 2 * level,
{
    if let Some(op) = operator(level, kind_at(ts, p)) {
        lemma_binary_binds(ts, level + 1, p + 1);
        if let Ok((rhs, q)) = parse_binary(ts, level + 1, p + 1) {
            assert(op_level(op) == level);
            lemma_rest_binds(ts, level, binary_expr(lhs, op, rhs), onward(ts, p, q));
        }
    }
}

/// Products bind tighter than sums, sums tighter than comparisons, comparisons tighter than
/// equality, and operators of equal precedence group to the left.
pub proof fn expressions_respect_precedence(ts: Seq<TokenView>, p: int)
    ensures
        parse_expr(ts, p) matches Ok((value, _)) ==> binds_at(value, 0),
{
    lemma_binary_binds(ts, 0, p);
}

// ---------------------------------------------------------------------------
// Spans
// ---------------------------------------------------------------------------

/// The span from the token taken at `p` to the last token before `q`.
pub open spec fn token_span(ts: Seq<TokenView>, p: int, q: int) -> SourceSpan {
    joined(taken(ts, p).span, ts[q - 1].span)
}

/// An expression ends behind its first token and spans its tokens.
pub open spec fn placed(ts: Seq<TokenView>, p: int, value: ExprView, q: int) -> bool {
    &&& step(ts, p) <= q <= ts.len()
    &&& value.span() == token_span(ts, p, q)
}

pub(crate) proof fn lemma_expr(ts: Seq<TokenView>, p: int)
    requires
        0 <= p <= ts.len(),
    ensures
        parse_expr(ts, p) matches Ok((value, q)) ==> placed(ts, p, value, q),
    decreases left(ts, p), 21int,
{
    lemma_binary(ts, 0, p);
}

pub(crate) proof fn lemma_binary(ts: Seq<TokenView>, level: nat, p: int)
    requires
        0 <= p <= ts.len(),
        level <= 4,
    ensures
        parse_binary(ts, level, p) matches Ok((value, q)) ==> placed(ts, p, value, q),
    decreases left(ts, p), 20 - 2 * level,
{
    if level == 4 {
        assert(parse_binary(ts, level, p) == parse_call(ts, p));
        lemma_primary(ts, p);
        if let Ok((expr, q)) = parse_primary(ts, p) {
            lemma_call_rest(ts, expr, q, taken(ts, p).span);
        }
    } else {
        lemma_binary(ts, level + 1, p);
        if let Ok((lhs, q)) = parse_binary(ts, level + 1, p) {
            lemma_binary_rest(ts, level, lhs, q, taken(ts, p).span);
        }
    }
}

pub(crate) proof fn lemma_binary_rest(
    ts: Seq<TokenView>,
    level: nat,
    lhs: ExprView,
    p: int,
    first: SourceSpan,
)
    requires
        0 <= p <= ts.len(),
        level < 4,
        lhs.span() == joined(first, ts[p - 1].span),
    ensures
        binary_rest(ts, level, lhs, p) matches Ok((value, q)) ==> p <= q <= ts.len()
            && value.span() == joined(first, ts[q - 1].span),
    decreases left(ts, p), 19 - 2 * level,
{
    if let Some(op) = operator(level, kind_at(ts, p)) {
        lemma_binary(ts, level + 1, p + 1);
        if let Ok((rhs, q)) = parse_binary(ts, level + 1, p + 1) {
            lemma_binary_rest(ts, level, binary_expr(lhs, op, rhs), q, first);
        }
    }
}

pub(crate) proof fn lemma_call_rest(ts: Seq<TokenView>, expr: ExprView, p: int, first: SourceSpan)
    requires
        0 <= p <= ts.len(),
        expr.span() == joined(first, ts[p - 1].span),
    ensures
        call_rest(ts, expr, p) matches Ok((value, q)) ==> p <= q <= ts.len() && value.span()
            == joined(first, ts[q - 1].span),
    decreases left(ts, p), 10int,
{
    match kind_at(ts, p) {
        TokenKindView::LeftParen => {
            if let ExprView::Variable { name, span } = expr {
                if let Ok((args, q)) = parse_exprs(ts, p + 1, TokenKindView::RightParen) {
                    let h = held(ts, p + 1, q);
                    if h < ts.len() {
                        lemma_call_rest(
                            ts,
                            ExprView::Call { callee: name, args, span: joined(span, ts[h].span) },
                            h + 1,
                            first,
                        );
                    }
                }
            }
        },
        TokenKindView::Dot => {
            if let ExprView::Variable { name, span } = expr {
                if let TokenKindView::Identifier(member) = taken(ts, p + 1).kind {
                    lemma_call_rest(
                        ts,
                        ExprView::Variable {
                            name: name + "."@ + member,
                            span: joined(span, taken(ts, p + 1).span),
                        },
                        step(ts, p + 1),
                        first,
                    );
                }
            }
        },
        TokenKindView::LeftBracket => {
            if let Ok((index, q)) = parse_expr(ts, p + 1) {
                let h = held(ts, p + 1, q);
                if h < ts.len() {
                    lemma_call_rest(
                        ts,
                        ExprView::Index {
                            target: Box::new(expr),
                            index: Box::new(index),
                            span: joined(expr.span(), ts[h].span),
                        },
                        h + 1,
                        first,
                    );
                }
            }
        },
        _ => {},
    }
}

pub(crate) proof fn lemma_primary(ts: Seq<TokenView>, p: int)
    requires
        0 <= p <= ts.len(),
    ensures
        parse_primary(ts, p) matches Ok((value, q)) ==> placed(ts, p, value, q),
    decreases left(ts, p), 9int,
{
    let token = taken(ts, p);
    let q = step(ts, p);
    if !at_end(ts, p) {
        match token.kind {
            TokenKindView::Fn => {
                lemma_signature(ts, q);
                if let Ok((params, r)) = parse_signature(ts, q) {
                    lemma_block(ts, r);
                }
            },
            TokenKindView::LeftParen => {
                lemma_expr(ts, q);
            },
            TokenKindView::LeftBracket => {
                lemma_exprs(ts, q, TokenKindView::RightBracket);
            },
            TokenKindView::LeftBrace => {
                lemma_entries(ts, q);
            },
            _ => {},
        }
    }
}

pub(crate) proof fn lemma_exprs(ts: Seq<TokenView>, p: int, close: TokenKindView)
    requires
        0 <= p <= ts.len(),
    ensures
        parse_exprs(ts, p, close) matches Ok((_, q)) ==> p <= q <= ts.len(),
    decreases left(ts, p), 23int,
{
    if kind_at(ts, p) != close {
        lemma_expr_list(ts, p);
    }
}

pub(crate) proof fn lemma_expr_list(ts: Seq<TokenView>, p: int)
    requires
        0 <= p <= ts.len(),
    ensures
        expr_list(ts, p) matches Ok((_, q)) ==> p <= q <= ts.len(),
    decreases left(ts, p), 22int,
{
    lemma_expr(ts, p);
    if let Ok((expr, q)) = parse_expr(ts, p) {
        if kind_at(ts, q) is Comma {
            lemma_expr_list(ts, q + 1);
        }
    }
}

pub(crate) proof fn lemma_entries(ts: Seq<TokenView>, p: int)
    requires
        0 <= p <= ts.len(),
    ensures
        parse_entries(ts, p) matches Ok((_, q)) ==> p <= q <= ts.len(),
    decreases left(ts, p), 23int,
{
    if !(kind_at(ts, p) is RightBrace) {
        lemma_entry_list(ts, p);
    }
}

pub(crate) proof fn lemma_entry_list(ts: Seq<TokenView>, p: int)
    requires
        0 <= p <= ts.len(),
    ensures
        entry_list(ts, p) matches Ok((_, q)) ==> p <= q <= ts.len(),
    decreases left(ts, p), 22int,
{
    lemma_expr(ts, p);
    if let Ok((key, q)) = parse_expr(ts, p) {
        if q < ts.len() {
            lemma_expr(ts, q + 1);
            if let Ok((value, s)) = parse_expr(ts, q + 1) {
                if kind_at(ts, s) is Comma {
                    lemma_entry_list(ts, s + 1);
                }
            }
        }
    }
}

pub(crate) proof fn lemma_param_list(ts: Seq<TokenView>, p: int)
    requires
        0 <= p <= ts.len(),
    ensures
        param_list(ts, p) matches Ok((_, q)) ==> p <= q <= ts.len(),
    decreases left(ts, p),
{
    let q = step(ts, p);
    if kind_at(ts, q) is Comma {
        lemma_param_list(ts, q + 1);
    }
}

pub(crate) proof fn lemma_signature(ts: Seq<TokenView>, p: int)
    requires
        0 <= p <= ts.len(),
    ensures
        parse_signature(ts, p) matches Ok((_, q)) ==> p < q <= ts.len(),
{
    if p < ts.len() {
        lemma_param_list(ts, p + 1);
    }
}

pub(crate) proof fn lemma_block(ts: Seq<TokenView>, p: int)
    requires
        0 <= p <= ts.len(),
    ensures
        parse_block(ts, p) matches Ok(((_, end), q)) ==> p < q <= ts.len() && end == ts[q - 1].span
            && !(ts[q - 1].kind is Eof),
    decreases left(ts, p), 33int,
{
    if p < ts.len() {
        lemma_block_rest(ts, p + 1);
    }
}

pub(crate) proof fn lemma_block_rest(ts: Seq<TokenView>, p: int)
    requires
        0 <= p <= ts.len(),
    ensures
        block_rest(ts, p) matches Ok(((_, end), q)) ==> p < q <= ts.len() && end == ts[q - 1].span
            && !(ts[q - 1].kind is Eof),
    decreases left(ts, p), 32int,
{
    lemma_stmts(ts, p);
}

pub(crate) proof fn lemma_stmts(ts: Seq<TokenView>, p: int)
    requires
        0 <= p <= ts.len(),
    ensures
        parse_stmts(ts, p) matches Ok((_, q)) ==> p <= q <= ts.len(),
    decreases left(ts, p), 31int,
{
    if !(kind_at(ts, p) is RightBrace || at_end(ts, p)) {
        lemma_stmt(ts, p);
        if let Ok((stmt, q)) = parse_stmt(ts, p) {
            lemma_stmts(ts, q);
        }
    }
}

/// The source range of a statement.
pub open spec fn stmt_span(stmt: StmtView) -> SourceSpan {
    match stmt {
        StmtView::Import { span, .. } => span,
        StmtView::Let { span, .. } => span,
        StmtView::Function { span, .. } => span,
        StmtView::Assign { span, .. } => span,
        StmtView::IndexAssign { span, .. } => span,
        StmtView::Return { span, .. } => span,
        StmtView::If { span, .. } => span,
        StmtView::While { span, .. } => span,
        StmtView::Block { span, .. } => span,
        StmtView::Expr { span, .. } => span,
    }
}

/// A statement ends behind its first token and spans its tokens.
pub open spec fn stmt_placed(ts: Seq<TokenView>, p: int, value: StmtView, q: int) -> bool {
    &&& p < q <= ts.len()
    &&& !(ts[q - 1].kind is Eof)
    &&& stmt_span(value) == token_span(ts, p, q)
}

pub(crate) proof fn lemma_stmt(ts: Seq<TokenView>, p: int)
    requires
        0 <= p < ts.len(),
        !at_end(ts, p),
    ensures
        parse_stmt(ts, p) matches Ok((value, q)) ==> stmt_placed(ts, p, value, q),
    decreases left(ts, p), 30int,
{
    match kind_at(ts, p) {
        TokenKindView::Let => {
            assert(parse_stmt(ts, p) == parse_let(ts, p + 1, false));
            lemma_let(ts, p + 1, false);
        },
        TokenKindView::If => {
            assert(parse_stmt(ts, p) == parse_if(ts, p + 1));
            lemma_if(ts, p + 1);
        },
        TokenKindView::While => {
            assert(parse_stmt(ts, p) == parse_while(ts, p + 1));
            lemma_while(ts, p + 1);
        },
        TokenKindView::Return => {
            assert(parse_stmt(ts, p) == parse_return(ts, p + 1));
            lemma_return(ts, p + 1);
        },
        TokenKindView::LeftBrace => {
            lemma_block_rest(ts, p + 1);
        },
        _ => {
            assert(parse_stmt(ts, p) == parse_assignment_or_expr(ts, p));
            lemma_assignment_or_expr(ts, p);
        },
    }
}

pub(crate) proof fn lemma_let(ts: Seq<TokenView>, p: int, exported: bool)
    requires
        0 < p <= ts.len(),
        !at_end(ts, p - 1),
    ensures
        parse_let(ts, p, exported) matches Ok((value, q)) ==> stmt_placed(ts, p - 1, value, q),
    decreases left(ts, p), 29int,
{
    if let Ok((name, q)) = expect_name(ts, p, "identifier"@) {
        if let Ok((_, r)) = expect(ts, q, TokenKindView::Equal, "`=`"@) {
            lemma_expr(ts, r);
            if let Ok((initializer, s)) = parse_expr(ts, r) {
                if let Ok((end, t)) = expect(ts, s, TokenKindView::Semicolon, "`;`"@) {
                    assert(end == ts[t - 1].span);
                }
            }
        }
    }
}

pub(crate) proof fn lemma_if(ts: Seq<TokenView>, p: int)
    requires
        0 < p <= ts.len(),
        !at_end(ts, p - 1),
    ensures
        parse_if(ts, p) matches Ok((value, q)) ==> stmt_placed(ts, p - 1, value, q),
    decreases left(ts, p), 34int,
{
    lemma_condition(ts, p);
    if let Ok((condition, q)) = parse_condition(ts, p) {
        lemma_block(ts, q);
        if let Ok((_, r)) = parse_block(ts, q) {
            if kind_at(ts, r) is Else {
                lemma_block(ts, r + 1);
            }
        }
    }
}

pub(crate) proof fn lemma_while(ts: Seq<TokenView>, p: int)
    requires
        0 < p <= ts.len(),
        !at_end(ts, p - 1),
    ensures
        parse_while(ts, p) matches Ok((value, q)) ==> stmt_placed(ts, p - 1, value, q),
    decreases left(ts, p), 34int,
{
    lemma_condition(ts, p);
    if let Ok((condition, q)) = parse_condition(ts, p) {
        lemma_block(ts, q);
    }
}

pub(crate) proof fn lemma_return(ts: Seq<TokenView>, p: int)
    requires
        0 < p <= ts.len(),
        !at_end(ts, p - 1),
    ensures
        parse_return(ts, p) matches Ok((value, q)) ==> stmt_placed(ts, p - 1, value, q),
    decreases left(ts, p), 29int,
{
    lemma_expr(ts, p);
}

pub(crate) proof fn lemma_assignment_or_expr(ts: Seq<TokenView>, p: int)
    requires
        0 <= p < ts.len(),
        !at_end(ts, p),
    ensures
        parse_assignment_or_expr(ts, p) matches Ok((value, q)) ==> stmt_placed(ts, p, value, q),
    decreases left(ts, p), 29int,
{
    lemma_expr(ts, p);
    if let Ok((target, q)) = parse_expr(ts, p) {
        assert(held(ts, p, q) == q);
        if kind_at(ts, q) is Equal {
            lemma_expr(ts, q + 1);
            if let Ok((value, r)) = parse_expr(ts, q + 1) {
                if let Ok((end, s)) = expect(ts, r, TokenKindView::Semicolon, "`;`"@) {
                    assert(end == ts[s - 1].span);
                    if let Ok(stmt) = assignment(target, value, end) {
                        assert(stmt_span(stmt) == joined(target.span(), end));
                    }
                }
            }
        } else if let Ok((end, r)) = expect(ts, q, TokenKindView::Semicolon, "`;`"@) {
            assert(end == ts[r - 1].span);
        }
    }
}

pub(crate) proof fn lemma_condition(ts: Seq<TokenView>, p: int)
    requires
        0 <= p <= ts.len(),
    ensures
        parse_condition(ts, p) matches Ok((_, q)) ==> p < q <= ts.len(),
    decreases left(ts, p), 28int,
{
    if p < ts.len() {
        lemma_expr(ts, p + 1);
    }
}

/// The span of a parsed expression begins with its first token and ends with its last one.
pub proof fn expression_spans_cover_their_tokens(ts: Seq<TokenView>, p: int)
    requires
        0 <= p < ts.len(),
        !at_end(ts, p),
    ensures
        parse_expr(ts, p) matches Ok((value, q)) ==> {
            &&& p < q <= ts.len()
            &&& value.span() == joined(ts[p].span, ts[q - 1].span)
        },
{
    lemma_expr(ts, p);
}

/// The span of a parsed statement begins with its first token and ends with its last one.
pub proof fn statement_spans_cover_their_tokens(ts: Seq<TokenView>, p: int)
    requires
        0 <= p < ts.len(),
        !at_end(ts, p),
    ensures
        parse_stmt(ts, p) matches Ok((value, q)) ==> {
            &&& p < q <= ts.len()
            &&& stmt_span(value) == joined(ts[p].span, ts[q - 1].span)
        },
{
    lemma_stmt(ts, p);
}

// ---------------------------------------------------------------------------
// Top-level statements
// ---------------------------------------------------------------------------

pub(crate) proof fn lemma_module_name_rest(ts: Seq<TokenView>, name: Seq<char>, p: int)
    requires
        0 <= p <= ts.len(),
    ensures
        module_name_rest(ts, name, p) matches Ok((_, q)) ==> p <= q <= ts.len(),
    decreases left(ts, p),
{
    if kind_at(ts, p) is Dot {
        if let Ok((part, q)) = expect_name(ts, p + 1, "module name"@) {
            lemma_module_name_rest(ts, name + "."@ + part, q);
        }
    }
}

pub(crate) proof fn lemma_import(ts: Seq<TokenView>, p: int)
    requires
        0 < p <= ts.len(),
        !at_end(ts, p - 1),
    ensures
        parse_import(ts, p) matches Ok((value, q)) ==> stmt_placed(ts, p - 1, value, q),
{
    if let Ok((first, q)) = expect_name(ts, p, "module name"@) {
        lemma_module_name_rest(ts, first, q);
        if let Ok((module, r)) = module_name_rest(ts, first, q) {
            if let Ok((end, s)) = expect(ts, r, TokenKindView::Semicolon, "`;`"@) {
                assert(end == ts[s - 1].span);
            }
        }
    }
}

pub(crate) proof fn lemma_function(ts: Seq<TokenView>, p: int)
    requires
        0 < p <= ts.len(),
        !at_end(ts, p - 1),
    ensures
        parse_function(ts, p, false) matches Ok((value, q)) ==> stmt_placed(ts, p - 1, value, q),
{
    if let Ok((name, q)) = expect_name(ts, p, "function name"@) {
        lemma_signature(ts, q);
        if let Ok((params, r)) = parse_signature(ts, q) {
            lemma_block(ts, r);
        }
    }
}

proof fn lemma_declaration(ts: Seq<TokenView>, p: int)
    requires
        0 <= p < ts.len(),
        !at_end(ts, p),
        !(ts[p].kind is Export),
    ensures
        parse_declaration(ts, p) matches Ok((value, q)) ==> stmt_placed(ts, p, value, q),
{
    match kind_at(ts, p) {
        TokenKindView::Fn => {
            assert(parse_declaration(ts, p) == parse_function(ts, p + 1, false));
            lemma_function(ts, p + 1);
        },
        TokenKindView::Import => {
            assert(parse_declaration(ts, p) == parse_import(ts, p + 1));
            lemma_import(ts, p + 1);
        },
        _ => {
            assert(parse_declaration(ts, p) == parse_stmt(ts, p));
            lemma_stmt(ts, p);
        },
    }
}

/// Whether a statement spans from token `a`, at or behind `p`, to the last token before `b`.
pub open spec fn covers(ts: Seq<TokenView>, p: int, stmt: StmtView, a: int, b: int) -> bool {
    &&& p <= a < b < ts.len()
    &&& stmt_span(stmt) == joined(ts[a].span, ts[b - 1].span)
}

/// Whether statements part the tokens from `p` on: statement `i` begins with token `cuts[i]` and
/// ends before token `cuts[i + 1]`, and spans from its first token to its last.
#[verifier::opaque]
pub open spec fn parted(
    ts: Seq<TokenView>,
    p: int,
    stmts: Seq<StmtView>,
    cuts: Seq<int>,
) -> bool {
    &&& cuts.len() == stmts.len() + 1
    &&& cuts[0] == p
    &&& cuts.last() == ts.len() - 1
    &&& forall|i: int|
        0 <= i < stmts.len() ==> covers(ts, p, #[trigger] stmts[i], cuts[i], cuts[i + 1])
}

proof fn lemma_cuts_before(
    ts: Seq<TokenView>,
    p: int,
    stmt: StmtView,
    q: int,
    rest: Seq<StmtView>,
    behind: Seq<int>,
)
    requires
        parted(ts, q, rest, behind),
        0 <= p < q < ts.len(),
        stmt_span(stmt) == joined(ts[p].span, ts[q - 1].span),
    ensures
        parted(ts, p, seq![stmt] + rest, seq![p] + behind),
{
    reveal(parted);
    let cuts = seq![p] + behind;
    let stmts = seq![stmt] + rest;
    assert(cuts.last() == behind.last());
    assert forall|i: int| 0 <= i < stmts.len() implies covers(
        ts,
        p,
        #[trigger] stmts[i],
        cuts[i],
        cuts[i + 1],
    ) by {
        assert(cuts[i + 1] == behind[i]);
        if i > 0 {
            assert(stmts[i] == rest[i - 1]);
            assert(cuts[i] == behind[i - 1]);
            assert(covers(ts, q, rest[i - 1], behind[i - 1], behind[i - 1 + 1]));
        } else {
            assert(stmts[i] == stmt);
        }
    }
}

proof fn lemma_no_cuts(ts: Seq<TokenView>, p: int)
    requires
        p == ts.len() - 1,
    ensures
        parted(ts, p, Seq::empty(), seq![p]),
{
    reveal(parted);
}

proof fn lemma_program_parted(ts: Seq<TokenView>, p: int) -> (cuts: Seq<int>)
    requires
        0 <= p < ts.len(),
        ts[ts.len() - 1].kind is Eof,
        forall|k: int| 0 <= k < ts.len() - 1 ==> !((#[trigger] ts[k]).kind is Eof),
        forall|k: int| 0 <= k < ts.len() ==> !((#[trigger] ts[k]).kind is Export),
        parse_program(ts, p) is Ok,
    ensures
        parted(ts, p, parse_program(ts, p)->Ok_0.0, cuts),
    decreases left(ts, p),
{
    if at_end(ts, p) {
        lemma_no_cuts(ts, p);
        seq![p]
    } else {
        lemma_declaration(ts, p);
        let (stmt, q) = parse_declaration(ts, p)->Ok_0;
        assert(stmt_placed(ts, p, stmt, q));
        assert(onward(ts, p, q) == q);
        let behind = lemma_program_parted(ts, q);
        lemma_cuts_before(ts, p, stmt, q, parse_program(ts, q)->Ok_0.0, behind);
        seq![p] + behind
    }
}

proof fn lemma_cut(ts: Seq<TokenView>, stmts: Seq<StmtView>, cuts: Seq<int>, i: int)
    requires
        parted(ts, 0, stmts, cuts),
        0 <= i < stmts.len(),
    ensures
        0 <= cuts[i] < cuts[i + 1] < ts.len(),
        stmt_span(stmts[i]) == joined(ts[cuts[i]].span, ts[cuts[i + 1] - 1].span),
{
    reveal(parted);
    assert(covers(ts, 0, stmts[i], cuts[i], cuts[i + 1]));
}

proof fn lemma_cuts_ordered(
    ts: Seq<TokenView>,
    stmts: Seq<StmtView>,
    cuts: Seq<int>,
    i: int,
    j: int,
)
    requires
        parted(ts, 0, stmts, cuts),
        0 <= i < j <= stmts.len(),
    ensures
        0 <= cuts[i] < cuts[i + 1] <= cuts[j] < ts.len(),
    decreases j - i,
{
    reveal(parted);
    assert(covers(ts, 0, stmts[i], cuts[i], cuts[i + 1]));
    if i + 1 < j {
        lemma_cuts_ordered(ts, stmts, cuts, i + 1, j);
    }
}

proof fn lemma_spans_apart(
    ts: Seq<TokenView>,
    stmts: Seq<StmtView>,
    cuts: Seq<int>,
    file_id: FileId,
)
    requires
        parted(ts, 0, stmts, cuts),
        forall|k: int| 0 <= k < ts.len() ==> (#[trigger] ts[k]).span.file_id == file_id,
        forall|j: int, k: int|
            0 <= j < k < ts.len() ==> (#[trigger] ts[j]).span.end <= (
            #[trigger] ts[k]).span.start,
    ensures
        forall|i: int|
            0 <= i < stmts.len() ==> (stmt_span(#[trigger] stmts[i])).file_id == file_id,
        forall|i: int, j: int|
            0 <= i < j < stmts.len() ==> stmt_span(#[trigger] stmts[i]).end <= stmt_span(
                #[trigger] stmts[j],
            ).start,
{
    assert forall|i: int| 0 <= i < stmts.len() implies (stmt_span(
        #[trigger] stmts[i],
    )).file_id == file_id by {
        lemma_cut(ts, stmts, cuts, i);
        assert(ts[cuts[i]].span.file_id == file_id);
    }
    assert forall|i: int, j: int| 0 <= i < j < stmts.len() implies stmt_span(
        #[trigger] stmts[i],
    ).end <= stmt_span(#[trigger] stmts[j]).start by {
        lemma_cut(ts, stmts, cuts, i);
        lemma_cut(ts, stmts, cuts, j);
        lemma_cuts_ordered(ts, stmts, cuts, i, j);
        assert(ts[cuts[i + 1] - 1].span.end <= ts[cuts[j]].span.start);
    }
}

/// The top-level statements of a text without exports part its tokens: each statement begins
/// with a token and ends with one, the next begins with the token behind that, and none is left
/// over before the end of the file. So their spans lie in order and apart, in the text's file.
pub proof fn top_level_statements_part_the_tokens(text: Seq<char>, file_id: FileId) -> (cuts: Seq<
    int,
>)
    requires
        encode_utf8(text).len() <= usize::MAX,
        tokens_from(text, 0, file_id) is Ok,
        parsed(tokens_from(text, 0, file_id)->Ok_0) is Ok,
        forall|k: int|
            0 <= k < tokens_from(text, 0, file_id)->Ok_0.len() ==> !((
            #[trigger] tokens_from(text, 0, file_id)->Ok_0[k]).kind is Export),
    ensures
        ({
            let ts = tokens_from(text, 0, file_id)->Ok_0;
            let stmts = parsed(ts)->Ok_0;
            &&& parted(ts, 0, stmts, cuts)
            &&& forall|i: int|
                0 <= i < stmts.len() ==> (stmt_span(#[trigger] stmts[i])).file_id == file_id
            &&& forall|i: int, j: int|
                0 <= i < j < stmts.len() ==> stmt_span(#[trigger] stmts[i]).end <= stmt_span(
                    #[trigger] stmts[j],
                ).start
        }),
{
    let ts = tokens_from(text, 0, file_id)->Ok_0;
    let stmts = parsed(ts)->Ok_0;
    tokens_end_with_one_eof(text, file_id);
    token_spans_are_ordered(text, file_id);
    let cuts = lemma_program_parted(ts, 0);
    lemma_spans_apart(ts, stmts, cuts, file_id);
    cuts
}

} // verus!
