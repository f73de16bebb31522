//! Which parts of a syntax tree stand for which tokens: each part of the grammar in terms of its
//! own parts.

use vstd::prelude::*;

use crate::compiler::ast::{BinaryOp, ExprView, LiteralView, StmtView};
use crate::compiler::error::CompileErrorView;
use crate::compiler::lexer::{TokenKindView, TokenView};
use crate::compiler::parser::{
    assignment, at_end, binary_expr, binary_rest, call_rest, entry_list, expr_list, gives, joined,
    kind_at, module_name_rest, onward, operator, param_list, parse_assignment_or_expr,
    parse_binary, parse_block, parse_call, parse_condition, parse_declaration, parse_entries,
    parse_expr, parse_exprs, parse_function, parse_if, parse_import, parse_let, parse_primary,
    parse_program, parse_return, parse_signature, parse_stmt, parse_stmts, parse_while, parsed,
};
use crate::compiler::parser_laws::{
    lemma_binary, lemma_binary_rest, lemma_block, lemma_call_rest, lemma_condition, lemma_entries,
    lemma_entry_list, lemma_expr_list, lemma_exprs, lemma_module_name_rest, lemma_param_list,
    lemma_primary, lemma_signature, lemma_stmt, lemma_stmts, stmt_span,
};
use crate::diagnostics::span::SourceSpan;

verus! {

/// Whether a token of a kind stands at a position.
pub open spec fn is_at(ts: Seq<TokenView>, p: int, kind: TokenKindView) -> bool {
    0 <= p < ts.len() && ts[p].kind == kind
}

/// Whether a token can be an expression by itself.
pub open spec fn is_value(kind: TokenKindView) -> bool {
    match kind {
        TokenKindView::Integer(_) => true,
        TokenKindView::Text(_) => true,
        TokenKindView::True => true,
        TokenKindView::False => true,
        TokenKindView::Nil => true,
        TokenKindView::Identifier(_) => true,
        _ => false,
    }
}

// ---------------------------------------------------------------------------
// Expressions
// ---------------------------------------------------------------------------

/// Whether an expression with operators of a level and of tighter ones stands from `p` to `q`.
pub closed spec fn level_at(
    ts: Seq<TokenView>,
    level: nat,
    p: int,
    value: ExprView,
    q: int,
) -> bool {
    &&& level <= 4
    &&& 0 <= p < q <= ts.len()
    &&& !at_end(ts, p)
    &&& gives(parse_binary(ts, level, p), value, q)
}

/// Whether an expression stands from `p` to `q`.
pub open spec fn expr_at(ts: Seq<TokenView>, p: int, value: ExprView, q: int) -> bool {
    level_at(ts, 0, p, value, q)
}

/// Whether the operands from `p` to `q` make `value` of the left operand `lhs`.
pub closed spec fn rest_at(
    ts: Seq<TokenView>,
    level: nat,
    lhs: ExprView,
    p: int,
    value: ExprView,
    q: int,
) -> bool {
    &&& level < 4
    &&& 0 < p <= q <= ts.len()
    &&& lhs.span().end == ts[p - 1].span.end
    &&& gives(binary_rest(ts, level, lhs, p), value, q)
}

/// Whether a primary expression stands from `p` to `q`.
pub closed spec fn primary_at(ts: Seq<TokenView>, p: int, value: ExprView, q: int) -> bool {
    &&& 0 <= p < q <= ts.len()
    &&& !at_end(ts, p)
    &&& gives(parse_primary(ts, p), value, q)
}

/// Whether the calls, member names and indices from `p` to `q` make `value` of `expr`.
pub closed spec fn call_rest_at(
    ts: Seq<TokenView>,
    expr: ExprView,
    p: int,
    value: ExprView,
    q: int,
) -> bool {
    &&& 0 < p <= q <= ts.len()
    &&& expr.span().end == ts[p - 1].span.end
    &&& gives(call_rest(ts, expr, p), value, q)
}

/// Whether expressions up to a bracket stand from `p` to `q`.
pub closed spec fn exprs_at(
    ts: Seq<TokenView>,
    close: TokenKindView,
    p: int,
    values: Seq<ExprView>,
    q: int,
) -> bool {
    &&& 0 < p <= q <= ts.len()
    &&& !is_value(ts[p - 1].kind)
    &&& gives(parse_exprs(ts, p, close), values, q)
}

/// Whether one or more expressions stand from `p` to `q`.
pub closed spec fn expr_list_at(
    ts: Seq<TokenView>,
    p: int,
    values: Seq<ExprView>,
    q: int,
) -> bool {
    &&& 0 < p <= q <= ts.len()
    &&& !is_value(ts[p - 1].kind)
    &&& gives(expr_list(ts, p), values, q)
}

/// Whether key/value pairs up to a brace stand from `p` to `q`.
pub closed spec fn entries_at(
    ts: Seq<TokenView>,
    p: int,
    values: Seq<(ExprView, ExprView)>,
    q: int,
) -> bool {
    &&& 0 < p <= q <= ts.len()
    &&& !is_value(ts[p - 1].kind)
    &&& gives(parse_entries(ts, p), values, q)
}

/// Whether one or more key/value pairs stand from `p` to `q`.
pub closed spec fn entry_list_at(
    ts: Seq<TokenView>,
    p: int,
    values: Seq<(ExprView, ExprView)>,
    q: int,
) -> bool {
    &&& 0 < p <= q <= ts.len()
    &&& !is_value(ts[p - 1].kind)
    &&& gives(entry_list(ts, p), values, q)
}

/// Whether one or more parameter names stand from `p` to `q`.
pub closed spec fn params_at(
    ts: Seq<TokenView>,
    p: int,
    params: Seq<Seq<char>>,
    q: int,
) -> bool {
    &&& 0 < p <= q <= ts.len()
    &&& !is_value(ts[p - 1].kind)
    &&& gives(param_list(ts, p), params, q)
}

/// Whether a parameter list in parentheses stands from `p` to `q`.
pub closed spec fn signature_at(
    ts: Seq<TokenView>,
    p: int,
    params: Seq<Seq<char>>,
    q: int,
) -> bool {
    &&& 0 <= p < q <= ts.len()
    &&& gives(parse_signature(ts, p), params, q)
}

/// Whether a block stands from `p` to `q`.
pub closed spec fn block_at(
    ts: Seq<TokenView>,
    p: int,
    body: Seq<StmtView>,
    end: SourceSpan,
    q: int,
) -> bool {
    &&& 0 <= p < q <= ts.len()
    &&& gives(parse_block(ts, p), (body, end), q)
}

/// Whether the statements of a block stand from `p` to `q`.
pub closed spec fn stmts_at(ts: Seq<TokenView>, p: int, body: Seq<StmtView>, q: int) -> bool {
    &&& 0 <= p <= q <= ts.len()
    &&& gives(parse_stmts(ts, p), body, q)
}

/// Whether a statement stands from `p` to `q`.
pub closed spec fn stmt_at(ts: Seq<TokenView>, p: int, stmt: StmtView, q: int) -> bool {
    &&& 0 <= p < q <= ts.len()
    &&& !at_end(ts, p)
    &&& gives(parse_stmt(ts, p), stmt, q)
}

/// An expression that starts at the end of the tokens takes the token before it.
proof fn lemma_started(ts: Seq<TokenView>, level: nat, p: int)
    requires
        level <= 4,
        0 < p <= ts.len(),
        at_end(ts, p),
        !is_value(ts[p - 1].kind),
    ensures
        parse_binary(ts, level, p) is Err,
    decreases 4 - level,
{
    if level < 4 {
        lemma_started(ts, level + 1, p);
    } else {
        assert(parse_primary(ts, p) is Err);
        assert(parse_call(ts, p) is Err);
    }
}

/// Finds an expression behind a token that is none.
proof fn lemma_found(ts: Seq<TokenView>, level: nat, p: int)
    requires
        level <= 4,
        0 < p <= ts.len(),
        !is_value(ts[p - 1].kind),
    ensures
        parse_binary(ts, level, p) matches Ok((value, q)) ==> level_at(ts, level, p, value, q),
{
    lemma_binary(ts, level, p);
    if at_end(ts, p) {
        lemma_started(ts, level, p);
    }
}

proof fn lemma_expr_found(ts: Seq<TokenView>, p: int)
    requires
        0 < p <= ts.len(),
        !is_value(ts[p - 1].kind),
    ensures
        parse_expr(ts, p) matches Ok((value, q)) ==> expr_at(ts, p, value, q),
{
    lemma_found(ts, 0, p);
}

/// An expression spans its tokens.
pub(crate) proof fn level_span(ts: Seq<TokenView>, level: nat, p: int, value: ExprView, q: int)
    requires
        level_at(ts, level, p, value, q),
    ensures
        0 <= p < q <= ts.len(),
        level <= 4,
        value.span() == joined(ts[p].span, ts[q - 1].span),
{
    lemma_binary(ts, level, p);
}

pub(crate) proof fn primary_span(ts: Seq<TokenView>, p: int, value: ExprView, q: int)
    requires
        primary_at(ts, p, value, q),
    ensures
        0 <= p < q <= ts.len(),
        value.span() == joined(ts[p].span, ts[q - 1].span),
{
    lemma_primary(ts, p);
}

pub(crate) proof fn rest_span(
    ts: Seq<TokenView>,
    level: nat,
    lhs: ExprView,
    p: int,
    value: ExprView,
    q: int,
)
    requires
        rest_at(ts, level, lhs, p, value, q),
    ensures
        level < 4,
        0 < p <= q <= ts.len(),
        lhs.span().end == ts[p - 1].span.end,
        value.span() == joined(lhs.span(), ts[q - 1].span),
{
    lemma_binary_rest(ts, level, lhs, p, lhs.span());
}

pub(crate) proof fn call_rest_span(
    ts: Seq<TokenView>,
    expr: ExprView,
    p: int,
    value: ExprView,
    q: int,
)
    requires
        call_rest_at(ts, expr, p, value, q),
    ensures
        0 < p <= q <= ts.len(),
        expr.span().end == ts[p - 1].span.end,
        value.span() == joined(expr.span(), ts[q - 1].span),
{
    lemma_call_rest(ts, expr, p, expr.span());
}

pub(crate) proof fn level_parts(
    ts: Seq<TokenView>,
    level: nat,
    p: int,
    value: ExprView,
    q: int,
) -> (parts: (ExprView, int))
    requires
        level_at(ts, level, p, value, q),
        level < 4,
    ensures
        level_at(ts, level + 1, p, parts.0, parts.1),
        rest_at(ts, level, parts.0, parts.1, value, q),
{
    lemma_binary(ts, level + 1, p);
    let (lhs, r) = parse_binary(ts, level + 1, p)->Ok_0;
    lemma_binary_rest(ts, level, lhs, r, lhs.span());
    (lhs, r)
}

pub(crate) proof fn level_made(
    ts: Seq<TokenView>,
    level: nat,
    p: int,
    lhs: ExprView,
    r: int,
    value: ExprView,
    q: int,
)
    requires
        level < 4,
        level_at(ts, level + 1, p, lhs, r),
        rest_at(ts, level, lhs, r, value, q),
    ensures
        level_at(ts, level, p, value, q),
{
}

/// An operator and its right operand, which ends at `r`.
pub struct Operand {
    pub op: BinaryOp,
    pub rhs: ExprView,
    pub r: int,
}

pub(crate) proof fn rest_parts(
    ts: Seq<TokenView>,
    level: nat,
    lhs: ExprView,
    p: int,
    value: ExprView,
    q: int,
) -> (parts: Option<Operand>)
    requires
        rest_at(ts, level, lhs, p, value, q),
    ensures
        match parts {
            None => operator(level, kind_at(ts, p)) is None && value == lhs && q == p,
            Some(Operand { op, rhs, r }) => {
                &&& p < ts.len()
                &&& operator(level, kind_at(ts, p)) == Some(op)
                &&& level_at(ts, level + 1, p + 1, rhs, r)
                &&& rest_at(ts, level, binary_expr(lhs, op, rhs), r, value, q)
            },
        },
{
    match operator(level, kind_at(ts, p)) {
        None => None,
        Some(op) => {
            assert(p < ts.len());
            lemma_found(ts, level + 1, p + 1);
            lemma_binary(ts, level + 1, p + 1);
            let (rhs, r) = parse_binary(ts, level + 1, p + 1)->Ok_0;
            let both = binary_expr(lhs, op, rhs);
            lemma_binary_rest(ts, level, both, r, both.span());
            Some(Operand { op, rhs, r })
        },
    }
}

pub(crate) proof fn rest_none(ts: Seq<TokenView>, level: nat, lhs: ExprView, p: int)
    requires
        level < 4,
        0 < p <= ts.len(),
        lhs.span().end == ts[p - 1].span.end,
        operator(level, kind_at(ts, p)) is None,
    ensures
        rest_at(ts, level, lhs, p, lhs, p),
{
}

pub(crate) proof fn rest_made(
    ts: Seq<TokenView>,
    level: nat,
    lhs: ExprView,
    p: int,
    operand: Operand,
    value: ExprView,
    q: int,
)
    requires
        0 < p <= ts.len(),
        lhs.span().end == ts[p - 1].span.end,
        operator(level, kind_at(ts, p)) == Some(operand.op),
        level_at(ts, level + 1, p + 1, operand.rhs, operand.r),
        rest_at(ts, level, binary_expr(lhs, operand.op, operand.rhs), operand.r, value, q),
    ensures
        rest_at(ts, level, lhs, p, value, q),
{
}

pub(crate) proof fn call_parts(ts: Seq<TokenView>, p: int, value: ExprView, q: int) -> (parts: (
    ExprView,
    int,
))
    requires
        level_at(ts, 4, p, value, q),
    ensures
        primary_at(ts, p, parts.0, parts.1),
        call_rest_at(ts, parts.0, parts.1, value, q),
{
    assert(parse_binary(ts, 4, p) == parse_call(ts, p));
    lemma_primary(ts, p);
    let (expr, r) = parse_primary(ts, p)->Ok_0;
    lemma_call_rest(ts, expr, r, expr.span());
    (expr, r)
}

pub(crate) proof fn call_made(
    ts: Seq<TokenView>,
    p: int,
    expr: ExprView,
    r: int,
    value: ExprView,
    q: int,
)
    requires
        primary_at(ts, p, expr, r),
        call_rest_at(ts, expr, r, value, q),
    ensures
        level_at(ts, 4, p, value, q),
{
    assert(parse_binary(ts, 4, p) == parse_call(ts, p));
}

/// What stands behind an expression: arguments up to `r`, a member name, an index up to `r`, or
/// nothing that belongs to it.
pub enum Suffix {
    Arguments { args: Seq<ExprView>, r: int },
    Member { member: Seq<char> },
    Index { index: ExprView, r: int },
    Nothing,
}

/// Whether a suffix stands at a position behind an expression.
pub open spec fn suffix_at(
    ts: Seq<TokenView>,
    expr: ExprView,
    p: int,
    suffix: Suffix,
) -> bool {
    match suffix {
        Suffix::Arguments { args, r } => {
            &&& expr is Variable
            &&& is_at(ts, p, TokenKindView::LeftParen)
            &&& exprs_at(ts, TokenKindView::RightParen, p + 1, args, r)
            &&& is_at(ts, r, TokenKindView::RightParen)
        },
        Suffix::Member { member } => {
            &&& expr is Variable
            &&& is_at(ts, p, TokenKindView::Dot)
            &&& is_at(ts, p + 1, TokenKindView::Identifier(member))
        },
        Suffix::Index { index, r } => {
            &&& is_at(ts, p, TokenKindView::LeftBracket)
            &&& expr_at(ts, p + 1, index, r)
            &&& is_at(ts, r, TokenKindView::RightBracket)
        },
        Suffix::Nothing => !(kind_at(ts, p) is LeftParen) && !(kind_at(ts, p) is Dot) && !(kind_at(
            ts,
            p,
        ) is LeftBracket),
    }
}

/// An expression with a suffix.
pub open spec fn suffixed(
    ts: Seq<TokenView>,
    expr: ExprView,
    p: int,
    suffix: Suffix,
) -> ExprView {
    match suffix {
        Suffix::Arguments { args, r } => ExprView::Call {
            callee: expr->Variable_name,
            args,
            span: joined(expr.span(), ts[r].span),
        },
        Suffix::Member { member } => ExprView::Variable {
            name: expr->Variable_name + "."@ + member,
            span: joined(expr.span(), ts[p + 1].span),
        },
        Suffix::Index { index, r } => ExprView::Index {
            target: Box::new(expr),
            index: Box::new(index),
            span: joined(expr.span(), ts[r].span),
        },
        Suffix::Nothing => expr,
    }
}

/// The position behind a suffix.
pub open spec fn suffix_end(p: int, suffix: Suffix) -> int {
    match suffix {
        Suffix::Arguments { r, .. } => r + 1,
        Suffix::Member { .. } => p + 2,
        Suffix::Index { r, .. } => r + 1,
        Suffix::Nothing => p,
    }
}

pub(crate) proof fn call_rest_parts(
    ts: Seq<TokenView>,
    expr: ExprView,
    p: int,
    value: ExprView,
    q: int,
) -> (suffix: Suffix)
    requires
        call_rest_at(ts, expr, p, value, q),
    ensures
        suffix_at(ts, expr, p, suffix),
        suffix is Nothing ==> value == expr && q == p,
        !(suffix is Nothing) ==> p < suffix_end(p, suffix) && call_rest_at(
            ts,
            suffixed(ts, expr, p, suffix),
            suffix_end(p, suffix),
            value,
            q,
        ),
{
    match kind_at(ts, p) {
        TokenKindView::LeftParen => {
            lemma_exprs(ts, p + 1, TokenKindView::RightParen);
            let (args, r) = parse_exprs(ts, p + 1, TokenKindView::RightParen)->Ok_0;
            let suffix = Suffix::Arguments { args, r };
            let next = suffixed(ts, expr, p, suffix);
            lemma_call_rest(ts, next, r + 1, next.span());
            suffix
        },
        TokenKindView::Dot => {
            assert(!at_end(ts, p + 1));
            let member = ts[p + 1].kind->Identifier_0;
            let suffix = Suffix::Member { member };
            let next = suffixed(ts, expr, p, suffix);
            lemma_call_rest(ts, next, p + 2, next.span());
            suffix
        },
        TokenKindView::LeftBracket => {
            lemma_expr_found(ts, p + 1);
            let (index, r) = parse_expr(ts, p + 1)->Ok_0;
            let suffix = Suffix::Index { index, r };
            let next = suffixed(ts, expr, p, suffix);
            lemma_call_rest(ts, next, r + 1, next.span());
            suffix
        },
        _ => Suffix::Nothing,
    }
}

pub(crate) proof fn call_rest_none(ts: Seq<TokenView>, expr: ExprView, p: int)
    requires
        0 < p <= ts.len(),
        expr.span().end == ts[p - 1].span.end,
        suffix_at(ts, expr, p, Suffix::Nothing),
    ensures
        call_rest_at(ts, expr, p, expr, p),
{
}

pub(crate) proof fn call_rest_made(
    ts: Seq<TokenView>,
    expr: ExprView,
    p: int,
    suffix: Suffix,
    value: ExprView,
    q: int,
)
    requires
        0 < p,
        expr.span().end == ts[p - 1].span.end,
        suffix_at(ts, expr, p, suffix),
        !(suffix is Nothing),
        call_rest_at(ts, suffixed(ts, expr, p, suffix), suffix_end(p, suffix), value, q),
    ensures
        call_rest_at(ts, expr, p, value, q),
{
    let next = suffixed(ts, expr, p, suffix);
    let end = suffix_end(p, suffix);
    match suffix {
        Suffix::Arguments { args, r } => {
            assert(gives(parse_exprs(ts, p + 1, TokenKindView::RightParen), args, r));
            assert(call_rest(ts, expr, p) == call_rest(ts, next, end));
        },
        Suffix::Member { member } => {
            assert(!at_end(ts, p + 1));
            assert(call_rest(ts, expr, p) == call_rest(ts, next, end));
        },
        Suffix::Index { index, r } => {
            assert(parse_expr(ts, p + 1) == parse_binary(ts, 0, p + 1));
            assert(gives(parse_expr(ts, p + 1), index, r));
            assert(call_rest(ts, expr, p) == call_rest(ts, next, end));
        },
        Suffix::Nothing => {},
    }
}

// ---------------------------------------------------------------------------
// Primary expressions
// ---------------------------------------------------------------------------

/// The expression that a token is by itself.
pub open spec fn token_expr(token: TokenView) -> Option<ExprView> {
    let span = token.span;
    match token.kind {
        TokenKindView::Integer(value) => Some(
            ExprView::Literal { value: LiteralView::Int(value), span },
        ),
        TokenKindView::Text(value) => Some(
            ExprView::Literal { value: LiteralView::Text(value), span },
        ),
        TokenKindView::True => Some(ExprView::Literal { value: LiteralView::Bool(true), span }),
        TokenKindView::False => Some(ExprView::Literal { value: LiteralView::Bool(false), span }),
        TokenKindView::Nil => Some(ExprView::Literal { value: LiteralView::Nil, span }),
        TokenKindView::Identifier(name) => Some(ExprView::Variable { name, span }),
        _ => None,
    }
}

pub(crate) proof fn primary_token(ts: Seq<TokenView>, p: int, value: ExprView, q: int)
    requires
        0 <= p < ts.len(),
        is_value(ts[p].kind),
    ensures
        primary_at(ts, p, value, q) <==> token_expr(ts[p]) == Some(value) && q == p + 1,
{
}

/// A primary expression is one of these.
pub(crate) proof fn primary_cases(ts: Seq<TokenView>, p: int, value: ExprView, q: int)
    requires
        primary_at(ts, p, value, q),
    ensures
        0 <= p < q <= ts.len(),
        is_value(ts[p].kind) || ts[p].kind is Fn || ts[p].kind is LeftParen || ts[p].kind
            is LeftBracket || ts[p].kind is LeftBrace,
{
}

pub(crate) proof fn primary_grouping(ts: Seq<TokenView>, p: int, value: ExprView, q: int)
    requires
        is_at(ts, p, TokenKindView::LeftParen),
    ensures
        primary_at(ts, p, value, q) <==> {
            &&& value matches ExprView::Grouping { expr, span }
            &&& expr_at(ts, p + 1, *expr, q - 1)
            &&& is_at(ts, q - 1, TokenKindView::RightParen)
            &&& span == joined(ts[p].span, ts[q - 1].span)
        },
{
    lemma_expr_found(ts, p + 1);
    assert(parse_expr(ts, p + 1) == parse_binary(ts, 0, p + 1));
}

pub(crate) proof fn primary_array(ts: Seq<TokenView>, p: int, value: ExprView, q: int)
    requires
        is_at(ts, p, TokenKindView::LeftBracket),
    ensures
        primary_at(ts, p, value, q) <==> {
            &&& value matches ExprView::Array { elements, span }
            &&& exprs_at(ts, TokenKindView::RightBracket, p + 1, elements, q - 1)
            &&& is_at(ts, q - 1, TokenKindView::RightBracket)
            &&& span == joined(ts[p].span, ts[q - 1].span)
        },
{
    lemma_exprs(ts, p + 1, TokenKindView::RightBracket);
}

pub(crate) proof fn primary_map(ts: Seq<TokenView>, p: int, value: ExprView, q: int)
    requires
        is_at(ts, p, TokenKindView::LeftBrace),
    ensures
        primary_at(ts, p, value, q) <==> {
            &&& value matches ExprView::MapLiteral { entries, span }
            &&& entries_at(ts, p + 1, entries, q - 1)
            &&& is_at(ts, q - 1, TokenKindView::RightBrace)
            &&& span == joined(ts[p].span, ts[q - 1].span)
        },
{
    lemma_entries(ts, p + 1);
}

pub(crate) proof fn primary_function_parts(
    ts: Seq<TokenView>,
    p: int,
    value: ExprView,
    q: int,
) -> (r: int)
    requires
        is_at(ts, p, TokenKindView::Fn),
        primary_at(ts, p, value, q),
    ensures
        value matches ExprView::Function { params, body, span } && {
            &&& signature_at(ts, p + 1, params, r)
            &&& p < r
            &&& block_at(ts, r, body, ts[q - 1].span, q)
            &&& span == joined(ts[p].span, ts[q - 1].span)
        },
{
    lemma_signature(ts, p + 1);
    let (params, r) = parse_signature(ts, p + 1)->Ok_0;
    lemma_block(ts, r);
    r
}

pub(crate) proof fn primary_function_made(
    ts: Seq<TokenView>,
    p: int,
    params: Seq<Seq<char>>,
    r: int,
    body: Seq<StmtView>,
    q: int,
)
    requires
        is_at(ts, p, TokenKindView::Fn),
        signature_at(ts, p + 1, params, r),
        block_at(ts, r, body, ts[q - 1].span, q),
    ensures
        primary_at(
            ts,
            p,
            ExprView::Function { params, body, span: joined(ts[p].span, ts[q - 1].span) },
            q,
        ),
{
}

// ---------------------------------------------------------------------------
// Lists
// ---------------------------------------------------------------------------

pub(crate) proof fn exprs_cases(
    ts: Seq<TokenView>,
    close: TokenKindView,
    p: int,
    values: Seq<ExprView>,
    q: int,
)
    requires
        0 < p <= ts.len(),
        !is_value(ts[p - 1].kind),
    ensures
        exprs_at(ts, close, p, values, q) <==> if kind_at(ts, p) == close {
            values == Seq::<ExprView>::empty() && q == p
        } else {
            expr_list_at(ts, p, values, q)
        },
{
}

pub(crate) proof fn exprs_behind(
    ts: Seq<TokenView>,
    close: TokenKindView,
    p: int,
    values: Seq<ExprView>,
    q: int,
)
    requires
        exprs_at(ts, close, p, values, q),
    ensures
        0 < p <= q <= ts.len(),
        !is_value(ts[p - 1].kind),
{
}

pub(crate) proof fn expr_list_parts(
    ts: Seq<TokenView>,
    p: int,
    values: Seq<ExprView>,
    q: int,
) -> (parts: (ExprView, int, Option<Seq<ExprView>>))
    requires
        expr_list_at(ts, p, values, q),
    ensures
        0 < p,
        expr_at(ts, p, parts.0, parts.1),
        match parts.2 {
            None => !(kind_at(ts, parts.1) is Comma) && values == seq![parts.0] && q == parts.1,
            Some(rest) => is_at(ts, parts.1, TokenKindView::Comma) && expr_list_at(
                ts,
                parts.1 + 1,
                rest,
                q,
            ) && values == seq![parts.0] + rest,
        },
{
    lemma_expr_found(ts, p);
    let (expr, r) = parse_expr(ts, p)->Ok_0;
    if kind_at(ts, r) is Comma {
        lemma_expr_list(ts, r + 1);
        (expr, r, Some(expr_list(ts, r + 1)->Ok_0.0))
    } else {
        (expr, r, None)
    }
}

pub(crate) proof fn expr_list_one(ts: Seq<TokenView>, p: int, expr: ExprView, r: int)
    requires
        0 < p,
        !is_value(ts[p - 1].kind),
        expr_at(ts, p, expr, r),
        !(kind_at(ts, r) is Comma),
    ensures
        expr_list_at(ts, p, seq![expr], r),
{
    assert(parse_expr(ts, p) == parse_binary(ts, 0, p));
}

pub(crate) proof fn expr_list_more(
    ts: Seq<TokenView>,
    p: int,
    expr: ExprView,
    r: int,
    rest: Seq<ExprView>,
    q: int,
)
    requires
        0 < p,
        !is_value(ts[p - 1].kind),
        expr_at(ts, p, expr, r),
        is_at(ts, r, TokenKindView::Comma),
        expr_list_at(ts, r + 1, rest, q),
    ensures
        expr_list_at(ts, p, seq![expr] + rest, q),
{
    assert(parse_expr(ts, p) == parse_binary(ts, 0, p));
}

pub(crate) proof fn expr_list_behind(
    ts: Seq<TokenView>,
    p: int,
    values: Seq<ExprView>,
    q: int,
)
    requires
        expr_list_at(ts, p, values, q),
    ensures
        0 < p <= q <= ts.len(),
        !is_value(ts[p - 1].kind),
{
}

pub(crate) proof fn entries_cases(
    ts: Seq<TokenView>,
    p: int,
    values: Seq<(ExprView, ExprView)>,
    q: int,
)
    requires
        0 < p <= ts.len(),
        !is_value(ts[p - 1].kind),
    ensures
        entries_at(ts, p, values, q) <==> if kind_at(ts, p) is RightBrace {
            values == Seq::<(ExprView, ExprView)>::empty() && q == p
        } else {
            entry_list_at(ts, p, values, q)
        },
{
}

pub(crate) proof fn entries_behind(
    ts: Seq<TokenView>,
    p: int,
    values: Seq<(ExprView, ExprView)>,
    q: int,
)
    requires
        entries_at(ts, p, values, q) || entry_list_at(ts, p, values, q),
    ensures
        0 < p <= q <= ts.len(),
        !is_value(ts[p - 1].kind),
{
}

/// A key and a value, and the pairs behind them.
pub struct EntryParts {
    pub key: ExprView,
    pub r: int,
    pub value: ExprView,
    pub s: int,
    pub rest: Option<Seq<(ExprView, ExprView)>>,
}

/// Whether a key and a value stand at a position.
pub open spec fn entry_at(
    ts: Seq<TokenView>,
    p: int,
    key: ExprView,
    r: int,
    value: ExprView,
    s: int,
) -> bool {
    &&& expr_at(ts, p, key, r)
    &&& is_at(ts, r, TokenKindView::Colon)
    &&& expr_at(ts, r + 1, value, s)
}

pub(crate) proof fn entry_list_parts(
    ts: Seq<TokenView>,
    p: int,
    values: Seq<(ExprView, ExprView)>,
    q: int,
) -> (parts: EntryParts)
    requires
        entry_list_at(ts, p, values, q),
    ensures
        0 < p,
        entry_at(ts, p, parts.key, parts.r, parts.value, parts.s),
        match parts.rest {
            None => !(kind_at(ts, parts.s) is Comma) && values == seq![(parts.key, parts.value)]
                && q == parts.s,
            Some(rest) => is_at(ts, parts.s, TokenKindView::Comma) && entry_list_at(
                ts,
                parts.s + 1,
                rest,
                q,
            ) && values == seq![(parts.key, parts.value)] + rest,
        },
{
    lemma_expr_found(ts, p);
    let (key, r) = parse_expr(ts, p)->Ok_0;
    assert(is_at(ts, r, TokenKindView::Colon));
    lemma_expr_found(ts, r + 1);
    let (value, s) = parse_expr(ts, r + 1)->Ok_0;
    if kind_at(ts, s) is Comma {
        lemma_entry_list(ts, s + 1);
        EntryParts { key, r, value, s, rest: Some(entry_list(ts, s + 1)->Ok_0.0) }
    } else {
        EntryParts { key, r, value, s, rest: None }
    }
}

pub(crate) proof fn entry_list_made(
    ts: Seq<TokenView>,
    p: int,
    parts: EntryParts,
    q: int,
)
    requires
        0 < p,
        !is_value(ts[p - 1].kind),
        entry_at(ts, p, parts.key, parts.r, parts.value, parts.s),
        match parts.rest {
            None => !(kind_at(ts, parts.s) is Comma) && q == parts.s,
            Some(rest) => is_at(ts, parts.s, TokenKindView::Comma) && entry_list_at(
                ts,
                parts.s + 1,
                rest,
                q,
            ),
        },
    ensures
        match parts.rest {
            None => entry_list_at(ts, p, seq![(parts.key, parts.value)], q),
            Some(rest) => entry_list_at(ts, p, seq![(parts.key, parts.value)] + rest, q),
        },
{
    assert(parse_expr(ts, p) == parse_binary(ts, 0, p));
    assert(parse_expr(ts, parts.r + 1) == parse_binary(ts, 0, parts.r + 1));
}

pub(crate) proof fn params_parts(
    ts: Seq<TokenView>,
    p: int,
    params: Seq<Seq<char>>,
    q: int,
) -> (parts: (Seq<char>, Option<Seq<Seq<char>>>))
    requires
        params_at(ts, p, params, q),
    ensures
        0 < p,
        is_at(ts, p, TokenKindView::Identifier(parts.0)),
        match parts.1 {
            None => !(kind_at(ts, p + 1) is Comma) && params == seq![parts.0] && q == p + 1,
            Some(rest) => is_at(ts, p + 1, TokenKindView::Comma) && params_at(ts, p + 2, rest, q)
                && params == seq![parts.0] + rest,
        },
{
    assert(!at_end(ts, p));
    let name = ts[p].kind->Identifier_0;
    if kind_at(ts, p + 1) is Comma {
        lemma_param_list(ts, p + 2);
        (name, Some(param_list(ts, p + 2)->Ok_0.0))
    } else {
        (name, None)
    }
}

pub(crate) proof fn params_made(
    ts: Seq<TokenView>,
    p: int,
    name: Seq<char>,
    rest: Option<Seq<Seq<char>>>,
    q: int,
)
    requires
        0 < p,
        !is_value(ts[p - 1].kind),
        is_at(ts, p, TokenKindView::Identifier(name)),
        match rest {
            None => !(kind_at(ts, p + 1) is Comma) && q == p + 1,
            Some(rest) => is_at(ts, p + 1, TokenKindView::Comma) && params_at(ts, p + 2, rest, q),
        },
    ensures
        match rest {
            None => params_at(ts, p, seq![name], q),
            Some(rest) => params_at(ts, p, seq![name] + rest, q),
        },
{
}

pub(crate) proof fn params_behind(ts: Seq<TokenView>, p: int, params: Seq<Seq<char>>, q: int)
    requires
        params_at(ts, p, params, q),
    ensures
        0 < p <= q <= ts.len(),
        !is_value(ts[p - 1].kind),
{
}

pub(crate) proof fn signature_cases(
    ts: Seq<TokenView>,
    p: int,
    params: Seq<Seq<char>>,
    q: int,
)
    requires
        0 <= p <= ts.len(),
    ensures
        signature_at(ts, p, params, q) <==> {
            &&& is_at(ts, p, TokenKindView::LeftParen)
            &&& is_at(ts, q - 1, TokenKindView::RightParen)
            &&& if kind_at(ts, p + 1) is RightParen {
                params == Seq::<Seq<char>>::empty() && q == p + 2
            } else {
                params_at(ts, p + 1, params, q - 1)
            }
        },
{
    if p < ts.len() {
        lemma_param_list(ts, p + 1);
    }
}

pub(crate) proof fn signature_bounds(
    ts: Seq<TokenView>,
    p: int,
    params: Seq<Seq<char>>,
    q: int,
)
    requires
        signature_at(ts, p, params, q),
    ensures
        0 <= p < q <= ts.len(),
{
}

// ---------------------------------------------------------------------------
// Statements
// ---------------------------------------------------------------------------

pub(crate) proof fn block_cases(
    ts: Seq<TokenView>,
    p: int,
    body: Seq<StmtView>,
    end: SourceSpan,
    q: int,
)
    requires
        0 <= p <= ts.len(),
    ensures
        block_at(ts, p, body, end, q) <==> {
            &&& is_at(ts, p, TokenKindView::LeftBrace)
            &&& stmts_at(ts, p + 1, body, q - 1)
            &&& is_at(ts, q - 1, TokenKindView::RightBrace)
            &&& end == ts[q - 1].span
        },
{
    if p < ts.len() {
        lemma_stmts(ts, p + 1);
    }
}

pub(crate) proof fn block_bounds(
    ts: Seq<TokenView>,
    p: int,
    body: Seq<StmtView>,
    end: SourceSpan,
    q: int,
)
    requires
        block_at(ts, p, body, end, q),
    ensures
        0 <= p < q <= ts.len(),
{
}

pub(crate) proof fn stmts_parts(ts: Seq<TokenView>, p: int, body: Seq<StmtView>, q: int) -> (parts:
    Option<(StmtView, int, Seq<StmtView>)>)
    requires
        stmts_at(ts, p, body, q),
    ensures
        0 <= p <= q <= ts.len(),
        match parts {
            None => {
                &&& kind_at(ts, p) is RightBrace || at_end(ts, p)
                &&& body == Seq::<StmtView>::empty()
                &&& q == p
            },
            Some((stmt, r, rest)) => {
                &&& !(kind_at(ts, p) is RightBrace)
                &&& stmt_at(ts, p, stmt, r)
                &&& stmts_at(ts, r, rest, q)
                &&& body == seq![stmt] + rest
            },
        },
{
    if kind_at(ts, p) is RightBrace || at_end(ts, p) {
        None
    } else {
        lemma_stmt(ts, p);
        let (stmt, r) = parse_stmt(ts, p)->Ok_0;
        lemma_stmts(ts, r);
        Some((stmt, r, parse_stmts(ts, r)->Ok_0.0))
    }
}

pub(crate) proof fn stmts_none(ts: Seq<TokenView>, p: int)
    requires
        is_at(ts, p, TokenKindView::RightBrace),
    ensures
        stmts_at(ts, p, Seq::empty(), p),
{
}

pub(crate) proof fn stmts_made(
    ts: Seq<TokenView>,
    p: int,
    stmt: StmtView,
    r: int,
    rest: Seq<StmtView>,
    q: int,
)
    requires
        !(kind_at(ts, p) is RightBrace),
        stmt_at(ts, p, stmt, r),
        stmts_at(ts, r, rest, q),
    ensures
        stmts_at(ts, p, seq![stmt] + rest, q),
{
}

/// Whether a binding stands from `p`, behind its `let`, to `q`.
pub closed spec fn let_at(
    ts: Seq<TokenView>,
    p: int,
    exported: bool,
    stmt: StmtView,
    q: int,
) -> bool {
    gives(parse_let(ts, p, exported), stmt, q)
}

pub closed spec fn condition_at(ts: Seq<TokenView>, p: int, value: ExprView, q: int) -> bool {
    gives(parse_condition(ts, p), value, q)
}

pub closed spec fn if_at(ts: Seq<TokenView>, p: int, stmt: StmtView, q: int) -> bool {
    gives(parse_if(ts, p), stmt, q)
}

pub closed spec fn while_at(ts: Seq<TokenView>, p: int, stmt: StmtView, q: int) -> bool {
    gives(parse_while(ts, p), stmt, q)
}

pub closed spec fn return_at(ts: Seq<TokenView>, p: int, stmt: StmtView, q: int) -> bool {
    gives(parse_return(ts, p), stmt, q)
}

/// Whether an assignment or an expression used as a statement stands from `p` to `q`.
pub closed spec fn assignment_at(ts: Seq<TokenView>, p: int, stmt: StmtView, q: int) -> bool {
    gives(parse_assignment_or_expr(ts, p), stmt, q)
}

pub(crate) proof fn stmt_cases(ts: Seq<TokenView>, p: int, stmt: StmtView, q: int)
    requires
        0 <= p < ts.len(),
        !(ts[p].kind is Eof),
    ensures
        stmt_at(ts, p, stmt, q) <==> match ts[p].kind {
            TokenKindView::Let => let_at(ts, p + 1, false, stmt, q),
            TokenKindView::If => if_at(ts, p + 1, stmt, q),
            TokenKindView::While => while_at(ts, p + 1, stmt, q),
            TokenKindView::Return => return_at(ts, p + 1, stmt, q),
            TokenKindView::LeftBrace => {
                &&& stmt matches StmtView::Block { statements, span }
                &&& block_at(ts, p, statements, ts[q - 1].span, q)
                &&& span == joined(ts[p].span, ts[q - 1].span)
            },
            _ => assignment_at(ts, p, stmt, q),
        },
{
    lemma_stmt(ts, p);
    lemma_block(ts, p);
}

/// A statement spans its tokens.
pub(crate) proof fn stmt_spans(ts: Seq<TokenView>, p: int, stmt: StmtView, q: int)
    requires
        stmt_at(ts, p, stmt, q),
    ensures
        0 <= p < q <= ts.len(),
        !(ts[p].kind is Eof),
        !(ts[q - 1].kind is Eof),
        stmt_span(stmt) == joined(ts[p].span, ts[q - 1].span),
{
    lemma_stmt(ts, p);
}

pub(crate) proof fn let_cases(
    ts: Seq<TokenView>,
    p: int,
    exported: bool,
    stmt: StmtView,
    q: int,
)
    requires
        0 < p <= ts.len(),
        ts[p - 1].kind is Let,
    ensures
        let_at(ts, p, exported, stmt, q) <==> {
            &&& stmt matches StmtView::Let { name, initializer, exported: e, span }
            &&& e == exported
            &&& is_at(ts, p, TokenKindView::Identifier(name))
            &&& is_at(ts, p + 1, TokenKindView::Equal)
            &&& expr_at(ts, p + 2, initializer, q - 1)
            &&& is_at(ts, q - 1, TokenKindView::Semicolon)
            &&& span == joined(ts[p - 1].span, ts[q - 1].span)
        },
{
    if is_at(ts, p + 1, TokenKindView::Equal) {
        lemma_expr_found(ts, p + 2);
    }
    assert(parse_expr(ts, p + 2) == parse_binary(ts, 0, p + 2));
}

pub(crate) proof fn return_cases(ts: Seq<TokenView>, p: int, stmt: StmtView, q: int)
    requires
        0 < p <= ts.len(),
        ts[p - 1].kind is Return,
    ensures
        return_at(ts, p, stmt, q) <==> {
            &&& stmt matches StmtView::Return { value, span }
            &&& expr_at(ts, p, value, q - 1)
            &&& is_at(ts, q - 1, TokenKindView::Semicolon)
            &&& span == joined(ts[p - 1].span, ts[q - 1].span)
        },
{
    lemma_expr_found(ts, p);
    assert(parse_expr(ts, p) == parse_binary(ts, 0, p));
}

pub(crate) proof fn condition_cases(ts: Seq<TokenView>, p: int, value: ExprView, q: int)
    requires
        0 <= p <= ts.len(),
    ensures
        condition_at(ts, p, value, q) <==> {
            &&& is_at(ts, p, TokenKindView::LeftParen)
            &&& expr_at(ts, p + 1, value, q - 1)
            &&& is_at(ts, q - 1, TokenKindView::RightParen)
        },
{
    if is_at(ts, p, TokenKindView::LeftParen) {
        lemma_expr_found(ts, p + 1);
    }
    assert(parse_expr(ts, p + 1) == parse_binary(ts, 0, p + 1));
}

pub(crate) proof fn while_parts(ts: Seq<TokenView>, p: int, stmt: StmtView, q: int) -> (r: int)
    requires
        0 < p <= ts.len(),
        while_at(ts, p, stmt, q),
    ensures
        p < r,
        stmt matches StmtView::While { condition, body, span } && {
            &&& condition_at(ts, p, condition, r)
            &&& block_at(ts, r, body, ts[q - 1].span, q)
            &&& span == joined(ts[p - 1].span, ts[q - 1].span)
        },
{
    lemma_condition(ts, p);
    let (condition, r) = parse_condition(ts, p)->Ok_0;
    lemma_block(ts, r);
    r
}

pub(crate) proof fn while_made(
    ts: Seq<TokenView>,
    p: int,
    condition: ExprView,
    r: int,
    body: Seq<StmtView>,
    q: int,
)
    requires
        0 < p < r,
        condition_at(ts, p, condition, r),
        block_at(ts, r, body, ts[q - 1].span, q),
    ensures
        while_at(
            ts,
            p,
            StmtView::While { condition, body, span: joined(ts[p - 1].span, ts[q - 1].span) },
            q,
        ),
{
}

/// Where the parts of a conditional end: its condition at `r` and its first branch at `s`.
pub open spec fn if_parted(
    ts: Seq<TokenView>,
    p: int,
    condition: ExprView,
    r: int,
    then_branch: Seq<StmtView>,
    s: int,
    else_branch: Seq<StmtView>,
    q: int,
) -> bool {
    &&& p < r < s <= q <= ts.len()
    &&& condition_at(ts, p, condition, r)
    &&& block_at(ts, r, then_branch, ts[s - 1].span, s)
    &&& if kind_at(ts, s) is Else {
        block_at(ts, s + 1, else_branch, ts[q - 1].span, q)
    } else {
        else_branch == Seq::<StmtView>::empty() && q == s
    }
}

pub(crate) proof fn if_parts(ts: Seq<TokenView>, p: int, stmt: StmtView, q: int) -> (parts: (
    int,
    int,
))
    requires
        0 < p <= ts.len(),
        if_at(ts, p, stmt, q),
    ensures
        stmt matches StmtView::If { condition, then_branch, else_branch, span } && {
            &&& if_parted(ts, p, condition, parts.0, then_branch, parts.1, else_branch, q)
            &&& span == joined(ts[p - 1].span, ts[q - 1].span)
        },
{
    lemma_condition(ts, p);
    let (condition, r) = parse_condition(ts, p)->Ok_0;
    lemma_block(ts, r);
    let (_, s) = parse_block(ts, r)->Ok_0;
    if kind_at(ts, s) is Else {
        lemma_block(ts, s + 1);
    }
    (r, s)
}

pub(crate) proof fn if_made(
    ts: Seq<TokenView>,
    p: int,
    condition: ExprView,
    r: int,
    then_branch: Seq<StmtView>,
    s: int,
    else_branch: Seq<StmtView>,
    q: int,
)
    requires
        0 < p,
        if_parted(ts, p, condition, r, then_branch, s, else_branch, q),
    ensures
        if_at(
            ts,
            p,
            StmtView::If {
                condition,
                then_branch,
                else_branch,
                span: joined(ts[p - 1].span, ts[q - 1].span),
            },
            q,
        ),
{
}

/// Whether an assignment or an expression statement has these parts: the expression up to `r`,
/// and the value where `=` stands there.
pub open spec fn assignment_parted(
    ts: Seq<TokenView>,
    p: int,
    target: ExprView,
    r: int,
    value: ExprView,
    stmt: StmtView,
    q: int,
) -> bool {
    &&& expr_at(ts, p, target, r)
    &&& is_at(ts, q - 1, TokenKindView::Semicolon)
    &&& if kind_at(ts, r) is Equal {
        &&& expr_at(ts, r + 1, value, q - 1)
        &&& assignment(target, value, ts[q - 1].span) matches Ok(made) && made == stmt
    } else {
        &&& r == q - 1
        &&& stmt == (StmtView::Expr {
            value: target,
            span: joined(target.span(), ts[q - 1].span),
        })
    }
}

pub(crate) proof fn assignment_parts(ts: Seq<TokenView>, p: int, stmt: StmtView, q: int) -> (parts:
    (ExprView, int, ExprView))
    requires
        0 <= p < ts.len(),
        !at_end(ts, p),
        assignment_at(ts, p, stmt, q),
    ensures
        assignment_parted(ts, p, parts.0, parts.1, parts.2, stmt, q),
{
    lemma_binary(ts, 0, p);
    assert(parse_expr(ts, p) == parse_binary(ts, 0, p));
    let (target, r) = parse_expr(ts, p)->Ok_0;
    if kind_at(ts, r) is Equal {
        lemma_expr_found(ts, r + 1);
        let (value, s) = parse_expr(ts, r + 1)->Ok_0;
        (target, r, value)
    } else {
        (target, r, target)
    }
}

pub(crate) proof fn assignment_made(
    ts: Seq<TokenView>,
    p: int,
    target: ExprView,
    r: int,
    value: ExprView,
    stmt: StmtView,
    q: int,
)
    requires
        assignment_parted(ts, p, target, r, value, stmt, q),
    ensures
        assignment_at(ts, p, stmt, q),
{
    assert(parse_expr(ts, p) == parse_binary(ts, 0, p));
    assert(parse_expr(ts, r + 1) == parse_binary(ts, 0, r + 1));
}

// ---------------------------------------------------------------------------
// Programs
// ---------------------------------------------------------------------------

/// Whether the rest of a module name stands from `p` to `q`.
pub closed spec fn module_name_at(
    ts: Seq<TokenView>,
    name: Seq<char>,
    p: int,
    module: Seq<char>,
    q: int,
) -> bool {
    &&& 0 < p <= q <= ts.len()
    &&& gives(module_name_rest(ts, name, p), module, q)
}

pub closed spec fn import_at(ts: Seq<TokenView>, p: int, stmt: StmtView, q: int) -> bool {
    gives(parse_import(ts, p), stmt, q)
}

pub closed spec fn function_at(
    ts: Seq<TokenView>,
    p: int,
    exported: bool,
    stmt: StmtView,
    q: int,
) -> bool {
    gives(parse_function(ts, p, exported), stmt, q)
}

/// Whether a top-level declaration or statement stands from `p` to `q`.
pub closed spec fn declaration_at(ts: Seq<TokenView>, p: int, stmt: StmtView, q: int) -> bool {
    gives(parse_declaration(ts, p), stmt, q)
}

pub(crate) proof fn module_name_parts(
    ts: Seq<TokenView>,
    name: Seq<char>,
    p: int,
    module: Seq<char>,
    q: int,
) -> (parts: Option<Seq<char>>)
    requires
        module_name_at(ts, name, p, module, q),
    ensures
        0 < p <= q <= ts.len(),
        match parts {
            None => !(kind_at(ts, p) is Dot) && module == name && q == p,
            Some(part) => {
                &&& is_at(ts, p, TokenKindView::Dot)
                &&& is_at(ts, p + 1, TokenKindView::Identifier(part))
                &&& module_name_at(ts, name + "."@ + part, p + 2, module, q)
            },
        },
{
    if kind_at(ts, p) is Dot {
        assert(!at_end(ts, p + 1));
        let part = ts[p + 1].kind->Identifier_0;
        lemma_module_name_rest(ts, name + "."@ + part, p + 2);
        Some(part)
    } else {
        None
    }
}

pub(crate) proof fn module_name_none(ts: Seq<TokenView>, name: Seq<char>, p: int)
    requires
        0 < p <= ts.len(),
        !(kind_at(ts, p) is Dot),
    ensures
        module_name_at(ts, name, p, name, p),
{
}

pub(crate) proof fn module_name_made(
    ts: Seq<TokenView>,
    name: Seq<char>,
    p: int,
    part: Seq<char>,
    module: Seq<char>,
    q: int,
)
    requires
        0 < p,
        is_at(ts, p, TokenKindView::Dot),
        is_at(ts, p + 1, TokenKindView::Identifier(part)),
        module_name_at(ts, name + "."@ + part, p + 2, module, q),
    ensures
        module_name_at(ts, name, p, module, q),
{
}

pub(crate) proof fn import_parts(ts: Seq<TokenView>, p: int, stmt: StmtView, q: int) -> (name: Seq<
    char,
>)
    requires
        0 < p <= ts.len(),
        ts[p - 1].kind is Import,
        import_at(ts, p, stmt, q),
    ensures
        is_at(ts, p, TokenKindView::Identifier(name)),
        stmt matches StmtView::Import { module, span } && {
            &&& module_name_at(ts, name, p + 1, module, q - 1)
            &&& is_at(ts, q - 1, TokenKindView::Semicolon)
            &&& span == joined(ts[p - 1].span, ts[q - 1].span)
        },
{
    assert(!at_end(ts, p));
    let name = ts[p].kind->Identifier_0;
    lemma_module_name_rest(ts, name, p + 1);
    name
}

pub(crate) proof fn import_made(
    ts: Seq<TokenView>,
    p: int,
    name: Seq<char>,
    module: Seq<char>,
    q: int,
)
    requires
        is_at(ts, p, TokenKindView::Identifier(name)),
        module_name_at(ts, name, p + 1, module, q - 1),
        is_at(ts, q - 1, TokenKindView::Semicolon),
    ensures
        import_at(
            ts,
            p,
            StmtView::Import { module, span: joined(ts[p - 1].span, ts[q - 1].span) },
            q,
        ),
{
}

pub(crate) proof fn function_parts(
    ts: Seq<TokenView>,
    p: int,
    exported: bool,
    stmt: StmtView,
    q: int,
) -> (r: int)
    requires
        0 < p <= ts.len(),
        ts[p - 1].kind is Fn,
        function_at(ts, p, exported, stmt, q),
    ensures
        stmt matches StmtView::Function { name, params, body, exported: e, span } && {
            &&& e == exported
            &&& is_at(ts, p, TokenKindView::Identifier(name))
            &&& signature_at(ts, p + 1, params, r)
            &&& block_at(ts, r, body, ts[q - 1].span, q)
            &&& span == joined(ts[p - 1].span, ts[q - 1].span)
        },
{
    assert(!at_end(ts, p));
    lemma_signature(ts, p + 1);
    let (_, r) = parse_signature(ts, p + 1)->Ok_0;
    lemma_block(ts, r);
    r
}

pub(crate) proof fn function_made(
    ts: Seq<TokenView>,
    p: int,
    exported: bool,
    name: Seq<char>,
    params: Seq<Seq<char>>,
    r: int,
    body: Seq<StmtView>,
    q: int,
)
    requires
        is_at(ts, p, TokenKindView::Identifier(name)),
        signature_at(ts, p + 1, params, r),
        block_at(ts, r, body, ts[q - 1].span, q),
    ensures
        function_at(
            ts,
            p,
            exported,
            StmtView::Function {
                name,
                params,
                body,
                exported,
                span: joined(ts[p - 1].span, ts[q - 1].span),
            },
            q,
        ),
{
}

pub(crate) proof fn declaration_cases(ts: Seq<TokenView>, p: int, stmt: StmtView, q: int)
    requires
        0 <= p < ts.len(),
        !(ts[p].kind is Eof),
    ensures
        declaration_at(ts, p, stmt, q) <==> match ts[p].kind {
            TokenKindView::Export => {
                ||| is_at(ts, p + 1, TokenKindView::Fn) && function_at(ts, p + 2, true, stmt, q)
                ||| is_at(ts, p + 1, TokenKindView::Let) && let_at(ts, p + 2, true, stmt, q)
            },
            TokenKindView::Fn => function_at(ts, p + 1, false, stmt, q),
            TokenKindView::Import => import_at(ts, p + 1, stmt, q),
            _ => stmt_at(ts, p, stmt, q),
        },
{
    lemma_stmt(ts, p);
}

/// Whether the statements of a program stand from `p` on.
pub closed spec fn program_at(ts: Seq<TokenView>, p: int, stmts: Seq<StmtView>) -> bool {
    &&& 0 <= p <= ts.len()
    &&& parse_program(ts, p) matches Ok((found, _)) && found == stmts
}

/// The statements of a program stand from its first token on.
pub(crate) proof fn program_found(ts: Seq<TokenView>, stmts: Seq<StmtView>)
    ensures
        program_at(ts, 0, stmts) <==> parsed(ts) == Ok::<Seq<StmtView>, CompileErrorView>(stmts),
{
}

pub(crate) proof fn program_none(ts: Seq<TokenView>, p: int, stmts: Seq<StmtView>)
    requires
        0 <= p <= ts.len(),
        at_end(ts, p),
    ensures
        program_at(ts, p, stmts) <==> stmts == Seq::<StmtView>::empty(),
{
}

pub(crate) proof fn program_parts(ts: Seq<TokenView>, p: int, stmts: Seq<StmtView>) -> (parts: (
    StmtView,
    int,
    Seq<StmtView>,
))
    requires
        !at_end(ts, p),
        program_at(ts, p, stmts),
    ensures
        declaration_at(ts, p, parts.0, parts.1),
        p < parts.1 <= ts.len() ==> program_at(ts, parts.1, parts.2),
        stmts == seq![parts.0] + parts.2,
{
    let (stmt, q) = parse_declaration(ts, p)->Ok_0;
    (stmt, q, parse_program(ts, onward(ts, p, q))->Ok_0.0)
}

pub(crate) proof fn program_made(
    ts: Seq<TokenView>,
    p: int,
    stmt: StmtView,
    q: int,
    rest: Seq<StmtView>,
)
    requires
        0 <= p < q,
        !at_end(ts, p),
        declaration_at(ts, p, stmt, q),
        program_at(ts, q, rest),
    ensures
        program_at(ts, p, seq![stmt] + rest),
{
}

} // verus!
