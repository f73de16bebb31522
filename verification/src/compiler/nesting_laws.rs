//! Every part of a syntax tree lies within the part that holds it.

use vstd::prelude::*;
use vstd::utf8::encode_utf8;

use crate::compiler::ast::{ExprView, StmtView};
use crate::compiler::codegen::source_tree;
use crate::compiler::derivation::{
    assignment_at, assignment_parts, block_at, block_bounds, block_cases, call_parts,
    call_rest_at, call_rest_parts, call_rest_span, condition_cases, declaration_at,
    declaration_cases, entries_at, entries_behind, entries_cases, entry_list_at, entry_list_parts,
    expr_list_at, expr_list_behind, expr_list_parts, exprs_at, exprs_behind, exprs_cases,
    function_at, function_parts, if_at, if_parts, import_parts, is_at, let_at,
    let_cases, level_at, level_parts, level_span, module_name_parts, primary_array, primary_at,
    primary_cases, primary_function_parts, primary_grouping, primary_map, primary_span,
    primary_token, program_at, program_found, program_none, program_parts, rest_at, rest_parts,
    rest_span, return_cases, signature_bounds, stmt_at, stmt_cases, stmt_spans,
    stmts_at, stmts_parts, suffix_end, suffixed, while_at, while_parts, EntryParts, Operand,
    Suffix,
};
use crate::compiler::lexer::{
    token_spans_are_ordered, tokens_from, TokenKindView, TokenView,
};
use crate::compiler::parser::{at_end, binary_expr, joined, kind_at};
use crate::compiler::parser_laws::stmt_span;
use crate::diagnostics::span::{FileId, SourceSpan};

verus! {

// ---------------------------------------------------------------------------
// Nested trees
// ---------------------------------------------------------------------------

/// Whether a span lies within another one.
pub open spec fn within(inner: SourceSpan, outer: SourceSpan) -> bool {
    &&& inner.file_id == outer.file_id
    &&& outer.start <= inner.start
    &&& inner.end <= outer.end
}

/// Whether a span is one of a file.
pub open spec fn in_file(span: SourceSpan, file_id: FileId) -> bool {
    span.file_id == file_id && span.start <= span.end
}

/// Whether every span in an expression is one of a file and lies within the span of the
/// expression or statement around it.
pub open spec fn nested_expr(expr: ExprView, file_id: FileId) -> bool
    decreases expr,
{
    &&& in_file(expr.span(), file_id)
    &&& match expr {
        ExprView::Literal { .. } => true,
        ExprView::Variable { .. } => true,
        ExprView::Binary { lhs, rhs, span, .. } => {
            &&& within(lhs.span(), span) && nested_expr(*lhs, file_id)
            &&& within(rhs.span(), span) && nested_expr(*rhs, file_id)
        },
        ExprView::Call { args, span, .. } => nested_exprs(args, span, file_id),
        ExprView::Function { body, span, .. } => nested_stmts(body, span, file_id),
        ExprView::Index { target, index, span } => {
            &&& within(target.span(), span) && nested_expr(*target, file_id)
            &&& within(index.span(), span) && nested_expr(*index, file_id)
        },
        ExprView::Array { elements, span } => nested_exprs(elements, span, file_id),
        ExprView::MapLiteral { entries, span } => nested_entries(entries, span, file_id),
        ExprView::Grouping { expr, span } => within(expr.span(), span) && nested_expr(
            *expr,
            file_id,
        ),
    }
}

/// Whether expressions lie within a span, and their parts within them.
pub open spec fn nested_exprs(exprs: Seq<ExprView>, outer: SourceSpan, file_id: FileId) -> bool
    decreases exprs,
{
    forall|i: int|
        0 <= i < exprs.len() ==> within((#[trigger] exprs[i]).span(), outer) && nested_expr(
            exprs[i],
            file_id,
        )
}

/// Whether key/value pairs lie within a span, and their parts within them.
pub open spec fn nested_entries(
    entries: Seq<(ExprView, ExprView)>,
    outer: SourceSpan,
    file_id: FileId,
) -> bool
    decreases entries,
{
    forall|i: int|
        0 <= i < entries.len() ==> {
            &&& within((#[trigger] entries[i]).0.span(), outer) && nested_expr(entries[i].0, file_id)
            &&& within(entries[i].1.span(), outer) && nested_expr(entries[i].1, file_id)
        }
}

/// Whether every span in a statement is one of a file and lies within the span of the expression
/// or statement around it.
pub open spec fn nested_stmt(stmt: StmtView, file_id: FileId) -> bool
    decreases stmt,
{
    &&& in_file(stmt_span(stmt), file_id)
    &&& match stmt {
        StmtView::Import { .. } => true,
        StmtView::Let { initializer, span, .. } => within(initializer.span(), span) && nested_expr(
            initializer,
            file_id,
        ),
        StmtView::Function { body, span, .. } => nested_stmts(body, span, file_id),
        StmtView::Assign { value, span, .. } => within(value.span(), span) && nested_expr(
            value,
            file_id,
        ),
        StmtView::IndexAssign { target, index, value, span } => {
            &&& within(target.span(), span) && nested_expr(target, file_id)
            &&& within(index.span(), span) && nested_expr(index, file_id)
            &&& within(value.span(), span) && nested_expr(value, file_id)
        },
        StmtView::Return { value, span } => within(value.span(), span) && nested_expr(
            value,
            file_id,
        ),
        StmtView::If { condition, then_branch, else_branch, span } => {
            &&& within(condition.span(), span) && nested_expr(condition, file_id)
            &&& nested_stmts(then_branch, span, file_id)
            &&& nested_stmts(else_branch, span, file_id)
        },
        StmtView::While { condition, body, span } => {
            &&& within(condition.span(), span) && nested_expr(condition, file_id)
            &&& nested_stmts(body, span, file_id)
        },
        StmtView::Block { statements, span } => nested_stmts(statements, span, file_id),
        StmtView::Expr { value, span } => within(value.span(), span) && nested_expr(
            value,
            file_id,
        ),
    }
}

/// Whether statements lie within a span, and their parts within them.
pub open spec fn nested_stmts(stmts: Seq<StmtView>, outer: SourceSpan, file_id: FileId) -> bool
    decreases stmts,
{
    forall|i: int|
        0 <= i < stmts.len() ==> within(stmt_span(#[trigger] stmts[i]), outer) && nested_stmt(
            stmts[i],
            file_id,
        )
}

proof fn lemma_exprs_front(
    expr: ExprView,
    rest: Seq<ExprView>,
    outer: SourceSpan,
    file_id: FileId,
)
    requires
        within(expr.span(), outer),
        nested_expr(expr, file_id),
        nested_exprs(rest, outer, file_id),
    ensures
        nested_exprs(seq![expr] + rest, outer, file_id),
{
    let all = seq![expr] + rest;
    assert forall|i: int| 0 <= i < all.len() implies within((#[trigger] all[i]).span(), outer)
        && nested_expr(all[i], file_id) by {
        if i > 0 {
            assert(all[i] == rest[i - 1]);
        }
    }
}

proof fn lemma_entries_front(
    entry: (ExprView, ExprView),
    rest: Seq<(ExprView, ExprView)>,
    outer: SourceSpan,
    file_id: FileId,
)
    requires
        within(entry.0.span(), outer),
        nested_expr(entry.0, file_id),
        within(entry.1.span(), outer),
        nested_expr(entry.1, file_id),
        nested_entries(rest, outer, file_id),
    ensures
        nested_entries(seq![entry] + rest, outer, file_id),
{
    let all = seq![entry] + rest;
    assert forall|i: int| 0 <= i < all.len() implies {
        &&& within((#[trigger] all[i]).0.span(), outer) && nested_expr(all[i].0, file_id)
        &&& within(all[i].1.span(), outer) && nested_expr(all[i].1, file_id)
    } by {
        if i > 0 {
            assert(all[i] == rest[i - 1]);
        }
    }
}

proof fn lemma_stmts_front(
    stmt: StmtView,
    rest: Seq<StmtView>,
    outer: SourceSpan,
    file_id: FileId,
)
    requires
        within(stmt_span(stmt), outer),
        nested_stmt(stmt, file_id),
        nested_stmts(rest, outer, file_id),
    ensures
        nested_stmts(seq![stmt] + rest, outer, file_id),
{
    let all = seq![stmt] + rest;
    assert forall|i: int| 0 <= i < all.len() implies within(stmt_span(#[trigger] all[i]), outer)
        && nested_stmt(all[i], file_id) by {
        if i > 0 {
            assert(all[i] == rest[i - 1]);
        }
    }
}

// ---------------------------------------------------------------------------
// Expressions
// ---------------------------------------------------------------------------

/// Whether the spans of tokens are ones of a file, in order and apart from each other.
#[verifier::opaque]
pub open spec fn ordered(ts: Seq<TokenView>, file_id: FileId) -> bool {
    &&& forall|k: int| 0 <= k < ts.len() ==> in_file((#[trigger] ts[k]).span, file_id)
    &&& forall|j: int, k: int|
        0 <= j < k < ts.len() ==> (#[trigger] ts[j]).span.end <= (#[trigger] ts[k]).span.start
}

/// The span of the tokens from `p` to `q`.
pub open spec fn range(ts: Seq<TokenView>, p: int, q: int) -> SourceSpan {
    joined(ts[p].span, ts[q - 1].span)
}

/// Tokens among others lie within them.
proof fn lemma_range(ts: Seq<TokenView>, file_id: FileId, p: int, q: int, a: int, b: int)
    requires
        ordered(ts, file_id),
        0 <= p <= a < b <= q <= ts.len(),
    ensures
        in_file(range(ts, a, b), file_id),
        in_file(range(ts, p, q), file_id),
        within(range(ts, a, b), range(ts, p, q)),
{
    reveal(ordered);
}

proof fn lemma_level(
    ts: Seq<TokenView>,
    file_id: FileId,
    level: nat,
    p: int,
    value: ExprView,
    q: int,
)
    requires
        ordered(ts, file_id),
        level_at(ts, level, p, value, q),
    ensures
        nested_expr(value, file_id),
        0 <= p < q <= ts.len(),
        value.span() == range(ts, p, q),
    decreases ts.len() - p, 20 - 2 * level,
{
    level_span(ts, level, p, value, q);
    if level < 4 {
        let (lhs, r) = level_parts(ts, level, p, value, q);
        lemma_level(ts, file_id, level + 1, p, lhs, r);
        lemma_rest(ts, file_id, level, lhs, p, r, value, q);
    } else {
        let (expr, r) = call_parts(ts, p, value, q);
        primary_span(ts, p, expr, r);
        lemma_primary(ts, file_id, p, expr, r);
        lemma_call_rest(ts, file_id, expr, p, r, value, q);
    }
}

proof fn lemma_rest(
    ts: Seq<TokenView>,
    file_id: FileId,
    level: nat,
    lhs: ExprView,
    first: int,
    p: int,
    value: ExprView,
    q: int,
)
    requires
        ordered(ts, file_id),
        rest_at(ts, level, lhs, p, value, q),
        0 <= first < p,
        lhs.span() == range(ts, first, p),
        nested_expr(lhs, file_id),
    ensures
        nested_expr(value, file_id),
    decreases ts.len() - p, 19int,
{
    rest_span(ts, level, lhs, p, value, q);
    if let Some(Operand { op, rhs, r }) = rest_parts(ts, level, lhs, p, value, q) {
        lemma_level(ts, file_id, level + 1, p + 1, rhs, r);
        lemma_range(ts, file_id, first, r, first, p);
        lemma_range(ts, file_id, first, r, p + 1, r);
        lemma_rest(ts, file_id, level, binary_expr(lhs, op, rhs), first, r, value, q);
    }
}

proof fn lemma_call_rest(
    ts: Seq<TokenView>,
    file_id: FileId,
    expr: ExprView,
    first: int,
    p: int,
    value: ExprView,
    q: int,
)
    requires
        ordered(ts, file_id),
        call_rest_at(ts, expr, p, value, q),
        0 <= first < p,
        expr.span() == range(ts, first, p),
        nested_expr(expr, file_id),
    ensures
        nested_expr(value, file_id),
    decreases ts.len() - p, 10int,
{
    call_rest_span(ts, expr, p, value, q);
    let suffix = call_rest_parts(ts, expr, p, value, q);
    if !(suffix is Nothing) {
        let next = suffixed(ts, expr, p, suffix);
        let end = suffix_end(p, suffix);
        call_rest_span(ts, next, end, value, q);
        lemma_range(ts, file_id, first, end, first, p);
        match suffix {
            Suffix::Arguments { args, r } => {
                lemma_exprs(ts, file_id, TokenKindView::RightParen, p + 1, args, r, first, end);
            },
            Suffix::Index { index, r } => {
                lemma_level(ts, file_id, 0, p + 1, index, r);
                lemma_range(ts, file_id, first, end, p + 1, r);
            },
            _ => {},
        }
        assert(next.span() == range(ts, first, end));
        assert(nested_expr(next, file_id));
        lemma_call_rest(ts, file_id, next, first, end, value, q);
    }
}

proof fn lemma_primary(
    ts: Seq<TokenView>,
    file_id: FileId,
    p: int,
    value: ExprView,
    q: int,
)
    requires
        ordered(ts, file_id),
        primary_at(ts, p, value, q),
    ensures
        nested_expr(value, file_id),
    decreases ts.len() - p, 9int,
{
    primary_cases(ts, p, value, q);
    primary_span(ts, p, value, q);
    lemma_range(ts, file_id, p, q, p, q);
    match ts[p].kind {
        TokenKindView::LeftParen => {
            primary_grouping(ts, p, value, q);
            let expr = *value->Grouping_expr;
            lemma_level(ts, file_id, 0, p + 1, expr, q - 1);
            lemma_range(ts, file_id, p, q, p + 1, q - 1);
        },
        TokenKindView::LeftBracket => {
            primary_array(ts, p, value, q);
            let elements = value->Array_elements;
            lemma_exprs(
                ts,
                file_id,
                TokenKindView::RightBracket,
                p + 1,
                elements,
                q - 1,
                p,
                q,
            );
        },
        TokenKindView::LeftBrace => {
            primary_map(ts, p, value, q);
            lemma_entries(ts, file_id, p + 1, value->MapLiteral_entries, q - 1, p, q);
        },
        TokenKindView::Fn => {
            let r = primary_function_parts(ts, p, value, q);
            block_bounds(ts, r, value->Function_body, ts[q - 1].span, q);
            lemma_block(ts, file_id, r, value->Function_body, q, p);
        },
        _ => {
            primary_token(ts, p, value, q);
        },
    }
}

proof fn lemma_exprs(
    ts: Seq<TokenView>,
    file_id: FileId,
    close: TokenKindView,
    p: int,
    values: Seq<ExprView>,
    q: int,
    a: int,
    b: int,
)
    requires
        ordered(ts, file_id),
        exprs_at(ts, close, p, values, q),
        0 <= a <= p && q <= b <= ts.len(),
    ensures
        nested_exprs(values, range(ts, a, b), file_id),
    decreases ts.len() - p, 23int,
{
    exprs_behind(ts, close, p, values, q);
    exprs_cases(ts, close, p, values, q);
    if kind_at(ts, p) != close {
        lemma_expr_list(ts, file_id, p, values, q, a, b);
    }
}

proof fn lemma_expr_list(
    ts: Seq<TokenView>,
    file_id: FileId,
    p: int,
    values: Seq<ExprView>,
    q: int,
    a: int,
    b: int,
)
    requires
        ordered(ts, file_id),
        expr_list_at(ts, p, values, q),
        0 <= a <= p && q <= b <= ts.len(),
    ensures
        nested_exprs(values, range(ts, a, b), file_id),
    decreases ts.len() - p, 22int,
{
    let (expr, r, more) = expr_list_parts(ts, p, values, q);
    let rest = match more {
        Some(rest) => {
            level_span(ts, 0, p, expr, r);
            expr_list_behind(ts, r + 1, rest, q);
            lemma_expr_list(ts, file_id, r + 1, rest, q, a, b);
            rest
        },
        None => Seq::empty(),
    };
    lemma_level(ts, file_id, 0, p, expr, r);
    lemma_range(ts, file_id, a, b, p, r);
    lemma_exprs_front(expr, rest, range(ts, a, b), file_id);
    assert(values =~= seq![expr] + rest);
}

proof fn lemma_entries(
    ts: Seq<TokenView>,
    file_id: FileId,
    p: int,
    values: Seq<(ExprView, ExprView)>,
    q: int,
    a: int,
    b: int,
)
    requires
        ordered(ts, file_id),
        entries_at(ts, p, values, q),
        0 <= a <= p && q <= b <= ts.len(),
    ensures
        nested_entries(values, range(ts, a, b), file_id),
    decreases ts.len() - p, 23int,
{
    entries_behind(ts, p, values, q);
    entries_cases(ts, p, values, q);
    if !(kind_at(ts, p) is RightBrace) {
        lemma_entry_list(ts, file_id, p, values, q, a, b);
    }
}

proof fn lemma_entry_list(
    ts: Seq<TokenView>,
    file_id: FileId,
    p: int,
    values: Seq<(ExprView, ExprView)>,
    q: int,
    a: int,
    b: int,
)
    requires
        ordered(ts, file_id),
        entry_list_at(ts, p, values, q),
        0 <= a <= p && q <= b <= ts.len(),
    ensures
        nested_entries(values, range(ts, a, b), file_id),
    decreases ts.len() - p, 22int,
{
    let EntryParts { key, r, value, s, rest: more } = entry_list_parts(ts, p, values, q);
    level_span(ts, 0, p, key, r);
    level_span(ts, 0, r + 1, value, s);
    let rest = match more {
        Some(rest) => {
            entries_behind(ts, s + 1, rest, q);
            lemma_entry_list(ts, file_id, s + 1, rest, q, a, b);
            rest
        },
        None => Seq::empty(),
    };
    lemma_level(ts, file_id, 0, p, key, r);
    lemma_level(ts, file_id, 0, r + 1, value, s);
    lemma_range(ts, file_id, a, b, p, r);
    lemma_range(ts, file_id, a, b, r + 1, s);
    lemma_entries_front((key, value), rest, range(ts, a, b), file_id);
    assert(values =~= seq![(key, value)] + rest);
}

// ---------------------------------------------------------------------------
// Statements
// ---------------------------------------------------------------------------

proof fn lemma_block_within(
    ts: Seq<TokenView>,
    file_id: FileId,
    p: int,
    body: Seq<StmtView>,
    end: SourceSpan,
    q: int,
    a: int,
    b: int,
)
    requires
        ordered(ts, file_id),
        block_at(ts, p, body, end, q),
        0 <= a <= p && q <= b <= ts.len(),
    ensures
        nested_stmts(body, range(ts, a, b), file_id),
        0 <= p < q <= ts.len(),
    decreases ts.len() - p, 29int,
{
    block_bounds(ts, p, body, end, q);
    block_cases(ts, p, body, end, q);
    lemma_stmts(ts, file_id, p + 1, body, q - 1, a, b);
}

proof fn lemma_block(
    ts: Seq<TokenView>,
    file_id: FileId,
    p: int,
    body: Seq<StmtView>,
    q: int,
    a: int,
)
    requires
        ordered(ts, file_id),
        block_at(ts, p, body, ts[q - 1].span, q),
        0 <= a <= p,
    ensures
        nested_stmts(body, range(ts, a, q), file_id),
        0 <= p < q <= ts.len(),
    decreases ts.len() - p, 30int,
{
    block_bounds(ts, p, body, ts[q - 1].span, q);
    lemma_block_within(ts, file_id, p, body, ts[q - 1].span, q, a, q);
}

proof fn lemma_stmts(
    ts: Seq<TokenView>,
    file_id: FileId,
    p: int,
    body: Seq<StmtView>,
    q: int,
    a: int,
    b: int,
)
    requires
        ordered(ts, file_id),
        stmts_at(ts, p, body, q),
        0 <= a <= p && q <= b <= ts.len(),
    ensures
        nested_stmts(body, range(ts, a, b), file_id),
    decreases ts.len() - p, 33int,
{
    if let Some((stmt, r, rest)) = stmts_parts(ts, p, body, q) {
        stmt_spans(ts, p, stmt, r);
        lemma_stmt(ts, file_id, p, stmt, r);
        stmts_parts(ts, r, rest, q);
        lemma_stmts(ts, file_id, r, rest, q, a, b);
        lemma_range(ts, file_id, a, b, p, r);
        lemma_stmts_front(stmt, rest, range(ts, a, b), file_id);
    }
}

proof fn lemma_stmt(
    ts: Seq<TokenView>,
    file_id: FileId,
    p: int,
    stmt: StmtView,
    q: int,
)
    requires
        ordered(ts, file_id),
        stmt_at(ts, p, stmt, q),
    ensures
        nested_stmt(stmt, file_id),
    decreases ts.len() - p, 32int,
{
    stmt_spans(ts, p, stmt, q);
    stmt_cases(ts, p, stmt, q);
    lemma_range(ts, file_id, p, q, p, q);
    match ts[p].kind {
        TokenKindView::Let => lemma_let(ts, file_id, p + 1, false, stmt, q),
        TokenKindView::If => lemma_if(ts, file_id, p + 1, stmt, q),
        TokenKindView::While => lemma_while(ts, file_id, p + 1, stmt, q),
        TokenKindView::Return => {
            return_cases(ts, p + 1, stmt, q);
            lemma_level(ts, file_id, 0, p + 1, stmt->Return_value, q - 1);
            lemma_range(ts, file_id, p, q, p + 1, q - 1);
        },
        TokenKindView::LeftBrace => {
            lemma_block(ts, file_id, p, stmt->Block_statements, q, p);
        },
        _ => lemma_assignment(ts, file_id, p, stmt, q),
    }
}

proof fn lemma_let(
    ts: Seq<TokenView>,
    file_id: FileId,
    p: int,
    exported: bool,
    stmt: StmtView,
    q: int,
)
    requires
        ordered(ts, file_id),
        let_at(ts, p, exported, stmt, q),
        0 < p <= ts.len(),
        ts[p - 1].kind is Let,
    ensures
        nested_stmt(stmt, file_id),
        p < q <= ts.len(),
    decreases ts.len() - p, 28int,
{
    let_cases(ts, p, exported, stmt, q);
    lemma_level(ts, file_id, 0, p + 2, stmt->Let_initializer, q - 1);
    lemma_range(ts, file_id, p - 1, q, p + 2, q - 1);
}

proof fn lemma_while(
    ts: Seq<TokenView>,
    file_id: FileId,
    p: int,
    stmt: StmtView,
    q: int,
)
    requires
        ordered(ts, file_id),
        while_at(ts, p, stmt, q),
        0 < p <= ts.len(),
    ensures
        nested_stmt(stmt, file_id),
    decreases ts.len() - p, 31int,
{
    let r = while_parts(ts, p, stmt, q);
    let condition = stmt->While_condition;
    condition_cases(ts, p, condition, r);
    lemma_level(ts, file_id, 0, p + 1, condition, r - 1);
    lemma_block(ts, file_id, r, stmt->While_body, q, p - 1);
    lemma_range(ts, file_id, p - 1, q, p + 1, r - 1);
}

proof fn lemma_if(
    ts: Seq<TokenView>,
    file_id: FileId,
    p: int,
    stmt: StmtView,
    q: int,
)
    requires
        ordered(ts, file_id),
        if_at(ts, p, stmt, q),
        0 < p <= ts.len(),
    ensures
        nested_stmt(stmt, file_id),
    decreases ts.len() - p, 31int,
{
    let (r, s) = if_parts(ts, p, stmt, q);
    let condition = stmt->If_condition;
    condition_cases(ts, p, condition, r);
    lemma_level(ts, file_id, 0, p + 1, condition, r - 1);
    lemma_block_within(ts, file_id, r, stmt->If_then_branch, ts[s - 1].span, s, p - 1, q);
    if kind_at(ts, s) is Else {
        lemma_block(ts, file_id, s + 1, stmt->If_else_branch, q, p - 1);
    }
    lemma_range(ts, file_id, p - 1, q, p + 1, r - 1);
}

proof fn lemma_assignment(
    ts: Seq<TokenView>,
    file_id: FileId,
    p: int,
    stmt: StmtView,
    q: int,
)
    requires
        ordered(ts, file_id),
        assignment_at(ts, p, stmt, q),
        0 <= p < ts.len(),
        !at_end(ts, p),
    ensures
        nested_stmt(stmt, file_id),
    decreases ts.len() - p, 28int,
{
    let (target, r, value) = assignment_parts(ts, p, stmt, q);
    lemma_level(ts, file_id, 0, p, target, r);
    if kind_at(ts, r) is Equal {
        lemma_level(ts, file_id, 0, r + 1, value, q - 1);
        lemma_range(ts, file_id, p, q, r + 1, q - 1);
    }
    lemma_range(ts, file_id, p, q, p, r);
}

// ---------------------------------------------------------------------------
// Programs
// ---------------------------------------------------------------------------

proof fn lemma_function(
    ts: Seq<TokenView>,
    file_id: FileId,
    p: int,
    exported: bool,
    stmt: StmtView,
    q: int,
)
    requires
        ordered(ts, file_id),
        function_at(ts, p, exported, stmt, q),
        0 < p <= ts.len(),
        ts[p - 1].kind is Fn,
    ensures
        nested_stmt(stmt, file_id),
        p < q <= ts.len(),
{
    let r = function_parts(ts, p, exported, stmt, q);
    signature_bounds(ts, p + 1, stmt->Function_params, r);
    lemma_block(ts, file_id, r, stmt->Function_body, q, p - 1);
    lemma_range(ts, file_id, p - 1, q, p - 1, q);
}

proof fn lemma_declaration(
    ts: Seq<TokenView>,
    file_id: FileId,
    p: int,
    stmt: StmtView,
    q: int,
)
    requires
        ordered(ts, file_id),
        declaration_at(ts, p, stmt, q),
        0 <= p < ts.len(),
        !(ts[p].kind is Eof),
    ensures
        nested_stmt(stmt, file_id),
        p < q <= ts.len(),
{
    declaration_cases(ts, p, stmt, q);
    match ts[p].kind {
        TokenKindView::Export => {
            if is_at(ts, p + 1, TokenKindView::Fn) {
                lemma_function(ts, file_id, p + 2, true, stmt, q);
            } else {
                lemma_let(ts, file_id, p + 2, true, stmt, q);
            }
        },
        TokenKindView::Fn => lemma_function(ts, file_id, p + 1, false, stmt, q),
        TokenKindView::Import => {
            let name = import_parts(ts, p + 1, stmt, q);
            module_name_parts(ts, name, p + 2, stmt->Import_module, q - 1);
            lemma_range(ts, file_id, p, q, p, q);
        },
        _ => {
            stmt_spans(ts, p, stmt, q);
            lemma_stmt(ts, file_id, p, stmt, q);
        },
    }
}

proof fn lemma_program(
    ts: Seq<TokenView>,
    file_id: FileId,
    p: int,
    stmts: Seq<StmtView>,
)
    requires
        ordered(ts, file_id),
        program_at(ts, p, stmts),
        0 <= p <= ts.len(),
    ensures
        forall|i: int| 0 <= i < stmts.len() ==> nested_stmt(#[trigger] stmts[i], file_id),
    decreases ts.len() - p,
{
    if at_end(ts, p) {
        program_none(ts, p, stmts);
    } else {
        let (stmt, q, rest) = program_parts(ts, p, stmts);
        lemma_declaration(ts, file_id, p, stmt, q);
        lemma_program(ts, file_id, q, rest);
        assert forall|i: int| 0 <= i < stmts.len() implies nested_stmt(
            #[trigger] stmts[i],
            file_id,
        ) by {
            if i > 0 {
                assert(stmts[i] == rest[i - 1]);
            }
        }
    }
}

/// Every span in the syntax tree of a text is one of the text's file, and lies within the span of
/// the expression or statement around it.
pub proof fn spans_lie_within_their_parents(text: Seq<char>, file_id: FileId)
    requires
        encode_utf8(text).len() <= usize::MAX,
        source_tree(text, file_id) is Ok,
    ensures
        forall|i: int|
            0 <= i < source_tree(text, file_id)->Ok_0.len() ==> nested_stmt(
                #[trigger] source_tree(text, file_id)->Ok_0[i],
                file_id,
            ),
{
    let ts = tokens_from(text, 0, file_id)->Ok_0;
    let stmts = source_tree(text, file_id)->Ok_0;
    token_spans_are_ordered(text, file_id);
    assert(ordered(ts, file_id)) by {
        reveal(ordered);
    }
    program_found(ts, stmts);
    lemma_program(ts, file_id, 0, stmts);
}

} // verus!
