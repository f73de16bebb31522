//! A syntax tree does not depend on what stands before and behind its text.

use vstd::prelude::*;
use vstd::utf8::encode_utf8;

use crate::compiler::ast::{ExprView, StmtView};
use crate::compiler::codegen::source_tree;
use crate::compiler::derivation::{
    assignment_at, assignment_made, assignment_parts, block_at, block_bounds,
    block_cases, call_made, call_parts, call_rest_at, call_rest_made, call_rest_none,
    call_rest_parts, call_rest_span, condition_at, condition_cases, declaration_at,
    declaration_cases, entries_at, entries_behind, entries_cases, entry_list_at, entry_list_made,
    entry_list_parts, expr_list_at, expr_list_behind, expr_list_more, expr_list_one,
    expr_list_parts, exprs_at, exprs_behind, exprs_cases, function_at, function_made,
    function_parts, if_at, if_made, if_parts, import_at, import_made, import_parts, is_at,
    let_at, let_cases, level_at, level_made, level_parts, level_span, module_name_at,
    module_name_made, module_name_none, module_name_parts, params_at, params_behind, params_made,
    params_parts, primary_array, primary_at, primary_cases, primary_function_made,
    primary_function_parts, primary_grouping, primary_map, primary_span, primary_token, program_at,
    program_found, program_made, program_none, program_parts, rest_at, rest_made, rest_none,
    rest_parts, rest_span, return_at, return_cases, signature_at, signature_bounds,
    signature_cases, stmt_at, stmt_cases, stmt_spans, stmts_at, stmts_made, stmts_none,
    stmts_parts, suffix_at, suffix_end, suffixed, while_at, while_made, while_parts,
    EntryParts, Operand, Suffix,
};
use crate::compiler::error::CompileErrorView;
use crate::compiler::lexer::{
    lemma_encode_joined, tokens_end_with_one_eof, tokens_from, TokenKindView, TokenView,
};
use crate::compiler::lexer_laws::{
    moved_span, moved_token, moved_tokens, second_offset, tokens_of_two_texts, two_texts,
};
use crate::compiler::parser::{
    assignment, at_end, binary_expr, kind_at, parse_assignment_or_expr,
    parse_binary, parse_call, parse_declaration, parse_expr, parse_primary, parse_program,
    parse_stmt,
};
use crate::compiler::parser_laws::stmt_span;
use crate::diagnostics::span::{FileId, SourceSpan};

verus! {

// ---------------------------------------------------------------------------
// Trees that lie further on
// ---------------------------------------------------------------------------

/// An expression that lies `n` bytes further on.
#[verifier::opaque]
pub open spec fn moved_expr(expr: ExprView, n: int) -> ExprView
    decreases expr,
{
    match expr {
        ExprView::Literal { value, span } => ExprView::Literal { value, span: moved_span(span, n) },
        ExprView::Variable { name, span } => ExprView::Variable { name, span: moved_span(span, n) },
        ExprView::Binary { op, lhs, rhs, span } => ExprView::Binary {
            op,
            lhs: Box::new(moved_expr(*lhs, n)),
            rhs: Box::new(moved_expr(*rhs, n)),
            span: moved_span(span, n),
        },
        ExprView::Call { callee, args, span } => ExprView::Call {
            callee,
            args: moved_exprs(args, n),
            span: moved_span(span, n),
        },
        ExprView::Function { params, body, span } => ExprView::Function {
            params,
            body: moved_stmts(body, n),
            span: moved_span(span, n),
        },
        ExprView::Index { target, index, span } => ExprView::Index {
            target: Box::new(moved_expr(*target, n)),
            index: Box::new(moved_expr(*index, n)),
            span: moved_span(span, n),
        },
        ExprView::Array { elements, span } => ExprView::Array {
            elements: moved_exprs(elements, n),
            span: moved_span(span, n),
        },
        ExprView::MapLiteral { entries, span } => ExprView::MapLiteral {
            entries: moved_entries(entries, n),
            span: moved_span(span, n),
        },
        ExprView::Grouping { expr, span } => ExprView::Grouping {
            expr: Box::new(moved_expr(*expr, n)),
            span: moved_span(span, n),
        },
    }
}

/// Expressions that lie `n` bytes further on.
#[verifier::opaque]
pub open spec fn moved_exprs(exprs: Seq<ExprView>, n: int) -> Seq<ExprView>
    decreases exprs,
{
    Seq::new(
        exprs.len(),
        |i: int|
            if 0 <= i < exprs.len() {
                moved_expr(exprs[i], n)
            } else {
                arbitrary()
            },
    )
}

/// Key/value pairs that lie `n` bytes further on.
#[verifier::opaque]
pub open spec fn moved_entries(entries: Seq<(ExprView, ExprView)>, n: int) -> Seq<
    (ExprView, ExprView),
>
    decreases entries,
{
    Seq::new(
        entries.len(),
        |i: int|
            if 0 <= i < entries.len() {
                (moved_expr(entries[i].0, n), moved_expr(entries[i].1, n))
            } else {
                arbitrary()
            },
    )
}

/// A statement that lies `n` bytes further on.
#[verifier::opaque]
pub open spec fn moved_stmt(stmt: StmtView, n: int) -> StmtView
    decreases stmt,
{
    match stmt {
        StmtView::Import { module, span } => StmtView::Import {
            module,
            span: moved_span(span, n),
        },
        StmtView::Let { name, initializer, exported, span } => StmtView::Let {
            name,
            initializer: moved_expr(initializer, n),
            exported,
            span: moved_span(span, n),
        },
        StmtView::Function { name, params, body, exported, span } => StmtView::Function {
            name,
            params,
            body: moved_stmts(body, n),
            exported,
            span: moved_span(span, n),
        },
        StmtView::Assign { name, value, span } => StmtView::Assign {
            name,
            value: moved_expr(value, n),
            span: moved_span(span, n),
        },
        StmtView::IndexAssign { target, index, value, span } => StmtView::IndexAssign {
            target: moved_expr(target, n),
            index: moved_expr(index, n),
            value: moved_expr(value, n),
            span: moved_span(span, n),
        },
        StmtView::Return { value, span } => StmtView::Return {
            value: moved_expr(value, n),
            span: moved_span(span, n),
        },
        StmtView::If { condition, then_branch, else_branch, span } => StmtView::If {
            condition: moved_expr(condition, n),
            then_branch: moved_stmts(then_branch, n),
            else_branch: moved_stmts(else_branch, n),
            span: moved_span(span, n),
        },
        StmtView::While { condition, body, span } => StmtView::While {
            condition: moved_expr(condition, n),
            body: moved_stmts(body, n),
            span: moved_span(span, n),
        },
        StmtView::Block { statements, span } => StmtView::Block {
            statements: moved_stmts(statements, n),
            span: moved_span(span, n),
        },
        StmtView::Expr { value, span } => StmtView::Expr {
            value: moved_expr(value, n),
            span: moved_span(span, n),
        },
    }
}

/// Statements that lie `n` bytes further on.
#[verifier::opaque]
pub open spec fn moved_stmts(stmts: Seq<StmtView>, n: int) -> Seq<StmtView>
    decreases stmts,
{
    Seq::new(
        stmts.len(),
        |i: int|
            if 0 <= i < stmts.len() {
                moved_stmt(stmts[i], n)
            } else {
                arbitrary()
            },
    )
}

proof fn lemma_expr_stays(expr: ExprView)
    ensures
        moved_expr(expr, 0) == expr,
    decreases expr,
{
    reveal(moved_expr);
    reveal(moved_exprs);
    reveal(moved_entries);
    reveal(moved_stmt);
    reveal(moved_stmts);
    lemma_span_stays(expr.span());
    match expr {
        ExprView::Literal { .. } | ExprView::Variable { .. } => {},
        ExprView::Binary { lhs, rhs, .. } => {
            lemma_expr_stays(*lhs);
            lemma_expr_stays(*rhs);
        },
        ExprView::Call { args, .. } => lemma_exprs_stay(args),
        ExprView::Function { body, .. } => lemma_stmts_stay(body),
        ExprView::Index { target, index, .. } => {
            lemma_expr_stays(*target);
            lemma_expr_stays(*index);
        },
        ExprView::Array { elements, .. } => lemma_exprs_stay(elements),
        ExprView::MapLiteral { entries, .. } => lemma_entries_stay(entries),
        ExprView::Grouping { expr, .. } => lemma_expr_stays(*expr),
    }
}

proof fn lemma_exprs_stay(exprs: Seq<ExprView>)
    ensures
        moved_exprs(exprs, 0) == exprs,
    decreases exprs,
{
    reveal(moved_expr);
    reveal(moved_exprs);
    reveal(moved_entries);
    reveal(moved_stmt);
    reveal(moved_stmts);
    assert forall|i: int| 0 <= i < exprs.len() implies moved_exprs(exprs, 0)[i] == exprs[i] by {
        lemma_expr_stays(exprs[i]);
    }
    assert(moved_exprs(exprs, 0) =~= exprs);
}

proof fn lemma_entries_stay(entries: Seq<(ExprView, ExprView)>)
    ensures
        moved_entries(entries, 0) == entries,
    decreases entries,
{
    reveal(moved_expr);
    reveal(moved_exprs);
    reveal(moved_entries);
    reveal(moved_stmt);
    reveal(moved_stmts);
    assert forall|i: int| 0 <= i < entries.len() implies moved_entries(entries, 0)[i]
        == entries[i] by {
        assert(decreases_to!(entries => entries[i]));
        lemma_expr_stays(entries[i].0);
        lemma_expr_stays(entries[i].1);
    }
    assert(moved_entries(entries, 0) =~= entries);
}

proof fn lemma_stmt_stays(stmt: StmtView)
    ensures
        moved_stmt(stmt, 0) == stmt,
    decreases stmt,
{
    reveal(moved_expr);
    reveal(moved_exprs);
    reveal(moved_entries);
    reveal(moved_stmt);
    reveal(moved_stmts);
    lemma_span_stays(stmt_span(stmt));
    match stmt {
        StmtView::Import { .. } => {},
        StmtView::Let { initializer, .. } => lemma_expr_stays(initializer),
        StmtView::Function { body, .. } => lemma_stmts_stay(body),
        StmtView::Assign { value, .. } => lemma_expr_stays(value),
        StmtView::IndexAssign { target, index, value, .. } => {
            lemma_expr_stays(target);
            lemma_expr_stays(index);
            lemma_expr_stays(value);
        },
        StmtView::Return { value, .. } => lemma_expr_stays(value),
        StmtView::If { condition, then_branch, else_branch, .. } => {
            lemma_expr_stays(condition);
            lemma_stmts_stay(then_branch);
            lemma_stmts_stay(else_branch);
        },
        StmtView::While { condition, body, .. } => {
            lemma_expr_stays(condition);
            lemma_stmts_stay(body);
        },
        StmtView::Block { statements, .. } => lemma_stmts_stay(statements),
        StmtView::Expr { value, .. } => lemma_expr_stays(value),
    }
}

proof fn lemma_stmts_stay(stmts: Seq<StmtView>)
    ensures
        moved_stmts(stmts, 0) == stmts,
    decreases stmts,
{
    reveal(moved_expr);
    reveal(moved_exprs);
    reveal(moved_entries);
    reveal(moved_stmt);
    reveal(moved_stmts);
    assert forall|i: int| 0 <= i < stmts.len() implies moved_stmts(stmts, 0)[i] == stmts[i] by {
        lemma_stmt_stays(stmts[i]);
    }
    assert(moved_stmts(stmts, 0) =~= stmts);
}

proof fn lemma_span_stays(span: SourceSpan)
    ensures
        moved_span(span, 0) == span,
{
}

/// An expression that lies further on, one level at a time.
proof fn lemma_moved_expr(expr: ExprView, n: int)
    ensures
        moved_expr(expr, n) == (
            match expr {
                ExprView::Literal { value, span } => ExprView::Literal { value, span: moved_span(span, n) },
                ExprView::Variable { name, span } => ExprView::Variable { name, span: moved_span(span, n) },
                ExprView::Binary { op, lhs, rhs, span } => ExprView::Binary {
                    op,
                    lhs: Box::new(moved_expr(*lhs, n)),
                    rhs: Box::new(moved_expr(*rhs, n)),
                    span: moved_span(span, n),
                },
                ExprView::Call { callee, args, span } => ExprView::Call {
                    callee,
                    args: moved_exprs(args, n),
                    span: moved_span(span, n),
                },
                ExprView::Function { params, body, span } => ExprView::Function {
                    params,
                    body: moved_stmts(body, n),
                    span: moved_span(span, n),
                },
                ExprView::Index { target, index, span } => ExprView::Index {
                    target: Box::new(moved_expr(*target, n)),
                    index: Box::new(moved_expr(*index, n)),
                    span: moved_span(span, n),
                },
                ExprView::Array { elements, span } => ExprView::Array {
                    elements: moved_exprs(elements, n),
                    span: moved_span(span, n),
                },
                ExprView::MapLiteral { entries, span } => ExprView::MapLiteral {
                    entries: moved_entries(entries, n),
                    span: moved_span(span, n),
                },
                ExprView::Grouping { expr, span } => ExprView::Grouping {
                    expr: Box::new(moved_expr(*expr, n)),
                    span: moved_span(span, n),
                },
            }),
{
    reveal(moved_expr);
    reveal(moved_exprs);
    reveal(moved_entries);
    reveal(moved_stmt);
    reveal(moved_stmts);
}

/// A statement that lies further on, one level at a time.
proof fn lemma_moved_stmt(stmt: StmtView, n: int)
    ensures
        moved_stmt(stmt, n) == (
            match stmt {
                StmtView::Import { module, span } => StmtView::Import {
                    module,
                    span: moved_span(span, n),
                },
                StmtView::Let { name, initializer, exported, span } => StmtView::Let {
                    name,
                    initializer: moved_expr(initializer, n),
                    exported,
                    span: moved_span(span, n),
                },
                StmtView::Function { name, params, body, exported, span } => StmtView::Function {
                    name,
                    params,
                    body: moved_stmts(body, n),
                    exported,
                    span: moved_span(span, n),
                },
                StmtView::Assign { name, value, span } => StmtView::Assign {
                    name,
                    value: moved_expr(value, n),
                    span: moved_span(span, n),
                },
                StmtView::IndexAssign { target, index, value, span } => StmtView::IndexAssign {
                    target: moved_expr(target, n),
                    index: moved_expr(index, n),
                    value: moved_expr(value, n),
                    span: moved_span(span, n),
                },
                StmtView::Return { value, span } => StmtView::Return {
                    value: moved_expr(value, n),
                    span: moved_span(span, n),
                },
                StmtView::If { condition, then_branch, else_branch, span } => StmtView::If {
                    condition: moved_expr(condition, n),
                    then_branch: moved_stmts(then_branch, n),
                    else_branch: moved_stmts(else_branch, n),
                    span: moved_span(span, n),
                },
                StmtView::While { condition, body, span } => StmtView::While {
                    condition: moved_expr(condition, n),
                    body: moved_stmts(body, n),
                    span: moved_span(span, n),
                },
                StmtView::Block { statements, span } => StmtView::Block {
                    statements: moved_stmts(statements, n),
                    span: moved_span(span, n),
                },
                StmtView::Expr { value, span } => StmtView::Expr {
                    value: moved_expr(value, n),
                    span: moved_span(span, n),
                },
            }),
{
    reveal(moved_expr);
    reveal(moved_exprs);
    reveal(moved_entries);
    reveal(moved_stmt);
    reveal(moved_stmts);
}

proof fn lemma_front_expr(item: ExprView, rest: Seq<ExprView>, n: int)
    ensures
        moved_exprs(Seq::empty(), n) == Seq::<ExprView>::empty(),
        moved_exprs(seq![item], n) == seq![moved_expr(item, n)],
        moved_exprs(seq![item] + rest, n) == seq![moved_expr(item, n)] + moved_exprs(rest, n),
{
    reveal(moved_expr);
    reveal(moved_exprs);
    reveal(moved_entries);
    reveal(moved_stmt);
    reveal(moved_stmts);
    assert(moved_exprs(Seq::empty(), n) =~= Seq::<ExprView>::empty());
    assert(moved_exprs(seq![item], n) =~= seq![moved_expr(item, n)]);
    assert(moved_exprs(seq![item] + rest, n) =~= seq![moved_expr(item, n)] + moved_exprs(rest, n));
}

proof fn lemma_front_entry(
    item: (ExprView, ExprView),
    rest: Seq<(ExprView, ExprView)>,
    n: int,
)
    ensures
        moved_entries(Seq::empty(), n) == Seq::<(ExprView, ExprView)>::empty(),
        moved_entries(seq![item], n) == seq![(moved_expr(item.0, n), moved_expr(item.1, n))],
        moved_entries(seq![item] + rest, n) == seq![
            (moved_expr(item.0, n), moved_expr(item.1, n)),
        ] + moved_entries(rest, n),
{
    reveal(moved_expr);
    reveal(moved_exprs);
    reveal(moved_entries);
    reveal(moved_stmt);
    reveal(moved_stmts);
    assert(moved_entries(Seq::empty(), n) =~= Seq::<(ExprView, ExprView)>::empty());
    assert(moved_entries(seq![item], n) =~= seq![(moved_expr(item.0, n), moved_expr(item.1, n))]);
    assert(moved_entries(seq![item] + rest, n) =~= seq![
        (moved_expr(item.0, n), moved_expr(item.1, n)),
    ] + moved_entries(rest, n));
}

proof fn lemma_front_stmt(item: StmtView, rest: Seq<StmtView>, n: int)
    ensures
        moved_stmts(Seq::empty(), n) == Seq::<StmtView>::empty(),
        moved_stmts(seq![item], n) == seq![moved_stmt(item, n)],
        moved_stmts(seq![item] + rest, n) == seq![moved_stmt(item, n)] + moved_stmts(rest, n),
{
    reveal(moved_expr);
    reveal(moved_exprs);
    reveal(moved_entries);
    reveal(moved_stmt);
    reveal(moved_stmts);
    assert(moved_stmts(Seq::empty(), n) =~= Seq::<StmtView>::empty());
    assert(moved_stmts(seq![item], n) =~= seq![moved_stmt(item, n)]);
    assert(moved_stmts(seq![item] + rest, n) =~= seq![moved_stmt(item, n)] + moved_stmts(rest, n));
}

proof fn lemma_moved_span(expr: ExprView, n: int)
    ensures
        moved_expr(expr, n).span() == moved_span(expr.span(), n),
{
    lemma_moved_expr(expr, n);
}

// ---------------------------------------------------------------------------
// Tokens among others
// ---------------------------------------------------------------------------

/// Whether the tokens `ts` stand among the tokens `us`, from position `d` on and `n` bytes further
/// on, without their end, and no `else` follows them.
#[verifier::opaque]
pub open spec fn stand_among(ts: Seq<TokenView>, us: Seq<TokenView>, d: int, n: int) -> bool {
    &&& 0 < ts.len()
    &&& 0 <= d
    &&& ts.len() + d <= us.len()
    &&& ts.last().kind is Eof
    &&& forall|k: int|
        0 <= k < ts.len() - 1 ==> {
            &&& !((#[trigger] ts[k]).kind is Eof)
            &&& us[k + d] == moved_token(ts[k], n)
        }
    &&& !(us[ts.len() - 1 + d].kind is Else)
}

proof fn lemma_token(
    ts: Seq<TokenView>,
    us: Seq<TokenView>,
    d: int,
    n: int,
    k: int,
)
    requires
        stand_among(ts, us, d, n),
    ensures
        0 <= d,
        ts.len() + d <= us.len(),
        0 <= k < ts.len() - 1 ==> !(ts[k].kind is Eof),
        0 <= k < ts.len() - 1 ==> us[k + d].kind == ts[k].kind,
        0 <= k < ts.len() - 1 ==> us[k + d].span == moved_span(ts[k].span, n),
        0 <= k < ts.len() - 1 ==> kind_at(us, k + d) == kind_at(ts, k),
        0 <= k < ts.len() && !(ts[k].kind is Eof) ==> k < ts.len() - 1,
{
    reveal(stand_among);
}

proof fn lemma_no_else(
    ts: Seq<TokenView>,
    us: Seq<TokenView>,
    d: int,
    n: int,
)
    requires
        stand_among(ts, us, d, n),
    ensures
        0 < ts.len(),
        !(kind_at(us, ts.len() - 1 + d) is Else),
        at_end(ts, ts.len() - 1),
{
    reveal(stand_among);
}

// ---------------------------------------------------------------------------
// Expressions
// ---------------------------------------------------------------------------

proof fn lemma_level(
    ts: Seq<TokenView>,
    us: Seq<TokenView>,
    d: int,
    n: int,
    level: nat,
    p: int,
    value: ExprView,
    q: int,
)
    requires
        stand_among(ts, us, d, n),
        level_at(ts, level, p, value, q),
        q < ts.len() - 1,
    ensures
        level_at(us, level, p + d, moved_expr(value, n), q + d),
    decreases ts.len() - p, 20 - 2 * level,
{
    level_span(ts, level, p, value, q);
    if level < 4 {
        let (lhs, r) = level_parts(ts, level, p, value, q);
        level_span(ts, level + 1, p, lhs, r);
        rest_span(ts, level, lhs, r, value, q);
        lemma_level(ts, us, d, n, level + 1, p, lhs, r);
        lemma_rest(ts, us, d, n, level, lhs, r, value, q);
        level_made(us, level, p + d, moved_expr(lhs, n), r + d, moved_expr(value, n), q + d);
    } else {
        let (expr, r) = call_parts(ts, p, value, q);
        primary_span(ts, p, expr, r);
        call_rest_span(ts, expr, r, value, q);
        lemma_primary(ts, us, d, n, p, expr, r);
        lemma_call_rest(ts, us, d, n, expr, r, value, q);
        call_made(us, p + d, moved_expr(expr, n), r + d, moved_expr(value, n), q + d);
    }
}

proof fn lemma_rest(
    ts: Seq<TokenView>,
    us: Seq<TokenView>,
    d: int,
    n: int,
    level: nat,
    lhs: ExprView,
    p: int,
    value: ExprView,
    q: int,
)
    requires
        stand_among(ts, us, d, n),
        rest_at(ts, level, lhs, p, value, q),
        q < ts.len() - 1,
    ensures
        rest_at(us, level, moved_expr(lhs, n), p + d, moved_expr(value, n), q + d),
    decreases ts.len() - p, 19int,
{
    rest_span(ts, level, lhs, p, value, q);
    lemma_token(ts, us, d, n, p - 1);
    lemma_token(ts, us, d, n, p);
    lemma_moved_span(lhs, n);
    match rest_parts(ts, level, lhs, p, value, q) {
        None => {
            rest_none(us, level, moved_expr(lhs, n), p + d);
        },
        Some(Operand { op, rhs, r }) => {
            let both = binary_expr(lhs, op, rhs);
            level_span(ts, level + 1, p + 1, rhs, r);
            rest_span(ts, level, both, r, value, q);
            lemma_level(ts, us, d, n, level + 1, p + 1, rhs, r);
            lemma_rest(ts, us, d, n, level, both, r, value, q);
            lemma_moved_span(rhs, n);
            lemma_moved_expr(both, n);
            assert(moved_expr(both, n) == binary_expr(moved_expr(lhs, n), op, moved_expr(rhs, n)));
            rest_made(
                us,
                level,
                moved_expr(lhs, n),
                p + d,
                Operand { op, rhs: moved_expr(rhs, n), r: r + d },
                moved_expr(value, n),
                q + d,
            );
        },
    }
}

/// A suffix that lies further on.
spec fn moved_suffix(suffix: Suffix, d: int, n: int) -> Suffix {
    match suffix {
        Suffix::Arguments { args, r } => Suffix::Arguments { args: moved_exprs(args, n), r: r + d },
        Suffix::Member { member } => Suffix::Member { member },
        Suffix::Index { index, r } => Suffix::Index { index: moved_expr(index, n), r: r + d },
        Suffix::Nothing => Suffix::Nothing,
    }
}

proof fn lemma_suffix(
    ts: Seq<TokenView>,
    us: Seq<TokenView>,
    d: int,
    n: int,
    expr: ExprView,
    p: int,
    suffix: Suffix,
)
    requires
        stand_among(ts, us, d, n),
        suffix_at(ts, expr, p, suffix),
        0 < p < ts.len(),
        suffix_end(p, suffix) < ts.len(),
        suffix is Nothing ==> p < ts.len() - 1,
    ensures
        suffix_at(us, moved_expr(expr, n), p + d, moved_suffix(suffix, d, n)),
        suffixed(us, moved_expr(expr, n), p + d, moved_suffix(suffix, d, n)) == moved_expr(
            suffixed(ts, expr, p, suffix),
            n,
        ),
    decreases ts.len() - p, 8int,
{
    let next = suffixed(ts, expr, p, suffix);
    lemma_token(ts, us, d, n, p);
    lemma_moved_span(expr, n);
    lemma_moved_expr(expr, n);
    lemma_moved_expr(next, n);
    match suffix {
        Suffix::Arguments { args, r } => {
            exprs_behind(ts, TokenKindView::RightParen, p + 1, args, r);
            lemma_token(ts, us, d, n, r);
            lemma_exprs(ts, us, d, n, TokenKindView::RightParen, p + 1, args, r);
        },
        Suffix::Member { .. } => {
            lemma_token(ts, us, d, n, p + 1);
        },
        Suffix::Index { index, r } => {
            level_span(ts, 0, p + 1, index, r);
            lemma_token(ts, us, d, n, r);
            lemma_level(ts, us, d, n, 0, p + 1, index, r);
        },
        Suffix::Nothing => {},
    }
}

proof fn lemma_call_rest(
    ts: Seq<TokenView>,
    us: Seq<TokenView>,
    d: int,
    n: int,
    expr: ExprView,
    p: int,
    value: ExprView,
    q: int,
)
    requires
        stand_among(ts, us, d, n),
        call_rest_at(ts, expr, p, value, q),
        q < ts.len() - 1,
    ensures
        call_rest_at(us, moved_expr(expr, n), p + d, moved_expr(value, n), q + d),
    decreases ts.len() - p, 10int,
{
    call_rest_span(ts, expr, p, value, q);
    lemma_token(ts, us, d, n, p - 1);
    lemma_moved_span(expr, n);
    let suffix = call_rest_parts(ts, expr, p, value, q);
    let next = suffixed(ts, expr, p, suffix);
    let end = suffix_end(p, suffix);
    if suffix is Nothing {
        lemma_suffix(ts, us, d, n, expr, p, suffix);
        call_rest_none(us, moved_expr(expr, n), p + d);
    } else {
        call_rest_span(ts, next, end, value, q);
        lemma_suffix(ts, us, d, n, expr, p, suffix);
        lemma_call_rest(ts, us, d, n, next, end, value, q);
        call_rest_made(
            us,
            moved_expr(expr, n),
            p + d,
            moved_suffix(suffix, d, n),
            moved_expr(value, n),
            q + d,
        );
    }
}

proof fn lemma_primary(
    ts: Seq<TokenView>,
    us: Seq<TokenView>,
    d: int,
    n: int,
    p: int,
    value: ExprView,
    q: int,
)
    requires
        stand_among(ts, us, d, n),
        primary_at(ts, p, value, q),
        q < ts.len() - 1,
    ensures
        primary_at(us, p + d, moved_expr(value, n), q + d),
    decreases ts.len() - p, 9int,
{
    primary_cases(ts, p, value, q);
    lemma_token(ts, us, d, n, p);
    lemma_token(ts, us, d, n, q - 1);
    lemma_moved_expr(value, n);
    let there = moved_expr(value, n);
    match ts[p].kind {
        TokenKindView::LeftParen => {
            primary_grouping(ts, p, value, q);
            let expr = *value->Grouping_expr;
            lemma_level(ts, us, d, n, 0, p + 1, expr, q - 1);
            primary_grouping(us, p + d, there, q + d);
        },
        TokenKindView::LeftBracket => {
            primary_array(ts, p, value, q);
            let elements = value->Array_elements;
            lemma_exprs(ts, us, d, n, TokenKindView::RightBracket, p + 1, elements, q - 1);
            primary_array(us, p + d, there, q + d);
        },
        TokenKindView::LeftBrace => {
            primary_map(ts, p, value, q);
            lemma_entries(ts, us, d, n, p + 1, value->MapLiteral_entries, q - 1);
            primary_map(us, p + d, there, q + d);
        },
        TokenKindView::Fn => {
            let r = primary_function_parts(ts, p, value, q);
            let (params, body) = (value->Function_params, value->Function_body);
            signature_bounds(ts, p + 1, params, r);
            block_bounds(ts, r, body, ts[q - 1].span, q);
            lemma_signature(ts, us, d, n, p + 1, params, r);
            lemma_block(ts, us, d, n, r, body, q);
            primary_function_made(us, p + d, params, r + d, moved_stmts(body, n), q + d);
        },
        _ => {
            primary_token(ts, p, value, q);
            primary_token(us, p + d, there, q + d);
        },
    }
}

proof fn lemma_exprs(
    ts: Seq<TokenView>,
    us: Seq<TokenView>,
    d: int,
    n: int,
    close: TokenKindView,
    p: int,
    values: Seq<ExprView>,
    q: int,
)
    requires
        stand_among(ts, us, d, n),
        exprs_at(ts, close, p, values, q),
        q < ts.len() - 1,
    ensures
        exprs_at(us, close, p + d, moved_exprs(values, n), q + d),
    decreases ts.len() - p, 23int,
{
    exprs_behind(ts, close, p, values, q);
    lemma_token(ts, us, d, n, p - 1);
    lemma_token(ts, us, d, n, p);
    exprs_cases(ts, close, p, values, q);
    exprs_cases(us, close, p + d, moved_exprs(values, n), q + d);
    if kind_at(ts, p) == close {
        lemma_front_expr(arbitrary(), Seq::empty(), n);
    } else {
        lemma_expr_list(ts, us, d, n, p, values, q);
    }
}

proof fn lemma_expr_list(
    ts: Seq<TokenView>,
    us: Seq<TokenView>,
    d: int,
    n: int,
    p: int,
    values: Seq<ExprView>,
    q: int,
)
    requires
        stand_among(ts, us, d, n),
        expr_list_at(ts, p, values, q),
        q < ts.len() - 1,
    ensures
        expr_list_at(us, p + d, moved_exprs(values, n), q + d),
    decreases ts.len() - p, 22int,
{
    expr_list_behind(ts, p, values, q);
    let (expr, r, more) = expr_list_parts(ts, p, values, q);
    level_span(ts, 0, p, expr, r);
    lemma_token(ts, us, d, n, p - 1);
    lemma_token(ts, us, d, n, r);
    match more {
        None => {
            lemma_level(ts, us, d, n, 0, p, expr, r);
            lemma_front_expr(expr, Seq::empty(), n);
            expr_list_one(us, p + d, moved_expr(expr, n), r + d);
        },
        Some(rest) => {
            expr_list_behind(ts, r + 1, rest, q);
            lemma_level(ts, us, d, n, 0, p, expr, r);
            lemma_expr_list(ts, us, d, n, r + 1, rest, q);
            lemma_front_expr(expr, rest, n);
            expr_list_more(
                us,
                p + d,
                moved_expr(expr, n),
                r + d,
                moved_exprs(rest, n),
                q + d,
            );
        },
    }
}

proof fn lemma_entries(
    ts: Seq<TokenView>,
    us: Seq<TokenView>,
    d: int,
    n: int,
    p: int,
    values: Seq<(ExprView, ExprView)>,
    q: int,
)
    requires
        stand_among(ts, us, d, n),
        entries_at(ts, p, values, q),
        q < ts.len() - 1,
    ensures
        entries_at(us, p + d, moved_entries(values, n), q + d),
    decreases ts.len() - p, 23int,
{
    entries_behind(ts, p, values, q);
    lemma_token(ts, us, d, n, p - 1);
    lemma_token(ts, us, d, n, p);
    entries_cases(ts, p, values, q);
    entries_cases(us, p + d, moved_entries(values, n), q + d);
    if kind_at(ts, p) is RightBrace {
        lemma_front_entry(arbitrary(), Seq::empty(), n);
    } else {
        lemma_entry_list(ts, us, d, n, p, values, q);
    }
}

proof fn lemma_entry_list(
    ts: Seq<TokenView>,
    us: Seq<TokenView>,
    d: int,
    n: int,
    p: int,
    values: Seq<(ExprView, ExprView)>,
    q: int,
)
    requires
        stand_among(ts, us, d, n),
        entry_list_at(ts, p, values, q),
        q < ts.len() - 1,
    ensures
        entry_list_at(us, p + d, moved_entries(values, n), q + d),
    decreases ts.len() - p, 22int,
{
    entries_behind(ts, p, values, q);
    let parts = entry_list_parts(ts, p, values, q);
    let EntryParts { key, r, value, s, rest } = parts;
    level_span(ts, 0, p, key, r);
    level_span(ts, 0, r + 1, value, s);
    lemma_token(ts, us, d, n, p - 1);
    lemma_token(ts, us, d, n, r);
    lemma_token(ts, us, d, n, s);
    if let Some(more) = rest {
        entries_behind(ts, s + 1, more, q);
        lemma_entry_list(ts, us, d, n, s + 1, more, q);
        lemma_front_entry((key, value), more, n);
    } else {
        lemma_front_entry((key, value), Seq::empty(), n);
    }
    lemma_level(ts, us, d, n, 0, p, key, r);
    lemma_level(ts, us, d, n, 0, r + 1, value, s);
    let moved = EntryParts {
        key: moved_expr(key, n),
        r: r + d,
        value: moved_expr(value, n),
        s: s + d,
        rest: match rest {
            Some(more) => Some(moved_entries(more, n)),
            None => None,
        },
    };
    entry_list_made(us, p + d, moved, q + d);
}

proof fn lemma_params(
    ts: Seq<TokenView>,
    us: Seq<TokenView>,
    d: int,
    n: int,
    p: int,
    params: Seq<Seq<char>>,
    q: int,
)
    requires
        stand_among(ts, us, d, n),
        params_at(ts, p, params, q),
        q < ts.len() - 1,
    ensures
        params_at(us, p + d, params, q + d),
    decreases ts.len() - p,
{
    params_behind(ts, p, params, q);
    let (name, rest) = params_parts(ts, p, params, q);
    lemma_token(ts, us, d, n, p - 1);
    lemma_token(ts, us, d, n, p);
    lemma_token(ts, us, d, n, p + 1);
    if let Some(more) = rest {
        params_behind(ts, p + 2, more, q);
        lemma_params(ts, us, d, n, p + 2, more, q);
    }
    params_made(us, p + d, name, rest, q + d);
}

proof fn lemma_signature(
    ts: Seq<TokenView>,
    us: Seq<TokenView>,
    d: int,
    n: int,
    p: int,
    params: Seq<Seq<char>>,
    q: int,
)
    requires
        stand_among(ts, us, d, n),
        signature_at(ts, p, params, q),
    ensures
        signature_at(us, p + d, params, q + d),
{
    signature_bounds(ts, p, params, q);
    signature_cases(ts, p, params, q);
    lemma_token(ts, us, d, n, p);
    lemma_token(ts, us, d, n, p + 1);
    lemma_token(ts, us, d, n, q - 1);
    if !(kind_at(ts, p + 1) is RightParen) {
        params_behind(ts, p + 1, params, q - 1);
        lemma_params(ts, us, d, n, p + 1, params, q - 1);
    }
    signature_cases(us, p + d, params, q + d);
}

// ---------------------------------------------------------------------------
// Statements
// ---------------------------------------------------------------------------

proof fn lemma_block(
    ts: Seq<TokenView>,
    us: Seq<TokenView>,
    d: int,
    n: int,
    p: int,
    body: Seq<StmtView>,
    q: int,
)
    requires
        stand_among(ts, us, d, n),
        block_at(ts, p, body, ts[q - 1].span, q),
    ensures
        block_at(us, p + d, moved_stmts(body, n), us[q - 1 + d].span, q + d),
        q < ts.len(),
        us[q - 1 + d].span == moved_span(ts[q - 1].span, n),
    decreases ts.len() - p, 29int,
{
    let end = ts[q - 1].span;
    block_bounds(ts, p, body, end, q);
    block_cases(ts, p, body, end, q);
    lemma_token(ts, us, d, n, p);
    lemma_token(ts, us, d, n, q - 1);
    lemma_stmts(ts, us, d, n, p + 1, body, q - 1);
    block_cases(us, p + d, moved_stmts(body, n), us[q - 1 + d].span, q + d);
}

proof fn lemma_stmts(
    ts: Seq<TokenView>,
    us: Seq<TokenView>,
    d: int,
    n: int,
    p: int,
    body: Seq<StmtView>,
    q: int,
)
    requires
        stand_among(ts, us, d, n),
        stmts_at(ts, p, body, q),
        q < ts.len() - 1,
    ensures
        stmts_at(us, p + d, moved_stmts(body, n), q + d),
    decreases ts.len() - p, 31int,
{
    lemma_token(ts, us, d, n, p);
    match stmts_parts(ts, p, body, q) {
        None => {
            lemma_front_stmt(arbitrary(), Seq::empty(), n);
            stmts_none(us, p + d);
        },
        Some((stmt, r, rest)) => {
            stmt_spans(ts, p, stmt, r);
            lemma_stmt(ts, us, d, n, p, stmt, r);
            lemma_stmts(ts, us, d, n, r, rest, q);
            lemma_front_stmt(stmt, rest, n);
            stmts_made(us, p + d, moved_stmt(stmt, n), r + d, moved_stmts(rest, n), q + d);
        },
    }
}

proof fn lemma_stmt(
    ts: Seq<TokenView>,
    us: Seq<TokenView>,
    d: int,
    n: int,
    p: int,
    stmt: StmtView,
    q: int,
)
    requires
        stand_among(ts, us, d, n),
        stmt_at(ts, p, stmt, q),
    ensures
        stmt_at(us, p + d, moved_stmt(stmt, n), q + d),
        q < ts.len(),
    decreases ts.len() - p, 30int,
{
    stmt_spans(ts, p, stmt, q);
    lemma_token(ts, us, d, n, p);
    lemma_token(ts, us, d, n, q - 1);
    stmt_cases(ts, p, stmt, q);
    let there = moved_stmt(stmt, n);
    match ts[p].kind {
        TokenKindView::Let => lemma_let(ts, us, d, n, p + 1, false, stmt, q),
        TokenKindView::If => lemma_if(ts, us, d, n, p + 1, stmt, q),
        TokenKindView::While => lemma_while(ts, us, d, n, p + 1, stmt, q),
        TokenKindView::Return => lemma_return(ts, us, d, n, p + 1, stmt, q),
        TokenKindView::LeftBrace => {
            lemma_block(ts, us, d, n, p, stmt->Block_statements, q);
            lemma_moved_stmt(stmt, n);
        },
        _ => lemma_assignment_stmt(ts, us, d, n, p, stmt, q),
    }
    stmt_cases(us, p + d, there, q + d);
}

proof fn lemma_let(
    ts: Seq<TokenView>,
    us: Seq<TokenView>,
    d: int,
    n: int,
    p: int,
    exported: bool,
    stmt: StmtView,
    q: int,
)
    requires
        stand_among(ts, us, d, n),
        let_at(ts, p, exported, stmt, q),
        0 < p <= ts.len() - 1,
        ts[p - 1].kind is Let,
    ensures
        let_at(us, p + d, exported, moved_stmt(stmt, n), q + d),
        p < q < ts.len(),
    decreases ts.len() - p, 28int,
{
    let_cases(ts, p, exported, stmt, q);
    let initializer = stmt->Let_initializer;
    level_span(ts, 0, p + 2, initializer, q - 1);
    lemma_token(ts, us, d, n, p - 1);
    lemma_token(ts, us, d, n, p);
    lemma_token(ts, us, d, n, p + 1);
    lemma_token(ts, us, d, n, q - 1);
    lemma_level(ts, us, d, n, 0, p + 2, initializer, q - 1);
    lemma_moved_stmt(stmt, n);
    let_cases(us, p + d, exported, moved_stmt(stmt, n), q + d);
}

proof fn lemma_return(
    ts: Seq<TokenView>,
    us: Seq<TokenView>,
    d: int,
    n: int,
    p: int,
    stmt: StmtView,
    q: int,
)
    requires
        stand_among(ts, us, d, n),
        return_at(ts, p, stmt, q),
        0 < p <= ts.len() - 1,
        ts[p - 1].kind is Return,
    ensures
        return_at(us, p + d, moved_stmt(stmt, n), q + d),
    decreases ts.len() - p, 28int,
{
    return_cases(ts, p, stmt, q);
    let value = stmt->Return_value;
    level_span(ts, 0, p, value, q - 1);
    lemma_token(ts, us, d, n, p - 1);
    lemma_token(ts, us, d, n, q - 1);
    lemma_level(ts, us, d, n, 0, p, value, q - 1);
    lemma_moved_stmt(stmt, n);
    return_cases(us, p + d, moved_stmt(stmt, n), q + d);
}

proof fn lemma_condition(
    ts: Seq<TokenView>,
    us: Seq<TokenView>,
    d: int,
    n: int,
    p: int,
    value: ExprView,
    q: int,
)
    requires
        stand_among(ts, us, d, n),
        condition_at(ts, p, value, q),
        0 <= p <= ts.len(),
    ensures
        condition_at(us, p + d, moved_expr(value, n), q + d),
        p < q < ts.len(),
    decreases ts.len() - p, 28int,
{
    condition_cases(ts, p, value, q);
    level_span(ts, 0, p + 1, value, q - 1);
    lemma_token(ts, us, d, n, p);
    lemma_token(ts, us, d, n, q - 1);
    lemma_level(ts, us, d, n, 0, p + 1, value, q - 1);
    condition_cases(us, p + d, moved_expr(value, n), q + d);
}

proof fn lemma_while(
    ts: Seq<TokenView>,
    us: Seq<TokenView>,
    d: int,
    n: int,
    p: int,
    stmt: StmtView,
    q: int,
)
    requires
        stand_among(ts, us, d, n),
        while_at(ts, p, stmt, q),
        0 < p <= ts.len() - 1,
    ensures
        while_at(us, p + d, moved_stmt(stmt, n), q + d),
    decreases ts.len() - p, 29int,
{
    let r = while_parts(ts, p, stmt, q);
    let (condition, body) = (stmt->While_condition, stmt->While_body);
    lemma_condition(ts, us, d, n, p, condition, r);
    lemma_block(ts, us, d, n, r, body, q);
    lemma_token(ts, us, d, n, p - 1);
    lemma_moved_stmt(stmt, n);
    while_made(us, p + d, moved_expr(condition, n), r + d, moved_stmts(body, n), q + d);
}

proof fn lemma_if(
    ts: Seq<TokenView>,
    us: Seq<TokenView>,
    d: int,
    n: int,
    p: int,
    stmt: StmtView,
    q: int,
)
    requires
        stand_among(ts, us, d, n),
        if_at(ts, p, stmt, q),
        0 < p <= ts.len() - 1,
    ensures
        if_at(us, p + d, moved_stmt(stmt, n), q + d),
    decreases ts.len() - p, 29int,
{
    let (r, s) = if_parts(ts, p, stmt, q);
    let condition = stmt->If_condition;
    let (then_branch, else_branch) = (stmt->If_then_branch, stmt->If_else_branch);
    lemma_condition(ts, us, d, n, p, condition, r);
    lemma_block(ts, us, d, n, r, then_branch, s);
    lemma_token(ts, us, d, n, p - 1);
    lemma_token(ts, us, d, n, s);
    lemma_no_else(ts, us, d, n);
    if kind_at(ts, s) is Else {
        lemma_block(ts, us, d, n, s + 1, else_branch, q);
    } else {
        lemma_front_stmt(arbitrary(), Seq::empty(), n);
        lemma_token(ts, us, d, n, q - 1);
    }
    lemma_moved_stmt(stmt, n);
    if_made(
        us,
        p + d,
        moved_expr(condition, n),
        r + d,
        moved_stmts(then_branch, n),
        s + d,
        moved_stmts(else_branch, n),
        q + d,
    );
}

proof fn lemma_assignment(target: ExprView, value: ExprView, end: SourceSpan, n: int)
    ensures
        assignment(target, value, end) matches Ok(stmt) ==> assignment(
            moved_expr(target, n),
            moved_expr(value, n),
            moved_span(end, n),
        ) == Ok::<StmtView, CompileErrorView>(moved_stmt(stmt, n)),
{
    lemma_moved_expr(target, n);
    if let Ok(stmt) = assignment(target, value, end) {
        lemma_moved_stmt(stmt, n);
    }
}

proof fn lemma_assignment_stmt(
    ts: Seq<TokenView>,
    us: Seq<TokenView>,
    d: int,
    n: int,
    p: int,
    stmt: StmtView,
    q: int,
)
    requires
        stand_among(ts, us, d, n),
        assignment_at(ts, p, stmt, q),
        0 <= p < ts.len() - 1,
    ensures
        assignment_at(us, p + d, moved_stmt(stmt, n), q + d),
    decreases ts.len() - p, 28int,
{
    lemma_token(ts, us, d, n, p);
    let (target, r, value) = assignment_parts(ts, p, stmt, q);
    level_span(ts, 0, p, target, r);
    lemma_token(ts, us, d, n, q - 1);
    lemma_moved_span(target, n);
    if kind_at(ts, r) is Equal {
        level_span(ts, 0, r + 1, value, q - 1);
        lemma_level(ts, us, d, n, 0, r + 1, value, q - 1);
        lemma_assignment(target, value, ts[q - 1].span, n);
    } else {
        lemma_moved_stmt(stmt, n);
    }
    lemma_token(ts, us, d, n, r);
    lemma_level(ts, us, d, n, 0, p, target, r);
    assignment_made(
        us,
        p + d,
        moved_expr(target, n),
        r + d,
        moved_expr(value, n),
        moved_stmt(stmt, n),
        q + d,
    );
}

// ---------------------------------------------------------------------------
// Programs
// ---------------------------------------------------------------------------

proof fn lemma_module_name(
    ts: Seq<TokenView>,
    us: Seq<TokenView>,
    d: int,
    n: int,
    name: Seq<char>,
    p: int,
    module: Seq<char>,
    q: int,
)
    requires
        stand_among(ts, us, d, n),
        module_name_at(ts, name, p, module, q),
        q < ts.len() - 1,
    ensures
        module_name_at(us, name, p + d, module, q + d),
    decreases ts.len() - p,
{
    let parts = module_name_parts(ts, name, p, module, q);
    lemma_token(ts, us, d, n, p);
    match parts {
        None => module_name_none(us, name, p + d),
        Some(part) => {
            let longer = name + "."@ + part;
            lemma_token(ts, us, d, n, p + 1);
            lemma_module_name(ts, us, d, n, longer, p + 2, module, q);
            module_name_made(us, name, p + d, part, module, q + d);
        },
    }
}

proof fn lemma_import(
    ts: Seq<TokenView>,
    us: Seq<TokenView>,
    d: int,
    n: int,
    p: int,
    stmt: StmtView,
    q: int,
)
    requires
        stand_among(ts, us, d, n),
        import_at(ts, p, stmt, q),
        0 < p <= ts.len() - 1,
        ts[p - 1].kind is Import,
    ensures
        import_at(us, p + d, moved_stmt(stmt, n), q + d),
        p < q < ts.len(),
{
    let name = import_parts(ts, p, stmt, q);
    let module = stmt->Import_module;
    module_name_parts(ts, name, p + 1, module, q - 1);
    lemma_token(ts, us, d, n, p - 1);
    lemma_token(ts, us, d, n, p);
    lemma_token(ts, us, d, n, q - 1);
    lemma_module_name(ts, us, d, n, name, p + 1, module, q - 1);
    lemma_moved_stmt(stmt, n);
    import_made(us, p + d, name, module, q + d);
}

proof fn lemma_function(
    ts: Seq<TokenView>,
    us: Seq<TokenView>,
    d: int,
    n: int,
    p: int,
    exported: bool,
    stmt: StmtView,
    q: int,
)
    requires
        stand_among(ts, us, d, n),
        function_at(ts, p, exported, stmt, q),
        0 < p <= ts.len() - 1,
        ts[p - 1].kind is Fn,
    ensures
        function_at(us, p + d, exported, moved_stmt(stmt, n), q + d),
        p < q < ts.len(),
{
    let r = function_parts(ts, p, exported, stmt, q);
    let (name, params, body) = (stmt->Function_name, stmt->Function_params, stmt->Function_body);
    signature_bounds(ts, p + 1, params, r);
    block_bounds(ts, r, body, ts[q - 1].span, q);
    lemma_token(ts, us, d, n, p - 1);
    lemma_token(ts, us, d, n, p);
    lemma_signature(ts, us, d, n, p + 1, params, r);
    lemma_block(ts, us, d, n, r, body, q);
    lemma_moved_stmt(stmt, n);
    function_made(us, p + d, exported, name, params, r + d, moved_stmts(body, n), q + d);
}

proof fn lemma_declaration(
    ts: Seq<TokenView>,
    us: Seq<TokenView>,
    d: int,
    n: int,
    p: int,
    stmt: StmtView,
    q: int,
)
    requires
        stand_among(ts, us, d, n),
        declaration_at(ts, p, stmt, q),
        0 <= p < ts.len() - 1,
    ensures
        declaration_at(us, p + d, moved_stmt(stmt, n), q + d),
        p < q < ts.len(),
{
    lemma_token(ts, us, d, n, p);
    lemma_token(ts, us, d, n, p + 1);
    declaration_cases(ts, p, stmt, q);
    match ts[p].kind {
        TokenKindView::Export => {
            if is_at(ts, p + 1, TokenKindView::Fn) {
                lemma_function(ts, us, d, n, p + 2, true, stmt, q);
            } else {
                lemma_let(ts, us, d, n, p + 2, true, stmt, q);
            }
        },
        TokenKindView::Fn => lemma_function(ts, us, d, n, p + 1, false, stmt, q),
        TokenKindView::Import => lemma_import(ts, us, d, n, p + 1, stmt, q),
        _ => {
            stmt_spans(ts, p, stmt, q);
            lemma_stmt(ts, us, d, n, p, stmt, q);
        },
    }
    declaration_cases(us, p + d, moved_stmt(stmt, n), q + d);
}

proof fn lemma_program(
    ts: Seq<TokenView>,
    us: Seq<TokenView>,
    d: int,
    n: int,
    p: int,
    stmts: Seq<StmtView>,
    behind: Seq<StmtView>,
)
    requires
        stand_among(ts, us, d, n),
        program_at(ts, p, stmts),
        0 <= p < ts.len(),
        program_at(us, ts.len() - 1 + d, behind),
    ensures
        program_at(us, p + d, moved_stmts(stmts, n) + behind),
    decreases ts.len() - p,
{
    lemma_token(ts, us, d, n, p);
    lemma_no_else(ts, us, d, n);
    if p == ts.len() - 1 {
        program_none(ts, p, stmts);
        lemma_front_stmt(arbitrary(), Seq::empty(), n);
        assert(Seq::empty() + behind =~= behind);
    } else {
        let (stmt, q, rest) = program_parts(ts, p, stmts);
        lemma_declaration(ts, us, d, n, p, stmt, q);
        lemma_program(ts, us, d, n, q, rest, behind);
        lemma_front_stmt(stmt, rest, n);
        let first = moved_stmt(stmt, n);
        program_made(us, p + d, first, q + d, moved_stmts(rest, n) + behind);
        assert(seq![first] + (moved_stmts(rest, n) + behind) =~= (seq![first] + moved_stmts(
            rest,
            n,
        )) + behind);
    }
}

/// A program does not begin with `else`.
proof fn lemma_begins_without_else(ts: Seq<TokenView>)
    requires
        0 < ts.len(),
        ts[0].kind is Else,
    ensures
        parse_program(ts, 0) is Err,
{
    assert(parse_primary(ts, 0) is Err);
    assert(parse_call(ts, 0) is Err);
    assert(parse_binary(ts, 4, 0) is Err);
    assert(parse_binary(ts, 3, 0) is Err);
    assert(parse_binary(ts, 2, 0) is Err);
    assert(parse_binary(ts, 1, 0) is Err);
    assert(parse_binary(ts, 0, 0) is Err);
    assert(parse_expr(ts, 0) is Err);
    assert(parse_assignment_or_expr(ts, 0) is Err);
    assert(parse_stmt(ts, 0) == parse_assignment_or_expr(ts, 0));
    assert(parse_declaration(ts, 0) == parse_stmt(ts, 0));
}

proof fn lemma_shorter(a: Seq<char>, b: Seq<char>)
    ensures
        encode_utf8(a).len() <= encode_utf8(two_texts(a, b)).len(),
        encode_utf8(b).len() <= encode_utf8(two_texts(a, b)).len(),
{
    lemma_encode_joined(a + seq!['\n'], b);
    lemma_encode_joined(a, seq!['\n']);
}

proof fn lemma_two_programs(
    ta: Seq<TokenView>,
    tb: Seq<TokenView>,
    n: int,
    first: Seq<StmtView>,
    second: Seq<StmtView>,
)
    requires
        stand_among(ta, ta.drop_last() + moved_tokens(tb, n), 0, 0),
        stand_among(tb, ta.drop_last() + moved_tokens(tb, n), ta.len() - 1, n),
        at_end(ta.drop_last() + moved_tokens(tb, n), ta.len() - 1 + tb.len() - 1),
        program_at(ta, 0, first),
        program_at(tb, 0, second),
        0 < ta.len(),
        0 < tb.len(),
    ensures
        program_at(
            ta.drop_last() + moved_tokens(tb, n),
            0,
            first + moved_stmts(second, n),
        ),
{
    let us = ta.drop_last() + moved_tokens(tb, n);
    let d = ta.len() - 1;
    program_none(us, tb.len() - 1 + d, Seq::empty());
    lemma_program(tb, us, d, n, 0, second, Seq::empty());
    let moved = moved_stmts(second, n);
    assert(moved + Seq::empty() =~= moved);
    lemma_program(ta, us, 0, 0, 0, first, moved);
    lemma_stmts_stay(first);
}

/// Two source texts with a line break between them parse to the statements of the first and,
/// moved on, those of the second.
pub proof fn two_texts_parse_apart(a: Seq<char>, b: Seq<char>, file_id: FileId)
    requires
        encode_utf8(two_texts(a, b)).len() <= usize::MAX,
        source_tree(a, file_id) is Ok,
        source_tree(b, file_id) is Ok,
    ensures
        source_tree(two_texts(a, b), file_id) == Ok::<Seq<StmtView>, CompileErrorView>(
            source_tree(a, file_id)->Ok_0 + moved_stmts(
                source_tree(b, file_id)->Ok_0,
                second_offset(a),
            ),
        ),
{
    let n = second_offset(a);
    let ta = tokens_from(a, 0, file_id)->Ok_0;
    let tb = tokens_from(b, 0, file_id)->Ok_0;
    let first = source_tree(a, file_id)->Ok_0;
    let second = source_tree(b, file_id)->Ok_0;
    tokens_of_two_texts(a, b, file_id);
    lemma_shorter(a, b);
    tokens_end_with_one_eof(a, file_id);
    tokens_end_with_one_eof(b, file_id);
    let us = ta.drop_last() + moved_tokens(tb, n);
    let d = ta.len() - 1;
    program_found(ta, first);
    program_found(tb, second);
    if tb[0].kind is Else {
        lemma_begins_without_else(tb);
    }
    assert(us[d] == moved_token(tb[0], n));
    assert(us[tb.len() - 1 + d] == moved_token(tb.last(), n));
    assert(stand_among(ta, us, 0, 0)) by {
        reveal(stand_among);
        assert forall|k: int| 0 <= k < ta.len() - 1 implies us[k + 0] == moved_token(
            #[trigger] ta[k],
            0,
        ) by {
            lemma_span_stays(ta[k].span);
        }
    }
    assert(stand_among(tb, us, d, n)) by {
        reveal(stand_among);
        assert forall|k: int| 0 <= k < tb.len() - 1 implies us[k + d] == moved_token(
            #[trigger] tb[k],
            n,
        ) by {}
    }
    lemma_two_programs(ta, tb, n, first, second);
    program_found(us, first + moved_stmts(second, n));
}

} // verus!
