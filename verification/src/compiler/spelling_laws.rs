//! A syntax tree says what its tokens say: written out again, it is the characters of the tokens
//! that it was read from.

use vstd::prelude::*;
use vstd::utf8::encode_utf8;

use crate::compiler::ast::{BinaryOp, ExprView, LiteralView, StmtView};
use crate::compiler::codegen::source_tree;
use crate::compiler::derivation::{
    assignment_at, assignment_parts, block_at, block_bounds, block_cases, call_parts,
    call_rest_at, call_rest_parts, call_rest_span, condition_cases, declaration_at,
    declaration_cases, entries_at, entries_behind, entries_cases, entry_list_at, entry_list_parts,
    expr_list_at, expr_list_behind, expr_list_parts, exprs_at, exprs_behind, exprs_cases,
    function_at, function_parts, if_at, if_parts, import_parts, is_at, let_at, let_cases, level_at,
    level_parts, level_span, module_name_at, module_name_parts, params_at, params_parts,
    primary_array, primary_at, primary_cases, primary_function_parts, primary_grouping,
    primary_map, primary_span, primary_token, program_at, program_found, program_none,
    program_parts, rest_at, rest_parts, rest_span, return_cases, signature_at, signature_bounds,
    signature_cases, stmt_at, stmt_cases, stmt_spans, stmts_at, stmts_parts, suffix_end, suffixed,
    while_at, while_parts, EntryParts, Operand, Suffix,
};
use crate::compiler::lexer::{tokens_end_with_one_eof, tokens_from, TokenKindView, TokenView};
use crate::compiler::parser::{at_end, binary_expr, kind_at};
use crate::diagnostics::span::{FileId, SourceSpan};
use crate::text::signed_decimal;

verus! {

// ---------------------------------------------------------------------------
// Tokens and trees in writing
// ---------------------------------------------------------------------------

/// The characters of a keyword and what keeps it apart from a name behind it.
pub open spec fn keyword(word: Seq<char>) -> Seq<char> {
    word + " "@
}

/// The characters of a string literal, without escapes.
pub open spec fn between_quotes(value: Seq<char>) -> Seq<char> {
    "\""@ + value + "\""@
}

/// The characters of a keyword or a sign.
pub open spec fn fixed_word(kind: TokenKindView) -> Option<Seq<char>> {
    match kind {
        TokenKindView::Let => Some("let"@),
        TokenKindView::Fn => Some("fn"@),
        TokenKindView::Export => Some("export"@),
        TokenKindView::Import => Some("import"@),
        TokenKindView::If => Some("if"@),
        TokenKindView::Else => Some("else"@),
        TokenKindView::While => Some("while"@),
        TokenKindView::Return => Some("return"@),
        TokenKindView::Throw => Some("throw"@),
        TokenKindView::Try => Some("try"@),
        TokenKindView::Catch => Some("catch"@),
        TokenKindView::True => Some("true"@),
        TokenKindView::False => Some("false"@),
        TokenKindView::Nil => Some("nil"@),
        TokenKindView::Plus => Some("+"@),
        TokenKindView::Minus => Some("-"@),
        TokenKindView::Star => Some("*"@),
        TokenKindView::Slash => Some("/"@),
        TokenKindView::Equal => Some("="@),
        TokenKindView::EqualEqual => Some("=="@),
        TokenKindView::BangEqual => Some("!="@),
        TokenKindView::Less => Some("<"@),
        TokenKindView::LessEqual => Some("<="@),
        TokenKindView::Greater => Some(">"@),
        TokenKindView::GreaterEqual => Some(">="@),
        TokenKindView::LeftParen => Some("("@),
        TokenKindView::RightParen => Some(")"@),
        TokenKindView::LeftBrace => Some("{"@),
        TokenKindView::RightBrace => Some("}"@),
        TokenKindView::LeftBracket => Some("["@),
        TokenKindView::RightBracket => Some("]"@),
        TokenKindView::Colon => Some(":"@),
        TokenKindView::Dot => Some("."@),
        TokenKindView::Comma => Some(","@),
        TokenKindView::Semicolon => Some(";"@),
        _ => None,
    }
}

/// Whether a token is a keyword.
pub open spec fn is_keyword(kind: TokenKindView) -> bool {
    match kind {
        TokenKindView::Let => true,
        TokenKindView::Fn => true,
        TokenKindView::Export => true,
        TokenKindView::Import => true,
        TokenKindView::If => true,
        TokenKindView::Else => true,
        TokenKindView::While => true,
        TokenKindView::Return => true,
        TokenKindView::Throw => true,
        TokenKindView::Try => true,
        TokenKindView::Catch => true,
        TokenKindView::True => true,
        TokenKindView::False => true,
        TokenKindView::Nil => true,
        _ => false,
    }
}

/// A token in writing.
pub open spec fn written(kind: TokenKindView) -> Seq<char> {
    match kind {
        TokenKindView::Identifier(name) => name,
        TokenKindView::Integer(value) => signed_decimal(value as int),
        TokenKindView::Text(value) => between_quotes(value),
        TokenKindView::Eof => Seq::empty(),
        _ => if is_keyword(kind) {
            keyword(fixed_word(kind)->0)
        } else {
            fixed_word(kind)->0
        },
    }
}

/// The tokens from `p` to `q` in writing.
#[verifier::opaque]
pub open spec fn tokens_written(ts: Seq<TokenView>, p: int, q: int) -> Seq<char>
    decreases q - p,
{
    if p < q {
        tokens_written(ts, p, q - 1) + written(ts[q - 1].kind)
    } else {
        Seq::empty()
    }
}

/// The characters of an operator.
pub open spec fn sign(op: BinaryOp) -> Seq<char> {
    match op {
        BinaryOp::Add => "+"@,
        BinaryOp::Sub => "-"@,
        BinaryOp::Mul => "*"@,
        BinaryOp::Div => "/"@,
        BinaryOp::Equal => "=="@,
        BinaryOp::NotEqual => "!="@,
        BinaryOp::Less => "<"@,
        BinaryOp::LessEqual => "<="@,
        BinaryOp::Greater => ">"@,
        BinaryOp::GreaterEqual => ">="@,
    }
}

/// A literal in writing.
pub open spec fn literal_written(value: LiteralView) -> Seq<char> {
    match value {
        LiteralView::Int(value) => signed_decimal(value as int),
        LiteralView::Bool(value) => if value {
            keyword("true"@)
        } else {
            keyword("false"@)
        },
        LiteralView::Nil => keyword("nil"@),
        LiteralView::Text(value) => between_quotes(value),
    }
}

/// Names from `i` on in writing, with commas between them.
pub open spec fn names_written(names: Seq<Seq<char>>, i: int) -> Seq<char>
    decreases names.len() - i,
{
    if i + 1 < names.len() {
        names[i] + ","@ + names_written(names, i + 1)
    } else if i < names.len() {
        names[i]
    } else {
        Seq::empty()
    }
}

/// An expression in writing.
pub open spec fn expr_written(expr: ExprView) -> Seq<char>
    decreases expr, 0int,
{
    match expr {
        ExprView::Literal { value, .. } => literal_written(value),
        ExprView::Variable { name, .. } => name,
        ExprView::Binary { op, lhs, rhs, .. } => expr_written(*lhs) + sign(op) + expr_written(*rhs),
        ExprView::Call { callee, args, .. } => callee + "("@ + list_written(args, 0) + ")"@,
        ExprView::Function { params, body, .. } => keyword("fn"@) + "("@ + names_written(params, 0)
            + ")"@ + "{"@ + stmts_written(body, 0) + "}"@,
        ExprView::Index { target, index, .. } => expr_written(*target) + "["@ + expr_written(*index)
            + "]"@,
        ExprView::Array { elements, .. } => "["@ + list_written(elements, 0) + "]"@,
        ExprView::MapLiteral { entries, .. } => "{"@ + entries_written(entries, 0) + "}"@,
        ExprView::Grouping { expr, .. } => "("@ + expr_written(*expr) + ")"@,
    }
}

/// Expressions from `i` on in writing, with commas between them.
pub open spec fn list_written(exprs: Seq<ExprView>, i: int) -> Seq<char>
    decreases exprs, exprs.len() - i,
{
    if 0 <= i && i + 1 < exprs.len() {
        expr_written(exprs[i]) + ","@ + list_written(exprs, i + 1)
    } else if 0 <= i < exprs.len() {
        expr_written(exprs[i])
    } else {
        Seq::empty()
    }
}

/// Key/value pairs from `i` on in writing, with commas between them.
pub open spec fn entries_written(entries: Seq<(ExprView, ExprView)>, i: int) -> Seq<char>
    decreases entries, entries.len() - i,
{
    if 0 <= i && i + 1 < entries.len() {
        expr_written(entries[i].0) + ":"@ + expr_written(entries[i].1) + ","@ + entries_written(
            entries,
            i + 1,
        )
    } else if 0 <= i < entries.len() {
        expr_written(entries[i].0) + ":"@ + expr_written(entries[i].1)
    } else {
        Seq::empty()
    }
}

/// A statement in writing; a conditional whose second branch is empty has none in writing.
pub open spec fn stmt_written(stmt: StmtView) -> Seq<char>
    decreases stmt, 0int,
{
    match stmt {
        StmtView::Import { module, .. } => keyword("import"@) + module + ";"@,
        StmtView::Let { name, initializer, exported, .. } => export_written(exported) + keyword(
            "let"@,
        ) + name + "="@ + expr_written(initializer) + ";"@,
        StmtView::Function { name, params, body, exported, .. } => export_written(exported)
            + keyword("fn"@) + name + "("@ + names_written(params, 0) + ")"@ + "{"@ + stmts_written(
            body,
            0,
        ) + "}"@,
        StmtView::Assign { name, value, .. } => name + "="@ + expr_written(value) + ";"@,
        StmtView::IndexAssign { target, index, value, .. } => expr_written(target) + "["@
            + expr_written(index) + "]"@ + "="@ + expr_written(value) + ";"@,
        StmtView::Return { value, .. } => keyword("return"@) + expr_written(value) + ";"@,
        StmtView::Expr { value, .. } => expr_written(value) + ";"@,
        StmtView::If { condition, then_branch, else_branch, .. } => {
            let first = keyword("if"@) + "("@ + expr_written(condition) + ")"@ + "{"@
                + stmts_written(then_branch, 0) + "}"@;
            if else_branch.len() == 0 {
                first
            } else {
                first + keyword("else"@) + "{"@ + stmts_written(else_branch, 0) + "}"@
            }
        },
        StmtView::While { condition, body, .. } => keyword("while"@) + "("@ + expr_written(
            condition,
        ) + ")"@ + "{"@ + stmts_written(body, 0) + "}"@,
        StmtView::Block { statements, .. } => "{"@ + stmts_written(statements, 0) + "}"@,
    }
}

/// The mark of what a module exports.
pub open spec fn export_written(exported: bool) -> Seq<char> {
    if exported {
        keyword("export"@)
    } else {
        Seq::empty()
    }
}

/// Statements from `i` on in writing.
pub open spec fn stmts_written(stmts: Seq<StmtView>, i: int) -> Seq<char>
    decreases stmts, stmts.len() - i,
{
    if 0 <= i < stmts.len() {
        stmt_written(stmts[i]) + stmts_written(stmts, i + 1)
    } else {
        Seq::empty()
    }
}

/// Whether no conditional has an empty second branch in writing.
#[verifier::opaque]
pub open spec fn no_empty_else(ts: Seq<TokenView>) -> bool {
    forall|i: int|
        0 <= i && i + 2 < ts.len() && (#[trigger] ts[i]).kind is Else && ts[i + 1].kind is LeftBrace
            ==> !(ts[i + 2].kind is RightBrace)
}

// ---------------------------------------------------------------------------
// Pieces of writing
// ---------------------------------------------------------------------------

proof fn lemma_one(ts: Seq<TokenView>, p: int, q: int)
    requires
        p <= q,
    ensures
        tokens_written(ts, p, q + 1) == tokens_written(ts, p, q) + written(ts[q].kind),
{
    reveal(tokens_written);
}

proof fn lemma_single(ts: Seq<TokenView>, p: int)
    ensures
        tokens_written(ts, p, p + 1) == written(ts[p].kind),
        tokens_written(ts, p, p) == Seq::<char>::empty(),
{
    reveal_with_fuel(tokens_written, 2);
    assert(Seq::<char>::empty() + written(ts[p].kind) =~= written(ts[p].kind));
}

proof fn lemma_joined(ts: Seq<TokenView>, p: int, r: int, q: int)
    requires
        p <= r <= q,
    ensures
        tokens_written(ts, p, q) == tokens_written(ts, p, r) + tokens_written(ts, r, q),
    decreases q - r,
{
    reveal(tokens_written);
    if r < q {
        lemma_joined(ts, p, r, q - 1);
        assert(tokens_written(ts, p, r) + (tokens_written(ts, r, q - 1) + written(ts[q - 1].kind))
            =~= (tokens_written(ts, p, r) + tokens_written(ts, r, q - 1)) + written(
            ts[q - 1].kind,
        ));
    } else {
        assert(tokens_written(ts, p, r) + Seq::<char>::empty() =~= tokens_written(ts, p, r));
    }
}

/// A piece between two tokens.
proof fn lemma_enclosed(ts: Seq<TokenView>, p: int, q: int)
    requires
        p + 1 <= q - 1,
    ensures
        tokens_written(ts, p, q) == written(ts[p].kind) + tokens_written(ts, p + 1, q - 1)
            + written(ts[q - 1].kind),
{
    lemma_one(ts, p, q - 1);
    lemma_joined(ts, p, p + 1, q - 1);
    lemma_single(ts, p);
}

proof fn lemma_assoc(a: Seq<char>, b: Seq<char>, c: Seq<char>)
    ensures
        a + (b + c) == (a + b) + c,
{
    assert(a + (b + c) =~= (a + b) + c);
}

proof fn lemma_names_behind(first: Seq<char>, rest: Seq<Seq<char>>, i: int)
    requires
        0 <= i <= rest.len(),
    ensures
        names_written(seq![first] + rest, i + 1) == names_written(rest, i),
    decreases rest.len() - i,
{
    let all = seq![first] + rest;
    if i < rest.len() {
        assert(all[i + 1] == rest[i]);
        lemma_names_behind(first, rest, i + 1);
    }
}

proof fn lemma_list_behind(first: ExprView, rest: Seq<ExprView>, i: int)
    requires
        0 <= i <= rest.len(),
    ensures
        list_written(seq![first] + rest, i + 1) == list_written(rest, i),
    decreases rest.len() - i,
{
    let all = seq![first] + rest;
    if i < rest.len() {
        assert(all[i + 1] == rest[i]);
        lemma_list_behind(first, rest, i + 1);
    }
}

proof fn lemma_entries_behind(first: (ExprView, ExprView), rest: Seq<(ExprView, ExprView)>, i: int)
    requires
        0 <= i <= rest.len(),
    ensures
        entries_written(seq![first] + rest, i + 1) == entries_written(rest, i),
    decreases rest.len() - i,
{
    let all = seq![first] + rest;
    if i < rest.len() {
        assert(all[i + 1] == rest[i]);
        lemma_entries_behind(first, rest, i + 1);
    }
}

proof fn lemma_stmts_behind(first: StmtView, rest: Seq<StmtView>, i: int)
    requires
        0 <= i <= rest.len(),
    ensures
        stmts_written(seq![first] + rest, i + 1) == stmts_written(rest, i),
    decreases rest.len() - i,
{
    let all = seq![first] + rest;
    if i < rest.len() {
        assert(all[i + 1] == rest[i]);
        lemma_stmts_behind(first, rest, i + 1);
    }
}

// ---------------------------------------------------------------------------
// Expressions
// ---------------------------------------------------------------------------

proof fn lemma_level(ts: Seq<TokenView>, level: nat, p: int, value: ExprView, q: int)
    requires
        no_empty_else(ts),
        level_at(ts, level, p, value, q),
    ensures
        expr_written(value) == tokens_written(ts, p, q),
        0 <= p < q <= ts.len(),
    decreases ts.len() - p, 20 - 2 * level,
{
    level_span(ts, level, p, value, q);
    if level < 4 {
        let (lhs, r) = level_parts(ts, level, p, value, q);
        lemma_level(ts, level + 1, p, lhs, r);
        lemma_rest(ts, level, lhs, p, r, value, q);
    } else {
        let (expr, r) = call_parts(ts, p, value, q);
        primary_span(ts, p, expr, r);
        lemma_primary(ts, p, expr, r);
        lemma_call_rest(ts, expr, p, r, value, q);
    }
}

proof fn lemma_rest(
    ts: Seq<TokenView>,
    level: nat,
    lhs: ExprView,
    first: int,
    p: int,
    value: ExprView,
    q: int,
)
    requires
        no_empty_else(ts),
        rest_at(ts, level, lhs, p, value, q),
        0 <= first < p,
        expr_written(lhs) == tokens_written(ts, first, p),
    ensures
        expr_written(value) == tokens_written(ts, first, q),
    decreases ts.len() - p, 19int,
{
    rest_span(ts, level, lhs, p, value, q);
    if let Some(Operand { op, rhs, r }) = rest_parts(ts, level, lhs, p, value, q) {
        lemma_level(ts, level + 1, p + 1, rhs, r);
        lemma_one(ts, first, p);
        lemma_joined(ts, first, p + 1, r);
        assert(sign(op) == written(ts[p].kind));
        lemma_rest(ts, level, binary_expr(lhs, op, rhs), first, r, value, q);
    }
}

proof fn lemma_call_rest(
    ts: Seq<TokenView>,
    expr: ExprView,
    first: int,
    p: int,
    value: ExprView,
    q: int,
)
    requires
        no_empty_else(ts),
        call_rest_at(ts, expr, p, value, q),
        0 <= first < p,
        expr_written(expr) == tokens_written(ts, first, p),
    ensures
        expr_written(value) == tokens_written(ts, first, q),
    decreases ts.len() - p, 10int,
{
    call_rest_span(ts, expr, p, value, q);
    let suffix = call_rest_parts(ts, expr, p, value, q);
    if !(suffix is Nothing) {
        let next = suffixed(ts, expr, p, suffix);
        let end = suffix_end(p, suffix);
        call_rest_span(ts, next, end, value, q);
        lemma_one(ts, first, p);
        match suffix {
            Suffix::Arguments { args, r } => {
                lemma_exprs(ts, TokenKindView::RightParen, p + 1, args, r);
                lemma_joined(ts, first, p + 1, r);
                lemma_one(ts, first, r);
            },
            Suffix::Index { index, r } => {
                lemma_level(ts, 0, p + 1, index, r);
                lemma_joined(ts, first, p + 1, r);
                lemma_one(ts, first, r);
            },
            _ => {
                lemma_one(ts, first, p + 1);
            },
        }
        lemma_call_rest(ts, next, first, end, value, q);
    }
}

proof fn lemma_primary(ts: Seq<TokenView>, p: int, value: ExprView, q: int)
    requires
        no_empty_else(ts),
        primary_at(ts, p, value, q),
    ensures
        expr_written(value) == tokens_written(ts, p, q),
    decreases ts.len() - p, 9int,
{
    primary_cases(ts, p, value, q);
    primary_span(ts, p, value, q);
    match ts[p].kind {
        TokenKindView::LeftParen => {
            primary_grouping(ts, p, value, q);
            lemma_level(ts, 0, p + 1, *value->Grouping_expr, q - 1);
            lemma_enclosed(ts, p, q);
        },
        TokenKindView::LeftBracket => {
            primary_array(ts, p, value, q);
            exprs_behind(ts, TokenKindView::RightBracket, p + 1, value->Array_elements, q - 1);
            lemma_exprs(ts, TokenKindView::RightBracket, p + 1, value->Array_elements, q - 1);
            lemma_enclosed(ts, p, q);
        },
        TokenKindView::LeftBrace => {
            primary_map(ts, p, value, q);
            entries_behind(ts, p + 1, value->MapLiteral_entries, q - 1);
            lemma_entries(ts, p + 1, value->MapLiteral_entries, q - 1);
            lemma_enclosed(ts, p, q);
        },
        TokenKindView::Fn => {
            let r = primary_function_parts(ts, p, value, q);
            let body = value->Function_body;
            let params = value->Function_params;
            block_bounds(ts, r, body, ts[q - 1].span, q);
            signature_bounds(ts, p + 1, params, r);
            lemma_block(ts, r, body, ts[q - 1].span, q);
            lemma_signature(ts, p + 1, params, r);
            lemma_single(ts, p);
            lemma_joined(ts, p, p + 1, r);
            lemma_joined(ts, p, r, q);
            lemma_literal_parts(params, body);
        },
        _ => {
            primary_token(ts, p, value, q);
            lemma_single(ts, p);
        },
    }
}

/// A parameter list in writing.
pub open spec fn signature_written(params: Seq<Seq<char>>) -> Seq<char> {
    "("@ + names_written(params, 0) + ")"@
}

/// A block in writing.
pub open spec fn block_written(body: Seq<StmtView>) -> Seq<char> {
    "{"@ + stmts_written(body, 0) + "}"@
}

proof fn lemma_literal_parts(params: Seq<Seq<char>>, body: Seq<StmtView>)
    ensures
        keyword("fn"@) + "("@ + names_written(params, 0) + ")"@ + "{"@ + stmts_written(body, 0)
            + "}"@ == keyword("fn"@) + signature_written(params) + block_written(body),
{
    lemma_block_parts(keyword("fn"@) + "("@ + names_written(params, 0) + ")"@, body);
    lemma_signature_parts(keyword("fn"@), params);
}

proof fn lemma_signature_parts(front: Seq<char>, params: Seq<Seq<char>>)
    ensures
        front + "("@ + names_written(params, 0) + ")"@ == front + signature_written(params),
{
    lemma_assoc(front, "("@, names_written(params, 0));
    lemma_assoc(front, "("@ + names_written(params, 0), ")"@);
}

proof fn lemma_block_parts(front: Seq<char>, body: Seq<StmtView>)
    ensures
        front + "{"@ + stmts_written(body, 0) + "}"@ == front + block_written(body),
{
    lemma_assoc(front, "{"@, stmts_written(body, 0));
    lemma_assoc(front, "{"@ + stmts_written(body, 0), "}"@);
}

proof fn lemma_signature(ts: Seq<TokenView>, p: int, params: Seq<Seq<char>>, q: int)
    requires
        signature_at(ts, p, params, q),
    ensures
        signature_written(params) == tokens_written(ts, p, q),
{
    signature_bounds(ts, p, params, q);
    signature_cases(ts, p, params, q);
    if kind_at(ts, p + 1) is RightParen {
        lemma_single(ts, p + 1);
    } else {
        params_parts(ts, p + 1, params, q - 1);
        lemma_params(ts, p + 1, params, q - 1);
    }
    lemma_enclosed(ts, p, q);
}

proof fn lemma_params(ts: Seq<TokenView>, p: int, params: Seq<Seq<char>>, q: int)
    requires
        params_at(ts, p, params, q),
    ensures
        names_written(params, 0) == tokens_written(ts, p, q),
        p <= q,
    decreases ts.len() - p,
{
    let (name, more) = params_parts(ts, p, params, q);
    lemma_single(ts, p);
    if let Some(rest) = more {
        lemma_params(ts, p + 2, rest, q);
        params_parts(ts, p + 2, rest, q);
        lemma_one(ts, p, p + 1);
        lemma_joined(ts, p, p + 2, q);
        lemma_names_behind(name, rest, 0);
        assert(params[0] == name);
    }
}

proof fn lemma_exprs(
    ts: Seq<TokenView>,
    close: TokenKindView,
    p: int,
    values: Seq<ExprView>,
    q: int,
)
    requires
        no_empty_else(ts),
        exprs_at(ts, close, p, values, q),
    ensures
        list_written(values, 0) == tokens_written(ts, p, q),
    decreases ts.len() - p, 23int,
{
    exprs_behind(ts, close, p, values, q);
    exprs_cases(ts, close, p, values, q);
    if kind_at(ts, p) != close {
        lemma_expr_list(ts, p, values, q);
    } else {
        lemma_single(ts, p);
    }
}

proof fn lemma_expr_list(ts: Seq<TokenView>, p: int, values: Seq<ExprView>, q: int)
    requires
        no_empty_else(ts),
        expr_list_at(ts, p, values, q),
    ensures
        list_written(values, 0) == tokens_written(ts, p, q),
    decreases ts.len() - p, 22int,
{
    let (expr, r, more) = expr_list_parts(ts, p, values, q);
    lemma_level(ts, 0, p, expr, r);
    if let Some(rest) = more {
        level_span(ts, 0, p, expr, r);
        expr_list_behind(ts, r + 1, rest, q);
        expr_list_parts(ts, r + 1, rest, q);
        lemma_expr_list(ts, r + 1, rest, q);
        lemma_one(ts, p, r);
        lemma_joined(ts, p, r + 1, q);
        lemma_list_behind(expr, rest, 0);
        assert(values =~= seq![expr] + rest);
        assert(values[0] == expr);
    } else {
        assert(values =~= seq![expr]);
        assert(values[0] == expr);
    }
}

proof fn lemma_entries(
    ts: Seq<TokenView>,
    p: int,
    values: Seq<(ExprView, ExprView)>,
    q: int,
)
    requires
        no_empty_else(ts),
        entries_at(ts, p, values, q),
    ensures
        entries_written(values, 0) == tokens_written(ts, p, q),
    decreases ts.len() - p, 23int,
{
    entries_behind(ts, p, values, q);
    entries_cases(ts, p, values, q);
    if !(kind_at(ts, p) is RightBrace) {
        lemma_entry_list(ts, p, values, q);
    } else {
        lemma_single(ts, p);
    }
}

proof fn lemma_entry_list(
    ts: Seq<TokenView>,
    p: int,
    values: Seq<(ExprView, ExprView)>,
    q: int,
)
    requires
        no_empty_else(ts),
        entry_list_at(ts, p, values, q),
    ensures
        entries_written(values, 0) == tokens_written(ts, p, q),
    decreases ts.len() - p, 22int,
{
    let EntryParts { key, r, value, s, rest: more } = entry_list_parts(ts, p, values, q);
    level_span(ts, 0, p, key, r);
    level_span(ts, 0, r + 1, value, s);
    lemma_level(ts, 0, p, key, r);
    lemma_level(ts, 0, r + 1, value, s);
    lemma_one(ts, p, r);
    lemma_joined(ts, p, r + 1, s);
    assert(values[0] == (key, value));
    if let Some(rest) = more {
        entries_behind(ts, s + 1, rest, q);
        entry_list_parts(ts, s + 1, rest, q);
        lemma_entry_list(ts, s + 1, rest, q);
        lemma_one(ts, p, s);
        lemma_joined(ts, p, s + 1, q);
        lemma_entries_behind((key, value), rest, 0);
    }
}

// ---------------------------------------------------------------------------
// Statements
// ---------------------------------------------------------------------------

proof fn lemma_block(
    ts: Seq<TokenView>,
    p: int,
    body: Seq<StmtView>,
    end: SourceSpan,
    q: int,
)
    requires
        no_empty_else(ts),
        block_at(ts, p, body, end, q),
    ensures
        block_written(body) == tokens_written(ts, p, q),
        0 <= p < q <= ts.len(),
    decreases ts.len() - p, 29int,
{
    block_bounds(ts, p, body, end, q);
    block_cases(ts, p, body, end, q);
    lemma_stmts(ts, p + 1, body, q - 1);
    lemma_enclosed(ts, p, q);
}

proof fn lemma_stmts(ts: Seq<TokenView>, p: int, body: Seq<StmtView>, q: int)
    requires
        no_empty_else(ts),
        stmts_at(ts, p, body, q),
    ensures
        stmts_written(body, 0) == tokens_written(ts, p, q),
        p <= q,
        body.len() == 0 ==> p == q,
    decreases ts.len() - p, 33int,
{
    if let Some((stmt, r, rest)) = stmts_parts(ts, p, body, q) {
        stmt_spans(ts, p, stmt, r);
        lemma_stmt(ts, p, stmt, r);
        stmts_parts(ts, r, rest, q);
        lemma_stmts(ts, r, rest, q);
        lemma_joined(ts, p, r, q);
        lemma_stmts_behind(stmt, rest, 0);
        assert(body[0] == stmt);
    } else {
        lemma_single(ts, p);
    }
}

proof fn lemma_stmt(ts: Seq<TokenView>, p: int, stmt: StmtView, q: int)
    requires
        no_empty_else(ts),
        stmt_at(ts, p, stmt, q),
    ensures
        stmt_written(stmt) == tokens_written(ts, p, q),
    decreases ts.len() - p, 32int,
{
    stmt_spans(ts, p, stmt, q);
    stmt_cases(ts, p, stmt, q);
    lemma_single(ts, p);
    match ts[p].kind {
        TokenKindView::Let => {
            lemma_let(ts, p + 1, false, stmt, q);
            lemma_let_mark(Seq::empty(), stmt);
            assert(Seq::<char>::empty() + let_written(stmt) =~= let_written(stmt));
        },
        TokenKindView::If => lemma_if(ts, p + 1, stmt, q),
        TokenKindView::While => lemma_while(ts, p + 1, stmt, q),
        TokenKindView::Return => {
            return_cases(ts, p + 1, stmt, q);
            lemma_level(ts, 0, p + 1, stmt->Return_value, q - 1);
            lemma_enclosed(ts, p, q);
        },
        TokenKindView::LeftBrace => {
            lemma_block(ts, p, stmt->Block_statements, ts[q - 1].span, q);
        },
        _ => lemma_assignment(ts, p, stmt, q),
    }
}

/// A binding in writing, without its mark.
pub open spec fn let_written(stmt: StmtView) -> Seq<char> {
    keyword("let"@) + stmt->Let_name + "="@ + expr_written(stmt->Let_initializer) + ";"@
}

proof fn lemma_let(ts: Seq<TokenView>, p: int, exported: bool, stmt: StmtView, q: int)
    requires
        no_empty_else(ts),
        let_at(ts, p, exported, stmt, q),
        0 < p <= ts.len(),
        ts[p - 1].kind is Let,
    ensures
        stmt is Let,
        stmt->Let_exported == exported,
        let_written(stmt) == tokens_written(ts, p - 1, q),
        p < q <= ts.len(),
        !(ts[q - 1].kind is Eof),
    decreases ts.len() - p, 28int,
{
    let_cases(ts, p, exported, stmt, q);
    lemma_level(ts, 0, p + 2, stmt->Let_initializer, q - 1);
    lemma_single(ts, p - 1);
    lemma_one(ts, p - 1, p);
    lemma_one(ts, p - 1, p + 1);
    lemma_joined(ts, p - 1, p + 2, q - 1);
    lemma_one(ts, p - 1, q - 1);
}

proof fn lemma_while(ts: Seq<TokenView>, p: int, stmt: StmtView, q: int)
    requires
        no_empty_else(ts),
        while_at(ts, p, stmt, q),
        0 < p <= ts.len(),
        ts[p - 1].kind is While,
    ensures
        stmt_written(stmt) == tokens_written(ts, p - 1, q),
    decreases ts.len() - p, 31int,
{
    let r = while_parts(ts, p, stmt, q);
    let condition = stmt->While_condition;
    let body = stmt->While_body;
    condition_cases(ts, p, condition, r);
    lemma_level(ts, 0, p + 1, condition, r - 1);
    lemma_block(ts, r, body, ts[q - 1].span, q);
    lemma_single(ts, p - 1);
    lemma_one(ts, p - 1, p);
    lemma_joined(ts, p - 1, p + 1, r - 1);
    lemma_one(ts, p - 1, r - 1);
    lemma_joined(ts, p - 1, r, q);
    lemma_block_parts(
        keyword("while"@) + "("@ + expr_written(condition) + ")"@,
        body,
    );
}

proof fn lemma_if(ts: Seq<TokenView>, p: int, stmt: StmtView, q: int)
    requires
        no_empty_else(ts),
        if_at(ts, p, stmt, q),
        0 < p <= ts.len(),
        ts[p - 1].kind is If,
    ensures
        stmt_written(stmt) == tokens_written(ts, p - 1, q),
    decreases ts.len() - p, 31int,
{
    let (r, s) = if_parts(ts, p, stmt, q);
    let condition = stmt->If_condition;
    let then_branch = stmt->If_then_branch;
    let else_branch = stmt->If_else_branch;
    condition_cases(ts, p, condition, r);
    lemma_level(ts, 0, p + 1, condition, r - 1);
    lemma_block(ts, r, then_branch, ts[s - 1].span, s);
    lemma_single(ts, p - 1);
    lemma_one(ts, p - 1, p);
    lemma_joined(ts, p - 1, p + 1, r - 1);
    lemma_one(ts, p - 1, r - 1);
    lemma_joined(ts, p - 1, r, s);
    lemma_block_parts(
        keyword("if"@) + "("@ + expr_written(condition) + ")"@,
        then_branch,
    );
    let first = keyword("if"@) + "("@ + expr_written(condition) + ")"@ + "{"@ + stmts_written(
        then_branch,
        0,
    ) + "}"@;
    assert(first == tokens_written(ts, p - 1, s));
    if kind_at(ts, s) is Else {
        lemma_block(ts, s + 1, else_branch, ts[q - 1].span, q);
        block_cases(ts, s + 1, else_branch, ts[q - 1].span, q);
        lemma_stmts(ts, s + 2, else_branch, q - 1);
        assert(else_branch.len() > 0) by {
            reveal(no_empty_else);
            assert(ts[s].kind is Else);
        }
        lemma_one(ts, p - 1, s);
        lemma_joined(ts, p - 1, s + 1, q);
        lemma_block_parts(first + keyword("else"@), else_branch);
    }
}

proof fn lemma_assignment(ts: Seq<TokenView>, p: int, stmt: StmtView, q: int)
    requires
        no_empty_else(ts),
        assignment_at(ts, p, stmt, q),
        0 <= p < ts.len(),
        !at_end(ts, p),
    ensures
        stmt_written(stmt) == tokens_written(ts, p, q),
    decreases ts.len() - p, 28int,
{
    let (target, r, value) = assignment_parts(ts, p, stmt, q);
    lemma_level(ts, 0, p, target, r);
    if kind_at(ts, r) is Equal {
        lemma_level(ts, 0, r + 1, value, q - 1);
        lemma_one(ts, p, r);
        lemma_joined(ts, p, r + 1, q - 1);
        lemma_one(ts, p, q - 1);
    } else {
        lemma_one(ts, p, r);
    }
}

// ---------------------------------------------------------------------------
// Programs
// ---------------------------------------------------------------------------

/// A function in writing, without its mark.
pub open spec fn function_written(stmt: StmtView) -> Seq<char> {
    keyword("fn"@) + stmt->Function_name + signature_written(stmt->Function_params)
        + block_written(stmt->Function_body)
}

proof fn lemma_function(ts: Seq<TokenView>, p: int, exported: bool, stmt: StmtView, q: int)
    requires
        no_empty_else(ts),
        function_at(ts, p, exported, stmt, q),
        0 < p <= ts.len(),
        ts[p - 1].kind is Fn,
    ensures
        stmt is Function,
        stmt->Function_exported == exported,
        function_written(stmt) == tokens_written(ts, p - 1, q),
        p < q <= ts.len(),
        !(ts[q - 1].kind is Eof),
{
    let r = function_parts(ts, p, exported, stmt, q);
    let params = stmt->Function_params;
    let body = stmt->Function_body;
    signature_bounds(ts, p + 1, params, r);
    block_cases(ts, r, body, ts[q - 1].span, q);
    lemma_block(ts, r, body, ts[q - 1].span, q);
    lemma_signature(ts, p + 1, params, r);
    lemma_single(ts, p - 1);
    lemma_one(ts, p - 1, p);
    lemma_joined(ts, p - 1, p + 1, r);
    lemma_joined(ts, p - 1, r, q);
}

proof fn lemma_function_mark(mark: Seq<char>, stmt: StmtView)
    requires
        stmt is Function,
        mark == export_written(stmt->Function_exported),
    ensures
        stmt_written(stmt) == mark + function_written(stmt),
{
    let params = stmt->Function_params;
    let body = stmt->Function_body;
    let name = stmt->Function_name;
    lemma_signature_parts(mark + keyword("fn"@) + name, params);
    lemma_block_parts(
        mark + keyword("fn"@) + name + "("@ + names_written(params, 0) + ")"@,
        body,
    );
    lemma_assoc(mark, keyword("fn"@), name);
    lemma_assoc(mark, keyword("fn"@) + name, signature_written(params));
    lemma_assoc(
        mark,
        keyword("fn"@) + name + signature_written(params),
        block_written(body),
    );
}

proof fn lemma_let_mark(mark: Seq<char>, stmt: StmtView)
    requires
        stmt is Let,
        mark == export_written(stmt->Let_exported),
    ensures
        stmt_written(stmt) == mark + let_written(stmt),
{
    let name = stmt->Let_name;
    let value = expr_written(stmt->Let_initializer);
    lemma_assoc(mark, keyword("let"@), name);
    lemma_assoc(mark, keyword("let"@) + name, "="@);
    lemma_assoc(mark, keyword("let"@) + name + "="@, value);
    lemma_assoc(mark, keyword("let"@) + name + "="@ + value, ";"@);
}

proof fn lemma_module_name(
    ts: Seq<TokenView>,
    first: int,
    name: Seq<char>,
    p: int,
    module: Seq<char>,
    q: int,
)
    requires
        module_name_at(ts, name, p, module, q),
        0 <= first < p,
        name == tokens_written(ts, first, p),
    ensures
        module == tokens_written(ts, first, q),
        p <= q,
    decreases ts.len() - p,
{
    if let Some(part) = module_name_parts(ts, name, p, module, q) {
        lemma_one(ts, first, p);
        lemma_one(ts, first, p + 1);
        lemma_module_name(ts, first, name + "."@ + part, p + 2, module, q);
    }
}

proof fn lemma_declaration(ts: Seq<TokenView>, p: int, stmt: StmtView, q: int)
    requires
        no_empty_else(ts),
        declaration_at(ts, p, stmt, q),
        0 <= p < ts.len(),
        !(ts[p].kind is Eof),
    ensures
        stmt_written(stmt) == tokens_written(ts, p, q),
        p < q <= ts.len(),
        !(ts[q - 1].kind is Eof),
{
    declaration_cases(ts, p, stmt, q);
    lemma_single(ts, p);
    match ts[p].kind {
        TokenKindView::Export => {
            if is_at(ts, p + 1, TokenKindView::Fn) {
                lemma_function(ts, p + 2, true, stmt, q);
                lemma_joined(ts, p, p + 1, q);
                lemma_function_mark(keyword("export"@), stmt);
            } else {
                lemma_let(ts, p + 2, true, stmt, q);
                lemma_joined(ts, p, p + 1, q);
                lemma_let_mark(keyword("export"@), stmt);
            }
        },
        TokenKindView::Fn => {
            lemma_function(ts, p + 1, false, stmt, q);
            lemma_function_mark(Seq::empty(), stmt);
            assert(Seq::<char>::empty() + function_written(stmt) =~= function_written(stmt));
        },
        TokenKindView::Import => {
            let name = import_parts(ts, p + 1, stmt, q);
            lemma_single(ts, p + 1);
            lemma_module_name(ts, p + 1, name, p + 2, stmt->Import_module, q - 1);
            lemma_enclosed(ts, p, q);
        },
        _ => {
            stmt_spans(ts, p, stmt, q);
            lemma_stmt(ts, p, stmt, q);
        },
    }
}

proof fn lemma_program(ts: Seq<TokenView>, p: int, stmts: Seq<StmtView>)
    requires
        no_empty_else(ts),
        program_at(ts, p, stmts),
        0 <= p < ts.len(),
        ts.last().kind is Eof,
        forall|k: int| 0 <= k < ts.len() - 1 ==> !((#[trigger] ts[k]).kind is Eof),
    ensures
        stmts_written(stmts, 0) == tokens_written(ts, p, ts.len() - 1),
    decreases ts.len() - p,
{
    if at_end(ts, p) {
        program_none(ts, p, stmts);
        lemma_single(ts, p);
    } else {
        let (stmt, q, rest) = program_parts(ts, p, stmts);
        lemma_declaration(ts, p, stmt, q);
        lemma_program(ts, q, rest);
        lemma_joined(ts, p, q, ts.len() - 1);
        lemma_stmts_behind(stmt, rest, 0);
        assert(stmts[0] == stmt);
    }
}

/// A program says what its text says: the syntax tree of a text, written out again, is the tokens
/// of the text in writing. So every operator of the tree is the one whose sign stands between the
/// operands, every name, number and string is one of the text, and the parts of every expression
/// and statement are in the order of the text. A text in which a second branch is written that is
/// empty is left out: its tree is the one of the text without that branch.
pub proof fn trees_say_what_their_tokens_say(text: Seq<char>, file_id: FileId)
    requires
        encode_utf8(text).len() <= usize::MAX,
        source_tree(text, file_id) is Ok,
        no_empty_else(tokens_from(text, 0, file_id)->Ok_0),
    ensures
        ({
            let ts = tokens_from(text, 0, file_id)->Ok_0;
            stmts_written(source_tree(text, file_id)->Ok_0, 0) == tokens_written(
                ts,
                0,
                ts.len() - 1,
            )
        }),
{
    let ts = tokens_from(text, 0, file_id)->Ok_0;
    let stmts = source_tree(text, file_id)->Ok_0;
    tokens_end_with_one_eof(text, file_id);
    program_found(ts, stmts);
    lemma_program(ts, 0, stmts);
}

} // verus!
