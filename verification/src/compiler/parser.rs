//! Recursive-descent parser for source tokens.
//!
//! Implements expression precedence from equality down to primary expressions and produces
//! span-rich syntax trees for diagnostics and source maps.

use vstd::prelude::*;
use vstd::string::StringExecFns;

use crate::bytecode::chunk::string_views;
use crate::compiler::ast::{
    entry_views, expr_views, stmt_views, BinaryOp, Expr, ExprView, Literal, LiteralView, ProgramAst,
    Stmt, StmtView,
};
use crate::compiler::error::{
    CompileError, CompileErrorKind, CompileErrorKindView, CompileErrorView,
};
use crate::compiler::lexer::{token_views, Token, TokenKind, TokenKindView, TokenView};
use crate::diagnostics::span::SourceSpan;

verus! {

// ---------------------------------------------------------------------------
// The grammar
// ---------------------------------------------------------------------------

/// What parsing gives: a value and the position behind its tokens, or an error.
pub type Parsed<V> = Result<(V, int), CompileErrorView>;

/// Parsing succeeds with a value and ends at a position.
pub open spec fn gives<V>(parsed: Parsed<V>, value: V, end: int) -> bool {
    parsed == Ok::<(V, int), CompileErrorView>((value, end))
}

/// Parsing fails with an error.
pub open spec fn fails<V>(parsed: Parsed<V>, error: CompileErrorView) -> bool {
    parsed == Err::<(V, int), CompileErrorView>(error)
}

/// The kind of the token at a position.
pub open spec fn kind_at(ts: Seq<TokenView>, p: int) -> TokenKindView {
    if 0 <= p < ts.len() {
        ts[p].kind
    } else {
        TokenKindView::Eof
    }
}

pub open spec fn at_end(ts: Seq<TokenView>, p: int) -> bool {
    kind_at(ts, p) is Eof
}

/// The position behind the token at `p`; the end of the file is never passed.
pub open spec fn step(ts: Seq<TokenView>, p: int) -> int {
    if at_end(ts, p) {
        p
    } else {
        p + 1
    }
}

/// The token that is taken at `p`: the one there, or the last one before the end of the file.
pub open spec fn taken(ts: Seq<TokenView>, p: int) -> TokenView {
    ts[step(ts, p) - 1]
}

/// The number of tokens from `p` on.
pub open spec fn left(ts: Seq<TokenView>, p: int) -> nat {
    if p <= ts.len() {
        (ts.len() - p) as nat
    } else {
        0
    }
}

/// `q`, where it is a position at or behind `p`.
pub open spec fn held(ts: Seq<TokenView>, p: int, q: int) -> int {
    if p <= q <= ts.len() {
        q
    } else {
        ts.len() as int
    }
}

/// `q`, where it is a position behind `p`.
pub open spec fn onward(ts: Seq<TokenView>, p: int, q: int) -> int {
    if p < q <= ts.len() {
        q
    } else {
        ts.len() as int
    }
}

pub open spec fn failure(kind: CompileErrorKindView, span: SourceSpan) -> CompileErrorView {
    CompileErrorView { kind, span: Some(span) }
}

/// The error of a token that stands where something else is expected.
pub open spec fn unexpected(expected: Seq<char>, token: TokenView) -> CompileErrorView {
    failure(
        CompileErrorKindView::UnexpectedToken { expected, found: token.kind.description() },
        token.span,
    )
}

/// The span of a token of a required kind.
pub open spec fn expect(
    ts: Seq<TokenView>,
    p: int,
    kind: TokenKindView,
    expected: Seq<char>,
) -> Parsed<SourceSpan> {
    if kind_at(ts, p) == kind && 0 <= p < ts.len() {
        Ok((ts[p].span, p + 1))
    } else {
        Err(unexpected(expected, ts[p]))
    }
}

/// The name in a token that must be an identifier.
pub open spec fn expect_name(ts: Seq<TokenView>, p: int, expected: Seq<char>) -> Parsed<
    Seq<char>,
> {
    match taken(ts, p).kind {
        TokenKindView::Identifier(name) => Ok((name, step(ts, p))),
        _ => Err(unexpected(expected, taken(ts, p))),
    }
}

/// The span from the beginning of one span to the end of another.
pub open spec fn joined(start: SourceSpan, end: SourceSpan) -> SourceSpan {
    SourceSpan { file_id: start.file_id, start: start.start, end: end.end }
}

/// The operator of a token at a precedence level; a higher level binds tighter.
pub open spec fn operator(level: nat, kind: TokenKindView) -> Option<BinaryOp> {
    if level == 0 {
        match kind {
            TokenKindView::EqualEqual => Some(BinaryOp::Equal),
            TokenKindView::BangEqual => Some(BinaryOp::NotEqual),
            _ => None,
        }
    } else if level == 1 {
        match kind {
            TokenKindView::Less => Some(BinaryOp::Less),
            TokenKindView::LessEqual => Some(BinaryOp::LessEqual),
            TokenKindView::Greater => Some(BinaryOp::Greater),
            TokenKindView::GreaterEqual => Some(BinaryOp::GreaterEqual),
            _ => None,
        }
    } else if level == 2 {
        match kind {
            TokenKindView::Plus => Some(BinaryOp::Add),
            TokenKindView::Minus => Some(BinaryOp::Sub),
            _ => None,
        }
    } else {
        match kind {
            TokenKindView::Star => Some(BinaryOp::Mul),
            TokenKindView::Slash => Some(BinaryOp::Div),
            _ => None,
        }
    }
}

pub open spec fn binary_expr(lhs: ExprView, op: BinaryOp, rhs: ExprView) -> ExprView {
    ExprView::Binary {
        op,
        lhs: Box::new(lhs),
        rhs: Box::new(rhs),
        span: joined(lhs.span(), rhs.span()),
    }
}

/// An expression: binary operators by precedence, grouping to the left.
pub open spec fn parse_expr(ts: Seq<TokenView>, p: int) -> Parsed<ExprView>
    decreases left(ts, p), 21int,
{
    parse_binary(ts, 0, p)
}

/// Operands joined by the operators of a level and of tighter levels.
pub open spec fn parse_binary(ts: Seq<TokenView>, level: nat, p: int) -> Parsed<ExprView>
    decreases left(ts, p), (if level < 4 { 20 - 2 * level } else { 12 }),
{
    if level >= 4 {
        parse_call(ts, p)
    } else {
        match parse_binary(ts, level + 1, p) {
            Ok((lhs, q)) => binary_rest(ts, level, lhs, held(ts, p, q)),
            Err(error) => Err(error),
        }
    }
}

/// Further operands behind a left operand.
pub open spec fn binary_rest(ts: Seq<TokenView>, level: nat, lhs: ExprView, p: int) -> Parsed<
    ExprView,
>
    decreases left(ts, p), (if level < 4 { 19 - 2 * level } else { 12 }),
{
    match operator(level, kind_at(ts, p)) {
        None => Ok((lhs, p)),
        Some(op) => match parse_binary(ts, level + 1, p + 1) {
            Ok((rhs, q)) => binary_rest(ts, level, binary_expr(lhs, op, rhs), onward(ts, p, q)),
            Err(error) => Err(error),
        },
    }
}

/// A primary expression with calls, member names and indices behind it.
pub open spec fn parse_call(ts: Seq<TokenView>, p: int) -> Parsed<ExprView>
    decreases left(ts, p), 11int,
{
    match parse_primary(ts, p) {
        Ok((expr, q)) => call_rest(ts, expr, held(ts, p, q)),
        Err(error) => Err(error),
    }
}

/// Calls, member names and indices behind an expression.
pub open spec fn call_rest(ts: Seq<TokenView>, expr: ExprView, p: int) -> Parsed<ExprView>
    decreases left(ts, p), 10int,
{
    match kind_at(ts, p) {
        TokenKindView::LeftParen => match expr {
            ExprView::Variable { name, span } => match parse_exprs(
                ts,
                p + 1,
                TokenKindView::RightParen,
            ) {
                Ok((args, q)) => match expect(ts, held(ts, p + 1, q), TokenKindView::RightParen, "`)`"@) {
                    Ok((right, r)) => call_rest(
                        ts,
                        ExprView::Call { callee: name, args, span: joined(span, right) },
                        onward(ts, p, r),
                    ),
                    Err(error) => Err(error),
                },
                Err(error) => Err(error),
            },
            _ => Err(
                failure(
                    CompileErrorKindView::UnexpectedToken {
                        expected: "function name"@,
                        found: "expression"@,
                    },
                    ts[p].span,
                ),
            ),
        },
        TokenKindView::Dot => match expr {
            ExprView::Variable { name, span } => match expect_name(ts, p + 1, "member name"@) {
                Ok((member, q)) => call_rest(
                    ts,
                    ExprView::Variable {
                        name: name + "."@ + member,
                        span: joined(span, taken(ts, p + 1).span),
                    },
                    onward(ts, p, q),
                ),
                Err(error) => Err(error),
            },
            _ => Err(
                failure(
                    CompileErrorKindView::UnexpectedToken {
                        expected: "module name"@,
                        found: "expression"@,
                    },
                    ts[p].span,
                ),
            ),
        },
        TokenKindView::LeftBracket => match parse_expr(ts, p + 1) {
            Ok((index, q)) => match expect(ts, held(ts, p + 1, q), TokenKindView::RightBracket, "`]`"@) {
                Ok((right, r)) => call_rest(
                    ts,
                    ExprView::Index {
                        target: Box::new(expr),
                        index: Box::new(index),
                        span: joined(expr.span(), right),
                    },
                    onward(ts, p, r),
                ),
                Err(error) => Err(error),
            },
            Err(error) => Err(error),
        },
        _ => Ok((expr, p)),
    }
}

pub open spec fn literal(value: LiteralView, token: TokenView, p: int) -> Parsed<ExprView> {
    Ok((ExprView::Literal { value, span: token.span }, p))
}

/// Whether a token opens a bracket of an expression.
pub open spec fn opens(kind: TokenKindView) -> bool {
    kind is LeftParen || kind is LeftBracket || kind is LeftBrace
}

/// A literal, a name, a function literal, or an expression in brackets.
pub open spec fn parse_primary(ts: Seq<TokenView>, p: int) -> Parsed<ExprView>
    decreases left(ts, p), 9int,
{
    let token = taken(ts, p);
    let q = step(ts, p);
    if at_end(ts, p) && opens(token.kind) {
        Err(failure(CompileErrorKindView::ExpectedExpression, token.span))
    } else {
        match token.kind {
            TokenKindView::Integer(value) => literal(LiteralView::Int(value), token, q),
            TokenKindView::Text(value) => literal(LiteralView::Text(value), token, q),
            TokenKindView::True => literal(LiteralView::Bool(true), token, q),
            TokenKindView::False => literal(LiteralView::Bool(false), token, q),
            TokenKindView::Nil => literal(LiteralView::Nil, token, q),
            TokenKindView::Identifier(name) => Ok(
                (ExprView::Variable { name, span: token.span }, q),
            ),
            TokenKindView::Fn => match parse_signature(ts, q) {
                Ok((params, r)) => match parse_block(ts, onward(ts, q, r)) {
                    Ok(((body, end), s)) => Ok(
                        (ExprView::Function { params, body, span: joined(token.span, end) }, s),
                    ),
                    Err(error) => Err(error),
                },
                Err(error) => Err(error),
            },
            TokenKindView::LeftParen => match parse_expr(ts, q) {
                Ok((expr, r)) => match expect(ts, r, TokenKindView::RightParen, "`)`"@) {
                    Ok((right, s)) => Ok(
                        (
                            ExprView::Grouping {
                                expr: Box::new(expr),
                                span: joined(token.span, right),
                            },
                            s,
                        ),
                    ),
                    Err(error) => Err(error),
                },
                Err(error) => Err(error),
            },
            TokenKindView::LeftBracket => match parse_exprs(ts, q, TokenKindView::RightBracket) {
                Ok((elements, r)) => match expect(ts, r, TokenKindView::RightBracket, "`]`"@) {
                    Ok((right, s)) => Ok(
                        (ExprView::Array { elements, span: joined(token.span, right) }, s),
                    ),
                    Err(error) => Err(error),
                },
                Err(error) => Err(error),
            },
            TokenKindView::LeftBrace => match parse_entries(ts, q) {
                Ok((entries, r)) => match expect(ts, r, TokenKindView::RightBrace, "`}`"@) {
                    Ok((right, s)) => Ok(
                        (ExprView::MapLiteral { entries, span: joined(token.span, right) }, s),
                    ),
                    Err(error) => Err(error),
                },
                Err(error) => Err(error),
            },
            TokenKindView::Eof => Err(
                failure(CompileErrorKindView::ExpectedExpression, token.span),
            ),
            _ => Err(unexpected("expression"@, token)),
        }
    }
}

/// A list put before what follows it.
pub open spec fn with_front<V>(front: Seq<V>, rest: Parsed<Seq<V>>) -> Parsed<Seq<V>> {
    match rest {
        Ok((rest, p)) => Ok((front + rest, p)),
        Err(error) => Err(error),
    }
}

/// Expressions separated by commas, up to a closing bracket.
pub open spec fn parse_exprs(ts: Seq<TokenView>, p: int, close: TokenKindView) -> Parsed<
    Seq<ExprView>,
>
    decreases left(ts, p), 23int,
{
    if kind_at(ts, p) == close {
        Ok((Seq::empty(), p))
    } else {
        expr_list(ts, p)
    }
}

/// One or more expressions separated by commas.
pub open spec fn expr_list(ts: Seq<TokenView>, p: int) -> Parsed<Seq<ExprView>>
    decreases left(ts, p), 22int,
{
    match parse_expr(ts, p) {
        Ok((expr, q)) => if kind_at(ts, held(ts, p, q)) is Comma {
            with_front(seq![expr], expr_list(ts, held(ts, p, q) + 1))
        } else {
            Ok((seq![expr], q))
        },
        Err(error) => Err(error),
    }
}

/// Key/value pairs separated by commas, up to a closing brace.
pub open spec fn parse_entries(ts: Seq<TokenView>, p: int) -> Parsed<Seq<(ExprView, ExprView)>>
    decreases left(ts, p), 23int,
{
    if kind_at(ts, p) is RightBrace {
        Ok((Seq::empty(), p))
    } else {
        entry_list(ts, p)
    }
}

/// One or more key/value pairs separated by commas.
pub open spec fn entry_list(ts: Seq<TokenView>, p: int) -> Parsed<Seq<(ExprView, ExprView)>>
    decreases left(ts, p), 22int,
{
    match parse_expr(ts, p) {
        Ok((key, q)) => match expect(ts, held(ts, p, q), TokenKindView::Colon, "`:`"@) {
            Ok((_, r)) => match parse_expr(ts, r) {
                Ok((value, s)) => if kind_at(ts, held(ts, r, s)) is Comma {
                    with_front(seq![(key, value)], entry_list(ts, held(ts, r, s) + 1))
                } else {
                    Ok((seq![(key, value)], s))
                },
                Err(error) => Err(error),
            },
            Err(error) => Err(error),
        },
        Err(error) => Err(error),
    }
}

/// One or more parameter names separated by commas.
pub open spec fn param_list(ts: Seq<TokenView>, p: int) -> Parsed<Seq<Seq<char>>>
    decreases left(ts, p),
{
    match expect_name(ts, p, "parameter name"@) {
        Ok((name, q)) => if kind_at(ts, q) is Comma {
            with_front(seq![name], param_list(ts, q + 1))
        } else {
            Ok((seq![name], q))
        },
        Err(error) => Err(error),
    }
}

/// A parameter list in parentheses.
pub open spec fn parse_signature(ts: Seq<TokenView>, p: int) -> Parsed<Seq<Seq<char>>> {
    match expect(ts, p, TokenKindView::LeftParen, "`(`"@) {
        Ok((_, q)) => {
            let params = if kind_at(ts, q) is RightParen {
                Ok((Seq::empty(), q))
            } else {
                param_list(ts, q)
            };
            match params {
                Ok((params, r)) => match expect(ts, r, TokenKindView::RightParen, "`)`"@) {
                    Ok((_, s)) => Ok((params, s)),
                    Err(error) => Err(error),
                },
                Err(error) => Err(error),
            }
        },
        Err(error) => Err(error),
    }
}

/// Statements in braces, and the span of the closing brace.
pub open spec fn parse_block(ts: Seq<TokenView>, p: int) -> Parsed<(Seq<StmtView>, SourceSpan)>
    decreases left(ts, p), 33int,
{
    match expect(ts, p, TokenKindView::LeftBrace, "`{`"@) {
        Ok((_, q)) => block_rest(ts, q),
        Err(error) => Err(error),
    }
}

/// The rest of a block behind its opening brace.
pub open spec fn block_rest(ts: Seq<TokenView>, p: int) -> Parsed<(Seq<StmtView>, SourceSpan)>
    decreases left(ts, p), 32int,
{
    match parse_stmts(ts, p) {
        Ok((statements, q)) => match expect(ts, q, TokenKindView::RightBrace, "`}`"@) {
            Ok((end, r)) => Ok(((statements, end), r)),
            Err(error) => Err(error),
        },
        Err(error) => Err(error),
    }
}

/// Statements up to a closing brace or the end of the file.
pub open spec fn parse_stmts(ts: Seq<TokenView>, p: int) -> Parsed<Seq<StmtView>>
    decreases left(ts, p), 31int,
{
    if kind_at(ts, p) is RightBrace || at_end(ts, p) {
        Ok((Seq::empty(), p))
    } else {
        match parse_stmt(ts, p) {
            Ok((stmt, q)) => with_front(seq![stmt], parse_stmts(ts, onward(ts, p, q))),
            Err(error) => Err(error),
        }
    }
}

/// A statement inside a block.
pub open spec fn parse_stmt(ts: Seq<TokenView>, p: int) -> Parsed<StmtView>
    decreases left(ts, p), 30int,
{
    match kind_at(ts, p) {
        TokenKindView::Let => parse_let(ts, p + 1, false),
        TokenKindView::If => parse_if(ts, p + 1),
        TokenKindView::While => parse_while(ts, p + 1),
        TokenKindView::Return => parse_return(ts, p + 1),
        TokenKindView::LeftBrace => match block_rest(ts, p + 1) {
            Ok(((statements, end), q)) => Ok(
                (StmtView::Block { statements, span: joined(ts[p].span, end) }, q),
            ),
            Err(error) => Err(error),
        },
        _ => parse_assignment_or_expr(ts, p),
    }
}

/// A binding behind its `let`.
pub open spec fn parse_let(ts: Seq<TokenView>, p: int, exported: bool) -> Parsed<StmtView>
    decreases left(ts, p), 29int,
{
    match expect_name(ts, p, "identifier"@) {
        Ok((name, q)) => match expect(ts, q, TokenKindView::Equal, "`=`"@) {
            Ok((_, r)) => match parse_expr(ts, r) {
                Ok((initializer, s)) => match expect(ts, s, TokenKindView::Semicolon, "`;`"@) {
                    Ok((end, t)) => Ok(
                        (
                            StmtView::Let {
                                name,
                                initializer,
                                exported,
                                span: joined(ts[p - 1].span, end),
                            },
                            t,
                        ),
                    ),
                    Err(error) => Err(error),
                },
                Err(error) => Err(error),
            },
            Err(error) => Err(error),
        },
        Err(error) => Err(error),
    }
}

/// A condition in parentheses.
pub open spec fn parse_condition(ts: Seq<TokenView>, p: int) -> Parsed<ExprView>
    decreases left(ts, p), 28int,
{
    match expect(ts, p, TokenKindView::LeftParen, "`(`"@) {
        Ok((_, q)) => match parse_expr(ts, q) {
            Ok((condition, r)) => match expect(ts, r, TokenKindView::RightParen, "`)`"@) {
                Ok((_, s)) => Ok((condition, s)),
                Err(error) => Err(error),
            },
            Err(error) => Err(error),
        },
        Err(error) => Err(error),
    }
}

/// A conditional behind its `if`.
pub open spec fn parse_if(ts: Seq<TokenView>, p: int) -> Parsed<StmtView>
    decreases left(ts, p), 34int,
{
    match parse_condition(ts, p) {
        Ok((condition, q)) => match parse_block(ts, onward(ts, p, q)) {
            Ok(((then_branch, then_span), r)) => {
                let has_else = kind_at(ts, onward(ts, p, r)) is Else;
                let otherwise = if has_else {
                    parse_block(ts, onward(ts, p, r) + 1)
                } else {
                    Ok(((Seq::empty(), then_span), r))
                };
                match otherwise {
                    Ok(((else_branch, end), s)) => Ok(
                        (
                            StmtView::If {
                                condition,
                                then_branch,
                                else_branch,
                                span: joined(ts[p - 1].span, end),
                            },
                            s,
                        ),
                    ),
                    Err(error) => Err(error),
                }
            },
            Err(error) => Err(error),
        },
        Err(error) => Err(error),
    }
}

/// A loop behind its `while`.
pub open spec fn parse_while(ts: Seq<TokenView>, p: int) -> Parsed<StmtView>
    decreases left(ts, p), 34int,
{
    match parse_condition(ts, p) {
        Ok((condition, q)) => match parse_block(ts, onward(ts, p, q)) {
            Ok(((body, end), r)) => Ok(
                (StmtView::While { condition, body, span: joined(ts[p - 1].span, end) }, r),
            ),
            Err(error) => Err(error),
        },
        Err(error) => Err(error),
    }
}

/// A return statement behind its `return`.
pub open spec fn parse_return(ts: Seq<TokenView>, p: int) -> Parsed<StmtView>
    decreases left(ts, p), 29int,
{
    match parse_expr(ts, p) {
        Ok((value, q)) => match expect(ts, q, TokenKindView::Semicolon, "`;`"@) {
            Ok((end, r)) => Ok(
                (StmtView::Return { value, span: joined(ts[p - 1].span, end) }, r),
            ),
            Err(error) => Err(error),
        },
        Err(error) => Err(error),
    }
}

/// The name of an expression form in diagnostics.
pub open spec fn form_name(expr: ExprView) -> Seq<char> {
    match expr {
        ExprView::Literal { .. } => "literal"@,
        ExprView::Variable { .. } => "variable"@,
        ExprView::Binary { .. } => "binary expression"@,
        ExprView::Call { .. } => "function call"@,
        ExprView::Function { .. } => "function literal"@,
        ExprView::Index { .. } => "index expression"@,
        ExprView::Array { .. } => "array literal"@,
        ExprView::MapLiteral { .. } => "map literal"@,
        ExprView::Grouping { .. } => "grouping expression"@,
    }
}

/// The assignment of a value to a target.
pub open spec fn assignment(target: ExprView, value: ExprView, end: SourceSpan) -> Result<
    StmtView,
    CompileErrorView,
> {
    let span = joined(target.span(), end);
    match target {
        ExprView::Variable { name, .. } => Ok(StmtView::Assign { name, value, span }),
        ExprView::Index { target, index, .. } => Ok(
            StmtView::IndexAssign { target: *target, index: *index, value, span },
        ),
        _ => Err(
            failure(
                CompileErrorKindView::UnexpectedToken {
                    expected: "assignment target"@,
                    found: form_name(target),
                },
                target.span(),
            ),
        ),
    }
}

/// An assignment, or an expression used as a statement.
pub open spec fn parse_assignment_or_expr(ts: Seq<TokenView>, p: int) -> Parsed<StmtView>
    decreases left(ts, p), 29int,
{
    match parse_expr(ts, p) {
        Ok((target, q)) => if kind_at(ts, held(ts, p, q)) is Equal {
            match parse_expr(ts, held(ts, p, q) + 1) {
                Ok((value, r)) => match expect(ts, r, TokenKindView::Semicolon, "`;`"@) {
                    Ok((end, s)) => match assignment(target, value, end) {
                        Ok(stmt) => Ok((stmt, s)),
                        Err(error) => Err(error),
                    },
                    Err(error) => Err(error),
                },
                Err(error) => Err(error),
            }
        } else {
            match expect(ts, q, TokenKindView::Semicolon, "`;`"@) {
                Ok((end, r)) => Ok(
                    (StmtView::Expr { value: target, span: joined(target.span(), end) }, r),
                ),
                Err(error) => Err(error),
            }
        },
        Err(error) => Err(error),
    }
}

/// Further parts of a module name behind its first part.
pub open spec fn module_name_rest(ts: Seq<TokenView>, name: Seq<char>, p: int) -> Parsed<Seq<char>>
    decreases left(ts, p),
{
    if kind_at(ts, p) is Dot {
        match expect_name(ts, p + 1, "module name"@) {
            Ok((part, q)) => module_name_rest(ts, name + "."@ + part, q),
            Err(error) => Err(error),
        }
    } else {
        Ok((name, p))
    }
}

/// An import behind its `import`.
pub open spec fn parse_import(ts: Seq<TokenView>, p: int) -> Parsed<StmtView> {
    match expect_name(ts, p, "module name"@) {
        Ok((first, q)) => match module_name_rest(ts, first, q) {
            Ok((module, r)) => match expect(ts, r, TokenKindView::Semicolon, "`;`"@) {
                Ok((end, s)) => Ok(
                    (StmtView::Import { module, span: joined(ts[p - 1].span, end) }, s),
                ),
                Err(error) => Err(error),
            },
            Err(error) => Err(error),
        },
        Err(error) => Err(error),
    }
}

/// A function declaration behind its `fn`.
pub open spec fn parse_function(ts: Seq<TokenView>, p: int, exported: bool) -> Parsed<StmtView> {
    match expect_name(ts, p, "function name"@) {
        Ok((name, q)) => match parse_signature(ts, q) {
            Ok((params, r)) => match parse_block(ts, r) {
                Ok(((body, end), s)) => Ok(
                    (
                        StmtView::Function {
                            name,
                            params,
                            body,
                            exported,
                            span: joined(ts[p - 1].span, end),
                        },
                        s,
                    ),
                ),
                Err(error) => Err(error),
            },
            Err(error) => Err(error),
        },
        Err(error) => Err(error),
    }
}

/// A declaration behind its `export`.
pub open spec fn parse_export(ts: Seq<TokenView>, p: int) -> Parsed<StmtView> {
    match kind_at(ts, p) {
        TokenKindView::Fn => parse_function(ts, p + 1, true),
        TokenKindView::Let => parse_let(ts, p + 1, true),
        _ => Err(unexpected("`fn` or `let`"@, ts[p])),
    }
}

/// A top-level declaration or statement.
pub open spec fn parse_declaration(ts: Seq<TokenView>, p: int) -> Parsed<StmtView> {
    match kind_at(ts, p) {
        TokenKindView::Export => parse_export(ts, p + 1),
        TokenKindView::Fn => parse_function(ts, p + 1, false),
        TokenKindView::Import => parse_import(ts, p + 1),
        _ => parse_stmt(ts, p),
    }
}

/// Top-level declarations up to the end of the file.
pub open spec fn parse_program(ts: Seq<TokenView>, p: int) -> Parsed<Seq<StmtView>>
    decreases left(ts, p),
{
    if at_end(ts, p) {
        Ok((Seq::empty(), p))
    } else {
        match parse_declaration(ts, p) {
            Ok((stmt, q)) => with_front(seq![stmt], parse_program(ts, onward(ts, p, q))),
            Err(error) => Err(error),
        }
    }
}

/// The syntax tree of a token list, or the first error.
pub open spec fn parsed(ts: Seq<TokenView>) -> Result<Seq<StmtView>, CompileErrorView> {
    match parse_program(ts, 0) {
        Ok((statements, _)) => Ok(statements),
        Err(error) => Err(error),
    }
}

// ---------------------------------------------------------------------------
// The parser
// ---------------------------------------------------------------------------

/// Parses a token stream into a program syntax tree.
pub fn parse(tokens: Vec<Token>) -> (result: Result<ProgramAst, CompileError>)
    requires
        exists|k: int| 0 <= k < tokens@.len() && (#[trigger] token_views(tokens@)[k]).kind is Eof,
    ensures
        match result {
            Ok(program) => parsed(token_views(tokens@)) == Ok::<Seq<StmtView>, CompileErrorView>(
                program@,
            ),
            Err(error) => parsed(token_views(tokens@)) == Err::<Seq<StmtView>, CompileErrorView>(
                error@,
            ),
        },
{
    let parser = Parser { tokens, current: 0 };
    parser.parse()
}

/// A position in a token list.
struct Parser {
    tokens: Vec<Token>,
    current: usize,
}


impl Parser {
    spec fn ts(&self) -> Seq<TokenView> {
        token_views(self.tokens@)
    }

    spec fn at(&self) -> int {
        self.current as int
    }

    /// The end of the file stands at or behind the position.
    spec fn wf(&self) -> bool {
        exists|k: int| self.current <= k < self.ts().len() && (#[trigger] self.ts()[k]).kind is Eof
    }

    /// The same tokens at the same or a later position.
    spec fn follows(&self, before: &Self) -> bool {
        &&& self.wf()
        &&& self.tokens == before.tokens
        &&& self.current >= before.current
    }

    fn parse(self) -> (result: Result<ProgramAst, CompileError>)
        requires
            self.wf(),
            self.current == 0,
        ensures
            match result {
                Ok(program) => parsed(self.ts()) == Ok::<Seq<StmtView>, CompileErrorView>(program@),
                Err(error) => parsed(self.ts()) == Err::<Seq<StmtView>, CompileErrorView>(error@),
            },
    {
        let mut parser = self;
        let mut statements: Vec<Stmt> = Vec::new();
        let ghost ts = self.ts();
        proof {
            assert(stmt_views(statements@) =~= Seq::empty());
            lemma_empty_front(parse_program(ts, 0));
        }
        while !parser.is_at_end()
            invariant
                parser.wf(),
                parser.ts() == ts,
                ts == self.ts(),
                parse_program(ts, 0) == with_front(
                    stmt_views(statements@),
                    parse_program(ts, parser.at()),
                ),
            decreases left(ts, parser.at()),
        {
            let ghost before = stmt_views(statements@);
            let ghost p = parser.at();
            match parser.declaration() {
                Ok(stmt) => {
                    proof {
                        lemma_push_front(before, stmt@, parse_program(ts, parser.at()));
                    }
                    statements.push(stmt);
                    assert(stmt_views(statements@) =~= before.push(stmt@));
                },
                Err(error) => {
                    return Err(error);
                },
            }
        }
        assert(stmt_views(statements@) + Seq::<StmtView>::empty() =~= stmt_views(statements@));
        Ok(ProgramAst { statements })
    }

    /// Parses a top-level declaration or statement.
    fn declaration(&mut self) -> (result: Result<Stmt, CompileError>)
        requires
            old(self).wf(),
            !at_end(old(self).ts(), old(self).at()),
        ensures
            match result {
                Ok(value) => {
                    &&& gives(parse_declaration(old(self).ts(), old(self).at()), value@, final(self).at())
                    &&& final(self).follows(old(self))
                    &&& final(self).current > old(self).current
                },
                Err(error) => fails(parse_declaration(old(self).ts(), old(self).at()), error@),
            },
    {
        if self.match_kind(&TokenKind::Export) {
            self.export_declaration()
        } else if self.match_kind(&TokenKind::Fn) {
            self.function_declaration(false)
        } else if self.match_kind(&TokenKind::Import) {
            self.import_declaration()
        } else {
            self.statement()
        }
    }

    /// Parses a declaration behind its `export`.
    fn export_declaration(&mut self) -> (result: Result<Stmt, CompileError>)
        requires
            old(self).wf(),
        ensures
            match result {
                Ok(value) => {
                    &&& gives(parse_export(old(self).ts(), old(self).at()), value@, final(self).at())
                    &&& final(self).follows(old(self))
                },
                Err(error) => fails(parse_export(old(self).ts(), old(self).at()), error@),
            },
    {
        if self.match_kind(&TokenKind::Fn) {
            self.function_declaration(true)
        } else if self.match_kind(&TokenKind::Let) {
            self.let_statement(true)
        } else {
            Err(self.unexpected("`fn` or `let`"))
        }
    }

    /// Parses an import behind its `import`.
    fn import_declaration(&mut self) -> (result: Result<Stmt, CompileError>)
        requires
            old(self).wf(),
            old(self).current > 0,
        ensures
            match result {
                Ok(value) => {
                    &&& gives(parse_import(old(self).ts(), old(self).at()), value@, final(self).at())
                    &&& final(self).follows(old(self))
                },
                Err(error) => fails(parse_import(old(self).ts(), old(self).at()), error@),
            },
    {
        let start = self.previous_span();
        let ghost p = self.at();
        let mut module = self.name("module name")?;
        let ghost first = self.at();
        let ghost part = module@;
        while self.match_kind(&TokenKind::Dot)
            invariant
                self.wf(),
                self.follows(old(self)),
                self.current > 0,
                module_name_rest(self.ts(), part, first) == module_name_rest(
                    self.ts(),
                    module@,
                    self.at(),
                ),
                gives(expect_name(old(self).ts(), old(self).at(), "module name"@), part, first),
            ensures
                !(kind_at(self.ts(), self.at()) is Dot),
            decreases left(self.ts(), self.at()),
        {
            let next = self.name("module name")?;
            module.append(".");
            module.append(next.as_str());
        }
        let end = self.consume(&TokenKind::Semicolon, "`;`")?;
        Ok(Stmt::Import { module, span: join(start, end) })
    }

    /// Parses a statement inside a block.
    fn statement(&mut self) -> (result: Result<Stmt, CompileError>)
        requires
            old(self).wf(),
            !at_end(old(self).ts(), old(self).at()),
        ensures
            match result {
                Ok(value) => {
                    &&& gives(parse_stmt(old(self).ts(), old(self).at()), value@, final(self).at())
                    &&& final(self).follows(old(self))
                    &&& final(self).current > old(self).current
                },
                Err(error) => fails(parse_stmt(old(self).ts(), old(self).at()), error@),
            },
        decreases left(old(self).ts(), old(self).at()), 30int,
    {
        if self.match_kind(&TokenKind::Let) {
            self.let_statement(false)
        } else if self.match_kind(&TokenKind::If) {
            self.if_statement()
        } else if self.match_kind(&TokenKind::While) {
            self.while_statement()
        } else if self.match_kind(&TokenKind::Return) {
            self.return_statement()
        } else if self.match_kind(&TokenKind::LeftBrace) {
            let start = self.previous_span();
            let (statements, end) = self.block_after_left_brace()?;
            Ok(Stmt::Block { statements, span: join(start, end) })
        } else {
            self.assignment_or_expression_statement()
        }
    }

    /// Parses a function declaration behind its `fn`.
    fn function_declaration(&mut self, exported: bool) -> (result: Result<Stmt, CompileError>)
        requires
            old(self).wf(),
            old(self).current > 0,
        ensures
            match result {
                Ok(value) => {
                    &&& gives(parse_function(old(self).ts(), old(self).at(), exported), value@, final(self).at())
                    &&& final(self).follows(old(self))
                },
                Err(error) => fails(parse_function(old(self).ts(), old(self).at(), exported), error@),
            },
    {
        let start = self.previous_span();
        let name = self.name("function name")?;
        let params = self.signature()?;
        let (body, end) = self.block()?;
        Ok(Stmt::Function { name, params, body, exported, span: join(start, end) })
    }

    /// Parses a binding behind its `let`.
    fn let_statement(&mut self, exported: bool) -> (result: Result<Stmt, CompileError>)
        requires
            old(self).wf(),
            old(self).current > 0,
        ensures
            match result {
                Ok(value) => {
                    &&& gives(parse_let(old(self).ts(), old(self).at(), exported), value@, final(self).at())
                    &&& final(self).follows(old(self))
                },
                Err(error) => fails(parse_let(old(self).ts(), old(self).at(), exported), error@),
            },
        decreases left(old(self).ts(), old(self).at()), 29int,
    {
        let start = self.previous_span();
        let name = self.name("identifier")?;
        self.consume(&TokenKind::Equal, "`=`")?;
        let initializer = self.expression()?;
        let end = self.consume(&TokenKind::Semicolon, "`;`")?;
        Ok(Stmt::Let { name, initializer, exported, span: join(start, end) })
    }

    /// Parses a condition in parentheses.
    fn condition(&mut self) -> (result: Result<Expr, CompileError>)
        requires
            old(self).wf(),
            old(self).current > 0,
        ensures
            match result {
                Ok(value) => {
                    &&& gives(parse_condition(old(self).ts(), old(self).at()), value@, final(self).at())
                    &&& final(self).follows(old(self))
                    &&& final(self).current > old(self).current
                },
                Err(error) => fails(parse_condition(old(self).ts(), old(self).at()), error@),
            },
        decreases left(old(self).ts(), old(self).at()), 28int,
    {
        self.consume(&TokenKind::LeftParen, "`(`")?;
        let condition = self.expression()?;
        self.consume(&TokenKind::RightParen, "`)`")?;
        Ok(condition)
    }

    /// Parses a conditional behind its `if`.
    fn if_statement(&mut self) -> (result: Result<Stmt, CompileError>)
        requires
            old(self).wf(),
            old(self).current > 0,
        ensures
            match result {
                Ok(value) => {
                    &&& gives(parse_if(old(self).ts(), old(self).at()), value@, final(self).at())
                    &&& final(self).follows(old(self))
                },
                Err(error) => fails(parse_if(old(self).ts(), old(self).at()), error@),
            },
        decreases left(old(self).ts(), old(self).at()), 34int,
    {
        let start = self.previous_span();
        let condition = self.condition()?;
        let (then_branch, then_span) = self.block()?;
        if self.match_kind(&TokenKind::Else) {
            let (else_branch, end) = self.block()?;
            Ok(Stmt::If { condition, then_branch, else_branch, span: join(start, end) })
        } else {
            let else_branch: Vec<Stmt> = Vec::new();
            assert(stmt_views(else_branch@) =~= Seq::empty());
            Ok(Stmt::If { condition, then_branch, else_branch, span: join(start, then_span) })
        }
    }

    /// Parses a loop behind its `while`.
    fn while_statement(&mut self) -> (result: Result<Stmt, CompileError>)
        requires
            old(self).wf(),
            old(self).current > 0,
        ensures
            match result {
                Ok(value) => {
                    &&& gives(parse_while(old(self).ts(), old(self).at()), value@, final(self).at())
                    &&& final(self).follows(old(self))
                },
                Err(error) => fails(parse_while(old(self).ts(), old(self).at()), error@),
            },
        decreases left(old(self).ts(), old(self).at()), 34int,
    {
        let start = self.previous_span();
        let condition = self.condition()?;
        let (body, end) = self.block()?;
        Ok(Stmt::While { condition, body, span: join(start, end) })
    }

    /// Parses statements in braces.
    fn block(&mut self) -> (result: Result<(Vec<Stmt>, SourceSpan), CompileError>)
        requires
            old(self).wf(),
            old(self).current > 0,
        ensures
            match result {
                Ok(value) => {
                    &&& gives(parse_block(old(self).ts(), old(self).at()), (stmt_views(value.0@), value.1), final(self).at())
                    &&& final(self).follows(old(self))
                    &&& final(self).current > old(self).current
                },
                Err(error) => fails(parse_block(old(self).ts(), old(self).at()), error@),
            },
        decreases left(old(self).ts(), old(self).at()), 33int,
    {
        self.consume(&TokenKind::LeftBrace, "`{`")?;
        self.block_after_left_brace()
    }

    /// Parses the rest of a block behind its opening brace.
    fn block_after_left_brace(&mut self) -> (result: Result<(Vec<Stmt>, SourceSpan), CompileError>)
        requires
            old(self).wf(),
            old(self).current > 0,
        ensures
            match result {
                Ok(value) => {
                    &&& gives(block_rest(old(self).ts(), old(self).at()), (stmt_views(value.0@), value.1), final(self).at())
                    &&& final(self).follows(old(self))
                    &&& final(self).current > old(self).current
                },
                Err(error) => fails(block_rest(old(self).ts(), old(self).at()), error@),
            },
        decreases left(old(self).ts(), old(self).at()), 32int,
    {
        let mut statements: Vec<Stmt> = Vec::new();
        let ghost ts = self.ts();
        let ghost from = self.at();
        proof {
            assert(stmt_views(statements@) =~= Seq::empty());
            lemma_empty_front(parse_stmts(ts, from));
        }
        while !self.check(&TokenKind::RightBrace) && !self.is_at_end()
            invariant
                self.wf(),
                self.follows(old(self)),
                self.ts() == ts,
                ts == old(self).ts(),
                from == old(self).at(),
                self.current > 0,
                parse_stmts(ts, from) == with_front(
                    stmt_views(statements@),
                    parse_stmts(ts, self.at()),
                ),
            decreases left(ts, self.at()),
        {
            let ghost before = stmt_views(statements@);
            let stmt = self.statement()?;
            proof {
                lemma_push_front(before, stmt@, parse_stmts(ts, self.at()));
            }
            statements.push(stmt);
            assert(stmt_views(statements@) =~= before.push(stmt@));
        }
        assert(stmt_views(statements@) + Seq::<StmtView>::empty() =~= stmt_views(statements@));
        let end = self.consume(&TokenKind::RightBrace, "`}`")?;
        Ok((statements, end))
    }

    /// Parses a return statement behind its `return`.
    fn return_statement(&mut self) -> (result: Result<Stmt, CompileError>)
        requires
            old(self).wf(),
            old(self).current > 0,
        ensures
            match result {
                Ok(value) => {
                    &&& gives(parse_return(old(self).ts(), old(self).at()), value@, final(self).at())
                    &&& final(self).follows(old(self))
                },
                Err(error) => fails(parse_return(old(self).ts(), old(self).at()), error@),
            },
        decreases left(old(self).ts(), old(self).at()), 29int,
    {
        let start = self.previous_span();
        let value = self.expression()?;
        let end = self.consume(&TokenKind::Semicolon, "`;`")?;
        Ok(Stmt::Return { value, span: join(start, end) })
    }

    /// Parses an assignment, or an expression used as a statement.
    fn assignment_or_expression_statement(&mut self) -> (result: Result<Stmt, CompileError>)
        requires
            old(self).wf(),
            !at_end(old(self).ts(), old(self).at()),
        ensures
            match result {
                Ok(value) => {
                    &&& gives(parse_assignment_or_expr(old(self).ts(), old(self).at()), value@, final(self).at())
                    &&& final(self).follows(old(self))
                    &&& final(self).current > old(self).current
                },
                Err(error) => fails(parse_assignment_or_expr(old(self).ts(), old(self).at()), error@),
            },
        decreases left(old(self).ts(), old(self).at()), 29int,
    {
        let target = self.expression()?;
        if self.match_kind(&TokenKind::Equal) {
            let value = self.expression()?;
            let end = self.consume(&TokenKind::Semicolon, "`;`")?;
            let target_span = target.span();
            let span = join(target_span, end);
            match target {
                Expr::Variable { name, .. } => Ok(Stmt::Assign { name, value, span }),
                Expr::Index { target, index, .. } => Ok(
                    Stmt::IndexAssign { target: *target, index: *index, value, span },
                ),
                _ => Err(
                    CompileError::new(
                        CompileErrorKind::UnexpectedToken {
                            expected: String::from_str("assignment target"),
                            found: String::from_str(target_description(&target)),
                        },
                        Some(target_span),
                    ),
                ),
            }
        } else {
            let end = self.consume(&TokenKind::Semicolon, "`;`")?;
            let span = join(target.span(), end);
            Ok(Stmt::Expr { value: target, span })
        }
    }

    /// Parses an expression.
    fn expression(&mut self) -> (result: Result<Expr, CompileError>)
        requires
            old(self).wf(),
            old(self).current > 0 || !at_end(old(self).ts(), old(self).at()),
        ensures
            match result {
                Ok(value) => {
                    &&& gives(parse_expr(old(self).ts(), old(self).at()), value@, final(self).at())
                    &&& final(self).follows(old(self))
                    &&& !at_end(old(self).ts(), old(self).at()) ==> final(self).current > old(self).current
                },
                Err(error) => fails(parse_expr(old(self).ts(), old(self).at()), error@),
            },
        decreases left(old(self).ts(), old(self).at()), 21int,
    {
        self.binary_level(0)
    }

    /// Parses operands joined by the operators of a level and of tighter levels.
    fn binary_level(&mut self, level: u8) -> (result: Result<Expr, CompileError>)
        requires
            old(self).wf(),
            old(self).current > 0 || !at_end(old(self).ts(), old(self).at()),
        ensures
            match result {
                Ok(value) => {
                    &&& gives(parse_binary(old(self).ts(), level as nat, old(self).at()), value@, final(self).at())
                    &&& final(self).follows(old(self))
                    &&& !at_end(old(self).ts(), old(self).at()) ==> final(self).current > old(self).current
                },
                Err(error) => fails(parse_binary(old(self).ts(), level as nat, old(self).at()), error@),
            },
        decreases left(old(self).ts(), old(self).at()), (if level < 4 { 20 - 2 * level } else { 12 }),
    {
        if level >= 4 {
            return self.call();
        }
        let ghost ts = self.ts();
        let mut expr = self.binary_level(level + 1)?;
        let ghost lhs = expr@;
        let ghost from = self.at();
        loop
            invariant
                self.wf(),
                self.follows(old(self)),
                self.ts() == ts,
                ts == old(self).ts(),
                level < 4,
                self.current > 0,
                self.current >= from >= old(self).current,
                !at_end(ts, old(self).at()) ==> self.current > old(self).current,
                parse_binary(ts, level as nat, old(self).at()) == binary_rest(
                    ts,
                    level as nat,
                    lhs,
                    from,
                ),
                binary_rest(ts, level as nat, lhs, from) == binary_rest(
                    ts,
                    level as nat,
                    expr@,
                    self.at(),
                ),
            decreases left(ts, self.at()),
        {
            match self.peek_operator(level) {
                Some(op) => {
                    self.advance();
                    let rhs = self.binary_level(level + 1)?;
                    expr = binary(expr, op, rhs);
                },
                None => {
                    return Ok(expr);
                },
            }
        }
    }

    /// Parses a primary expression with calls, member names and indices behind it.
    fn call(&mut self) -> (result: Result<Expr, CompileError>)
        requires
            old(self).wf(),
            old(self).current > 0 || !at_end(old(self).ts(), old(self).at()),
        ensures
            match result {
                Ok(value) => {
                    &&& gives(parse_call(old(self).ts(), old(self).at()), value@, final(self).at())
                    &&& final(self).follows(old(self))
                    &&& !at_end(old(self).ts(), old(self).at()) ==> final(self).current > old(self).current
                },
                Err(error) => fails(parse_call(old(self).ts(), old(self).at()), error@),
            },
        decreases left(old(self).ts(), old(self).at()), 11int,
    {
        let ghost ts = self.ts();
        let mut expr = self.primary()?;
        let ghost first = expr@;
        let ghost from = self.at();
        loop
            invariant
                self.wf(),
                self.follows(old(self)),
                self.ts() == ts,
                ts == old(self).ts(),
                self.current > 0,
                self.current >= from >= old(self).current,
                !at_end(ts, old(self).at()) ==> self.current > old(self).current,
                parse_call(ts, old(self).at()) == call_rest(ts, first, from),
                call_rest(ts, first, from) == call_rest(ts, expr@, self.at()),
            decreases left(ts, self.at()),
        {
            if self.match_kind(&TokenKind::LeftParen) {
                match expr {
                    Expr::Variable { name, span } => {
                        let args = self.expressions(&TokenKind::RightParen)?;
                        let right = self.consume(&TokenKind::RightParen, "`)`")?;
                        expr = Expr::Call { callee: name, args, span: join(span, right) };
                    },
                    _ => {
                        return Err(self.no_name("function name"));
                    },
                }
            } else if self.match_kind(&TokenKind::Dot) {
                match expr {
                    Expr::Variable { name, span } => {
                        let member = self.name("member name")?;
                        let mut dotted = name;
                        dotted.append(".");
                        dotted.append(member.as_str());
                        let end = self.previous_span();
                        expr = Expr::Variable { name: dotted, span: join(span, end) };
                    },
                    _ => {
                        return Err(self.no_name("module name"));
                    },
                }
            } else if self.match_kind(&TokenKind::LeftBracket) {
                let index = self.expression()?;
                let right = self.consume(&TokenKind::RightBracket, "`]`")?;
                let span = join(expr.span(), right);
                expr = Expr::Index { target: Box::new(expr), index: Box::new(index), span };
            } else {
                return Ok(expr);
            }
        }
    }

    /// Parses a literal, a name, a function literal, or an expression in brackets.
    fn primary(&mut self) -> (result: Result<Expr, CompileError>)
        requires
            old(self).wf(),
            old(self).current > 0 || !at_end(old(self).ts(), old(self).at()),
        ensures
            match result {
                Ok(value) => {
                    &&& gives(parse_primary(old(self).ts(), old(self).at()), value@, final(self).at())
                    &&& final(self).follows(old(self))
                    &&& !at_end(old(self).ts(), old(self).at()) ==> final(self).current > old(self).current
                },
                Err(error) => fails(parse_primary(old(self).ts(), old(self).at()), error@),
            },
        decreases left(old(self).ts(), old(self).at()), 9int,
    {
        let ended = self.is_at_end();
        self.advance();
        let token = self.previous();
        let span = token.span;
        match token.kind {
            TokenKind::Integer(value) => Ok(Expr::Literal { value: Literal::Int(value), span }),
            TokenKind::String(value) => Ok(Expr::Literal { value: Literal::String(value), span }),
            TokenKind::True => Ok(Expr::Literal { value: Literal::Bool(true), span }),
            TokenKind::False => Ok(Expr::Literal { value: Literal::Bool(false), span }),
            TokenKind::Nil => Ok(Expr::Literal { value: Literal::Nil, span }),
            TokenKind::Identifier(name) => Ok(Expr::Variable { name, span }),
            TokenKind::Fn => {
                let params = self.signature()?;
                let (body, end) = self.block()?;
                Ok(Expr::Function { params, body, span: join(span, end) })
            },
            TokenKind::LeftParen => {
                if ended {
                    return Err(CompileError::new(CompileErrorKind::ExpectedExpression, Some(span)));
                }
                let expr = self.expression()?;
                let right = self.consume(&TokenKind::RightParen, "`)`")?;
                Ok(Expr::Grouping { expr: Box::new(expr), span: join(span, right) })
            },
            TokenKind::LeftBracket => {
                if ended {
                    return Err(CompileError::new(CompileErrorKind::ExpectedExpression, Some(span)));
                }
                let elements = self.expressions(&TokenKind::RightBracket)?;
                let right = self.consume(&TokenKind::RightBracket, "`]`")?;
                Ok(Expr::Array { elements, span: join(span, right) })
            },
            TokenKind::LeftBrace => {
                if ended {
                    return Err(CompileError::new(CompileErrorKind::ExpectedExpression, Some(span)));
                }
                let entries = self.entries()?;
                let right = self.consume(&TokenKind::RightBrace, "`}`")?;
                Ok(Expr::MapLiteral { entries, span: join(span, right) })
            },
            TokenKind::Eof => Err(
                CompileError::new(CompileErrorKind::ExpectedExpression, Some(span)),
            ),
            found => Err(unexpected_token("expression", &found, span)),
        }
    }

    /// Parses expressions separated by commas, up to a closing bracket.
    fn expressions(&mut self, close: &TokenKind) -> (result: Result<Vec<Expr>, CompileError>)
        requires
            old(self).wf(),
            old(self).current > 0,
            is_simple(close@),
        ensures
            match result {
                Ok(value) => {
                    &&& gives(parse_exprs(old(self).ts(), old(self).at(), close@), expr_views(value@), final(self).at())
                    &&& final(self).follows(old(self))
                },
                Err(error) => fails(parse_exprs(old(self).ts(), old(self).at(), close@), error@),
            },
        decreases left(old(self).ts(), old(self).at()), 23int,
    {
        let mut exprs: Vec<Expr> = Vec::new();
        let ghost ts = self.ts();
        let ghost from = self.at();
        assert(expr_views(exprs@) =~= Seq::empty());
        if self.check(close) {
            return Ok(exprs);
        }
        proof {
            lemma_empty_front(expr_list(ts, from));
        }
        loop
            invariant
                self.wf(),
                self.follows(old(self)),
                self.ts() == ts,
                ts == old(self).ts(),
                from == old(self).at(),
                self.current > 0,
                parse_exprs(ts, from, close@) == expr_list(ts, from),
                expr_list(ts, from) == with_front(expr_views(exprs@), expr_list(ts, self.at())),
            decreases left(ts, self.at()),
        {
            let ghost before = expr_views(exprs@);
            let ghost p = self.at();
            let expr = self.expression()?;
            let ghost q = self.at();
            exprs.push(expr);
            assert(expr_views(exprs@) =~= before.push(expr@));
            let comma = self.match_kind(&TokenKind::Comma);
            proof {
                if comma {
                    lemma_push_front(before, expr@, expr_list(ts, q + 1));
                }
                assert(before.push(expr@) =~= before + seq![expr@]);
            }
            if !comma {
                return Ok(exprs);
            }
        }
    }

    /// Parses key/value pairs separated by commas, up to a closing brace.
    fn entries(&mut self) -> (result: Result<Vec<(Expr, Expr)>, CompileError>)
        requires
            old(self).wf(),
            old(self).current > 0,
        ensures
            match result {
                Ok(value) => {
                    &&& gives(parse_entries(old(self).ts(), old(self).at()), entry_views(value@), final(self).at())
                    &&& final(self).follows(old(self))
                },
                Err(error) => fails(parse_entries(old(self).ts(), old(self).at()), error@),
            },
        decreases left(old(self).ts(), old(self).at()), 23int,
    {
        let mut entries: Vec<(Expr, Expr)> = Vec::new();
        let ghost ts = self.ts();
        let ghost from = self.at();
        assert(entry_views(entries@) =~= Seq::empty());
        if self.check(&TokenKind::RightBrace) {
            return Ok(entries);
        }
        proof {
            lemma_empty_front(entry_list(ts, from));
        }
        loop
            invariant
                self.wf(),
                self.follows(old(self)),
                self.ts() == ts,
                ts == old(self).ts(),
                from == old(self).at(),
                self.current > 0,
                parse_entries(ts, from) == entry_list(ts, from),
                entry_list(ts, from) == with_front(
                    entry_views(entries@),
                    entry_list(ts, self.at()),
                ),
            decreases left(ts, self.at()),
        {
            let ghost before = entry_views(entries@);
            let ghost p = self.at();
            let key = self.expression()?;
            self.consume(&TokenKind::Colon, "`:`")?;
            let value = self.expression()?;
            let ghost pair = (key@, value@);
            let ghost q = self.at();
            entries.push((key, value));
            assert(entry_views(entries@) =~= before.push(pair));
            let comma = self.match_kind(&TokenKind::Comma);
            proof {
                if comma {
                    lemma_push_front(before, pair, entry_list(ts, q + 1));
                }
                assert(before.push(pair) =~= before + seq![pair]);
            }
            if !comma {
                return Ok(entries);
            }
        }
    }

    /// Parses a parameter list in parentheses.
    fn signature(&mut self) -> (result: Result<Vec<String>, CompileError>)
        requires
            old(self).wf(),
        ensures
            match result {
                Ok(value) => {
                    &&& gives(parse_signature(old(self).ts(), old(self).at()), string_views(value@), final(self).at())
                    &&& final(self).follows(old(self))
                    &&& final(self).current > old(self).current
                },
                Err(error) => fails(parse_signature(old(self).ts(), old(self).at()), error@),
            },
    {
        self.consume(&TokenKind::LeftParen, "`(`")?;
        let mut params: Vec<String> = Vec::new();
        let ghost ts = self.ts();
        let ghost from = self.at();
        assert(string_views(params@) =~= Seq::empty());
        if !self.check(&TokenKind::RightParen) {
            proof {
                lemma_empty_front(param_list(ts, from));
            }
            let mut more: bool = true;
            while more
                invariant
                    self.wf(),
                    self.follows(old(self)),
                    self.ts() == ts,
                    ts == old(self).ts(),
                    self.current > 0,
                    self.current > old(self).current,
                    expect(ts, old(self).at(), TokenKindView::LeftParen, "`(`"@) matches Ok((_, q))
                        && q == from,
                    !(kind_at(ts, from) is RightParen),
                    more ==> param_list(ts, from) == with_front(
                        string_views(params@),
                        param_list(ts, self.at()),
                    ),
                    !more ==> gives(param_list(ts, from), string_views(params@), self.at()),
                decreases left(ts, self.at()), (if more { 1int } else { 0 }),
            {
                let ghost before = string_views(params@);
                let param = self.name("parameter name")?;
                let ghost name = param@;
                let ghost q = self.at();
                params.push(param);
                assert(string_views(params@) =~= before.push(name));
                more = self.match_kind(&TokenKind::Comma);
                proof {
                    if more {
                        lemma_push_front(before, name, param_list(ts, q + 1));
                    }
                    assert(before.push(name) =~= before + seq![name]);
                }
            }
        }
        self.consume(&TokenKind::RightParen, "`)`")?;
        Ok(params)
    }

    /// Takes a token that must be an identifier.
    fn name(&mut self, expected: &str) -> (result: Result<String, CompileError>)
        requires
            old(self).wf(),
            old(self).current > 0,
        ensures
            final(self).follows(old(self)),
            final(self).current == step(old(self).ts(), old(self).at()),
            match result {
                Ok(name) => gives(expect_name(old(self).ts(), old(self).at(), expected@), name@, final(self).at()),
                Err(error) => fails(expect_name(old(self).ts(), old(self).at(), expected@), error@),
            },
    {
        self.advance();
        let token = self.previous();
        match token.kind {
            TokenKind::Identifier(name) => Ok(name),
            found => Err(unexpected_token(expected, &found, token.span)),
        }
    }

    /// Takes a token of a required kind and returns its span.
    fn consume(&mut self, kind: &TokenKind, expected: &str) -> (result: Result<
        SourceSpan,
        CompileError,
    >)
        requires
            old(self).wf(),
            is_simple(kind@),
            !(kind@ is Eof),
        ensures
            match result {
                Ok(span) => {
                    &&& gives(expect(old(self).ts(), old(self).at(), kind@, expected@), span, final(self).at())
                    &&& final(self).follows(old(self))
                    &&& final(self).current == old(self).current + 1
                },
                Err(error) => fails(expect(old(self).ts(), old(self).at(), kind@, expected@), error@),
            },
    {
        if self.check(kind) {
            self.advance();
            Ok(self.previous_span())
        } else {
            Err(self.unexpected(expected))
        }
    }

    /// Takes the token at the position where it has the given kind.
    fn match_kind(&mut self, kind: &TokenKind) -> (found: bool)
        requires
            old(self).wf(),
            is_simple(kind@),
            !(kind@ is Eof),
        ensures
            final(self).follows(old(self)),
            found == (kind_at(old(self).ts(), old(self).at()) == kind@),
            final(self).current == old(self).current + if found {
                1int
            } else {
                0
            },
    {
        if self.check(kind) {
            self.advance();
            true
        } else {
            false
        }
    }

    /// Whether the token at the position has the given kind.
    fn check(&self, kind: &TokenKind) -> (found: bool)
        requires
            self.wf(),
            is_simple(kind@),
        ensures
            found == (kind_at(self.ts(), self.at()) == kind@),
    {
        token_kind_eq(&self.tokens[self.current].kind, kind)
    }

    /// The operator of a level at the position.
    fn peek_operator(&self, level: u8) -> (op: Option<BinaryOp>)
        requires
            self.wf(),
            level < 4,
        ensures
            op == operator(level as nat, kind_at(self.ts(), self.at())),
    {
        let kind = &self.tokens[self.current].kind;
        assert(self.ts()[self.at()] == self.tokens@[self.at()]@);
        match level {
            0 => match kind {
                TokenKind::EqualEqual => Some(BinaryOp::Equal),
                TokenKind::BangEqual => Some(BinaryOp::NotEqual),
                _ => None,
            },
            1 => match kind {
                TokenKind::Less => Some(BinaryOp::Less),
                TokenKind::LessEqual => Some(BinaryOp::LessEqual),
                TokenKind::Greater => Some(BinaryOp::Greater),
                TokenKind::GreaterEqual => Some(BinaryOp::GreaterEqual),
                _ => None,
            },
            2 => match kind {
                TokenKind::Plus => Some(BinaryOp::Add),
                TokenKind::Minus => Some(BinaryOp::Sub),
                _ => None,
            },
            _ => match kind {
                TokenKind::Star => Some(BinaryOp::Mul),
                TokenKind::Slash => Some(BinaryOp::Div),
                _ => None,
            },
        }
    }

    /// Moves behind the token at the position, but not behind the end of the file.
    fn advance(&mut self)
        requires
            old(self).wf(),
        ensures
            final(self).follows(old(self)),
            final(self).current == step(old(self).ts(), old(self).at()),
    {
        if !self.is_at_end() {
            assert(self.tokens.len() == self.tokens@.len());
            self.current = self.current + 1;
        }
    }

    /// Whether the end of the file is at the position.
    fn is_at_end(&self) -> (end: bool)
        requires
            self.wf(),
        ensures
            end == at_end(self.ts(), self.at()),
            self.current < self.ts().len(),
    {
        assert(self.ts()[self.at()] == self.tokens@[self.at()]@);
        matches!(self.tokens[self.current].kind, TokenKind::Eof)
    }

    /// The token before the position.
    fn previous(&self) -> (token: Token)
        requires
            self.wf(),
            self.current > 0,
        ensures
            token@ == self.ts()[self.current - 1],
    {
        self.tokens[self.current - 1].clone()
    }

    /// The span of the token before the position.
    fn previous_span(&self) -> (span: SourceSpan)
        requires
            self.wf(),
            self.current > 0,
        ensures
            span == self.ts()[self.current - 1].span,
    {
        self.tokens[self.current - 1].span
    }

    /// The error of the token at the position.
    fn unexpected(&self, expected: &str) -> (error: CompileError)
        requires
            self.wf(),
        ensures
            error@ == unexpected(expected@, self.ts()[self.at()]),
    {
        let token = &self.tokens[self.current];
        assert(token@ == self.ts()[self.at()]);
        unexpected_token(expected, &token.kind, token.span)
    }

    /// The error of a call or member access behind something other than a name.
    fn no_name(&self, expected: &str) -> (error: CompileError)
        requires
            self.wf(),
            self.current > 0,
        ensures
            error@ == failure(
                CompileErrorKindView::UnexpectedToken {
                    expected: expected@,
                    found: "expression"@,
                },
                self.ts()[self.current - 1].span,
            ),
    {
        CompileError::new(
            CompileErrorKind::UnexpectedToken {
                expected: String::from_str(expected),
                found: String::from_str("expression"),
            },
            Some(self.previous_span()),
        )
    }
}

/// The error of a token that stands where something else is expected.
fn unexpected_token(expected: &str, found: &TokenKind, span: SourceSpan) -> (error: CompileError)
    ensures
        error@ == unexpected(expected@, TokenView { kind: found@, span }),
{
    CompileError::new(
        CompileErrorKind::UnexpectedToken {
            expected: String::from_str(expected),
            found: found.describe(),
        },
        Some(span),
    )
}

fn binary(lhs: Expr, op: BinaryOp, rhs: Expr) -> (expr: Expr)
    ensures
        expr@ == binary_expr(lhs@, op, rhs@),
{
    let span = join(lhs.span(), rhs.span());
    Expr::Binary { op, lhs: Box::new(lhs), rhs: Box::new(rhs), span }
}

fn join(start: SourceSpan, end: SourceSpan) -> (span: SourceSpan)
    ensures
        span == joined(start, end),
{
    SourceSpan::new(start.file_id, start.start, end.end)
}

/// A token kind without a payload.
pub open spec fn is_simple(kind: TokenKindView) -> bool {
    !(kind is Identifier) && !(kind is Integer) && !(kind is Text)
}

/// Whether two tokens are of one kind.
fn token_kind_eq(lhs: &TokenKind, rhs: &TokenKind) -> (same: bool)
    requires
        is_simple(rhs@),
    ensures
        same == (lhs@ == rhs@),
{
    match lhs {
        TokenKind::Identifier(_) => false,
        TokenKind::Integer(_) => false,
        TokenKind::String(_) => false,
        TokenKind::Let => matches!(rhs, TokenKind::Let),
        TokenKind::Fn => matches!(rhs, TokenKind::Fn),
        TokenKind::Export => matches!(rhs, TokenKind::Export),
        TokenKind::Import => matches!(rhs, TokenKind::Import),
        TokenKind::If => matches!(rhs, TokenKind::If),
        TokenKind::Else => matches!(rhs, TokenKind::Else),
        TokenKind::While => matches!(rhs, TokenKind::While),
        TokenKind::Return => matches!(rhs, TokenKind::Return),
        TokenKind::Throw => matches!(rhs, TokenKind::Throw),
        TokenKind::Try => matches!(rhs, TokenKind::Try),
        TokenKind::Catch => matches!(rhs, TokenKind::Catch),
        TokenKind::True => matches!(rhs, TokenKind::True),
        TokenKind::False => matches!(rhs, TokenKind::False),
        TokenKind::Nil => matches!(rhs, TokenKind::Nil),
        TokenKind::Plus => matches!(rhs, TokenKind::Plus),
        TokenKind::Minus => matches!(rhs, TokenKind::Minus),
        TokenKind::Star => matches!(rhs, TokenKind::Star),
        TokenKind::Slash => matches!(rhs, TokenKind::Slash),
        TokenKind::Equal => matches!(rhs, TokenKind::Equal),
        TokenKind::EqualEqual => matches!(rhs, TokenKind::EqualEqual),
        TokenKind::BangEqual => matches!(rhs, TokenKind::BangEqual),
        TokenKind::Less => matches!(rhs, TokenKind::Less),
        TokenKind::LessEqual => matches!(rhs, TokenKind::LessEqual),
        TokenKind::Greater => matches!(rhs, TokenKind::Greater),
        TokenKind::GreaterEqual => matches!(rhs, TokenKind::GreaterEqual),
        TokenKind::LeftParen => matches!(rhs, TokenKind::LeftParen),
        TokenKind::RightParen => matches!(rhs, TokenKind::RightParen),
        TokenKind::LeftBrace => matches!(rhs, TokenKind::LeftBrace),
        TokenKind::RightBrace => matches!(rhs, TokenKind::RightBrace),
        TokenKind::LeftBracket => matches!(rhs, TokenKind::LeftBracket),
        TokenKind::RightBracket => matches!(rhs, TokenKind::RightBracket),
        TokenKind::Colon => matches!(rhs, TokenKind::Colon),
        TokenKind::Dot => matches!(rhs, TokenKind::Dot),
        TokenKind::Comma => matches!(rhs, TokenKind::Comma),
        TokenKind::Semicolon => matches!(rhs, TokenKind::Semicolon),
        TokenKind::Eof => matches!(rhs, TokenKind::Eof),
    }
}

/// The name of an expression form in diagnostics.
fn target_description(expr: &Expr) -> (name: &'static str)
    ensures
        name@ == form_name(expr@),
{
    match expr {
        Expr::Literal { .. } => "literal",
        Expr::Variable { .. } => "variable",
        Expr::Binary { .. } => "binary expression",
        Expr::Call { .. } => "function call",
        Expr::Function { .. } => "function literal",
        Expr::Index { .. } => "index expression",
        Expr::Array { .. } => "array literal",
        Expr::MapLiteral { .. } => "map literal",
        Expr::Grouping { .. } => "grouping expression",
    }
}

/// Nothing before a list leaves it as it is.
proof fn lemma_empty_front<V>(rest: Parsed<Seq<V>>)
    ensures
        with_front(Seq::empty(), rest) == rest,
{
    if let Ok((list, p)) = rest {
        assert(Seq::empty() + list =~= list);
    }
}

/// One more element before a list.
proof fn lemma_push_front<V>(front: Seq<V>, item: V, rest: Parsed<Seq<V>>)
    ensures
        with_front(front, with_front(seq![item], rest)) == with_front(front.push(item), rest),
{
    if let Ok((list, p)) = rest {
        assert(front + (seq![item] + list) =~= front.push(item) + list);
    }
}

} // verus!
