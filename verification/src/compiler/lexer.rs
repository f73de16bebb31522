//! Lexer: turns source text into tokens with byte-based source spans.
//!
//! Handles keywords, identifiers, integer literals, strings with escapes and punctuation, and
//! reports invalid characters as compile errors.

use vstd::prelude::*;
use vstd::string::{StringExecFns, StringSliceAdditionalSpecFns};
use vstd::utf8::{encode_scalar, encode_utf8};

use crate::compiler::error::{
    CompileError, CompileErrorKind, CompileErrorKindView, CompileErrorView,
};
use crate::diagnostics::span::{FileId, SourceSpan};
use crate::text::{characters, push_signed_decimal, signed_decimal, str_equal};

verus! {

/// One lexical token with its original source span.
#[derive(Debug, PartialEq, Eq)]
pub struct Token {
    /// Token category and any literal payload.
    pub kind: TokenKind,
    /// Byte span in the source file.
    pub span: SourceSpan,
}

/// Token categories.
#[derive(Debug, PartialEq, Eq)]
pub enum TokenKind {
    Identifier(String),
    Integer(i64),
    String(String),
    Let,
    Fn,
    Export,
    Import,
    If,
    Else,
    While,
    Return,
    Throw,
    Try,
    Catch,
    True,
    False,
    Nil,
    Plus,
    Minus,
    Star,
    Slash,
    Equal,
    EqualEqual,
    BangEqual,
    Less,
    LessEqual,
    Greater,
    GreaterEqual,
    LeftParen,
    RightParen,
    LeftBrace,
    RightBrace,
    LeftBracket,
    RightBracket,
    Colon,
    Dot,
    Comma,
    Semicolon,
    Eof,
}

/// The mathematical content of a token category.
pub enum TokenKindView {
    Identifier(Seq<char>),
    Integer(i64),
    Text(Seq<char>),
    Let,
    Fn,
    Export,
    Import,
    If,
    Else,
    While,
    Return,
    Throw,
    Try,
    Catch,
    True,
    False,
    Nil,
    Plus,
    Minus,
    Star,
    Slash,
    Equal,
    EqualEqual,
    BangEqual,
    Less,
    LessEqual,
    Greater,
    GreaterEqual,
    LeftParen,
    RightParen,
    LeftBrace,
    RightBrace,
    LeftBracket,
    RightBracket,
    Colon,
    Dot,
    Comma,
    Semicolon,
    Eof,
}

/// The mathematical content of a token.
pub struct TokenView {
    pub kind: TokenKindView,
    pub span: SourceSpan,
}

impl View for TokenKind {
    type V = TokenKindView;

    open spec fn view(&self) -> TokenKindView {
        match self {
            TokenKind::Identifier(name) => TokenKindView::Identifier(name@),
            TokenKind::Integer(value) => TokenKindView::Integer(*value),
            TokenKind::String(value) => TokenKindView::Text(value@),
            TokenKind::Let => TokenKindView::Let,
            TokenKind::Fn => TokenKindView::Fn,
            TokenKind::Export => TokenKindView::Export,
            TokenKind::Import => TokenKindView::Import,
            TokenKind::If => TokenKindView::If,
            TokenKind::Else => TokenKindView::Else,
            TokenKind::While => TokenKindView::While,
            TokenKind::Return => TokenKindView::Return,
            TokenKind::Throw => TokenKindView::Throw,
            TokenKind::Try => TokenKindView::Try,
            TokenKind::Catch => TokenKindView::Catch,
            TokenKind::True => TokenKindView::True,
            TokenKind::False => TokenKindView::False,
            TokenKind::Nil => TokenKindView::Nil,
            TokenKind::Plus => TokenKindView::Plus,
            TokenKind::Minus => TokenKindView::Minus,
            TokenKind::Star => TokenKindView::Star,
            TokenKind::Slash => TokenKindView::Slash,
            TokenKind::Equal => TokenKindView::Equal,
            TokenKind::EqualEqual => TokenKindView::EqualEqual,
            TokenKind::BangEqual => TokenKindView::BangEqual,
            TokenKind::Less => TokenKindView::Less,
            TokenKind::LessEqual => TokenKindView::LessEqual,
            TokenKind::Greater => TokenKindView::Greater,
            TokenKind::GreaterEqual => TokenKindView::GreaterEqual,
            TokenKind::LeftParen => TokenKindView::LeftParen,
            TokenKind::RightParen => TokenKindView::RightParen,
            TokenKind::LeftBrace => TokenKindView::LeftBrace,
            TokenKind::RightBrace => TokenKindView::RightBrace,
            TokenKind::LeftBracket => TokenKindView::LeftBracket,
            TokenKind::RightBracket => TokenKindView::RightBracket,
            TokenKind::Colon => TokenKindView::Colon,
            TokenKind::Dot => TokenKindView::Dot,
            TokenKind::Comma => TokenKindView::Comma,
            TokenKind::Semicolon => TokenKindView::Semicolon,
            TokenKind::Eof => TokenKindView::Eof,
        }
    }
}

impl View for Token {
    type V = TokenView;

    open spec fn view(&self) -> TokenView {
        TokenView { kind: self.kind@, span: self.span }
    }
}

/// The contents of a token list.
pub open spec fn token_views(tokens: Seq<Token>) -> Seq<TokenView> {
    Seq::new(tokens.len(), |i: int| tokens[i]@)
}

impl Clone for TokenKind {
    fn clone(&self) -> (copy: Self)
        ensures
            copy@ == self@,
    {
        match self {
            TokenKind::Identifier(name) => TokenKind::Identifier(name.clone()),
            TokenKind::Integer(value) => TokenKind::Integer(*value),
            TokenKind::String(value) => TokenKind::String(value.clone()),
            TokenKind::Let => TokenKind::Let,
            TokenKind::Fn => TokenKind::Fn,
            TokenKind::Export => TokenKind::Export,
            TokenKind::Import => TokenKind::Import,
            TokenKind::If => TokenKind::If,
            TokenKind::Else => TokenKind::Else,
            TokenKind::While => TokenKind::While,
            TokenKind::Return => TokenKind::Return,
            TokenKind::Throw => TokenKind::Throw,
            TokenKind::Try => TokenKind::Try,
            TokenKind::Catch => TokenKind::Catch,
            TokenKind::True => TokenKind::True,
            TokenKind::False => TokenKind::False,
            TokenKind::Nil => TokenKind::Nil,
            TokenKind::Plus => TokenKind::Plus,
            TokenKind::Minus => TokenKind::Minus,
            TokenKind::Star => TokenKind::Star,
            TokenKind::Slash => TokenKind::Slash,
            TokenKind::Equal => TokenKind::Equal,
            TokenKind::EqualEqual => TokenKind::EqualEqual,
            TokenKind::BangEqual => TokenKind::BangEqual,
            TokenKind::Less => TokenKind::Less,
            TokenKind::LessEqual => TokenKind::LessEqual,
            TokenKind::Greater => TokenKind::Greater,
            TokenKind::GreaterEqual => TokenKind::GreaterEqual,
            TokenKind::LeftParen => TokenKind::LeftParen,
            TokenKind::RightParen => TokenKind::RightParen,
            TokenKind::LeftBrace => TokenKind::LeftBrace,
            TokenKind::RightBrace => TokenKind::RightBrace,
            TokenKind::LeftBracket => TokenKind::LeftBracket,
            TokenKind::RightBracket => TokenKind::RightBracket,
            TokenKind::Colon => TokenKind::Colon,
            TokenKind::Dot => TokenKind::Dot,
            TokenKind::Comma => TokenKind::Comma,
            TokenKind::Semicolon => TokenKind::Semicolon,
            TokenKind::Eof => TokenKind::Eof,
        }
    }
}

impl Clone for Token {
    fn clone(&self) -> (copy: Self)
        ensures
            copy@ == self@,
    {
        Token { kind: self.kind.clone(), span: self.span }
    }
}

impl TokenKindView {
    /// The description of a token in parser diagnostics.
    pub open spec fn description(self) -> Seq<char> {
        match self {
            TokenKindView::Identifier(name) => "identifier `"@ + name + "`"@,
            TokenKindView::Integer(value) => "integer `"@ + signed_decimal(value as int) + "`"@,
            TokenKindView::Text(_) => "string literal"@,
            TokenKindView::Let => "`let`"@,
            TokenKindView::Fn => "`fn`"@,
            TokenKindView::Export => "`export`"@,
            TokenKindView::Import => "`import`"@,
            TokenKindView::If => "`if`"@,
            TokenKindView::Else => "`else`"@,
            TokenKindView::While => "`while`"@,
            TokenKindView::Return => "`return`"@,
            TokenKindView::Throw => "`throw`"@,
            TokenKindView::Try => "`try`"@,
            TokenKindView::Catch => "`catch`"@,
            TokenKindView::True => "`true`"@,
            TokenKindView::False => "`false`"@,
            TokenKindView::Nil => "`nil`"@,
            TokenKindView::Plus => "`+`"@,
            TokenKindView::Minus => "`-`"@,
            TokenKindView::Star => "`*`"@,
            TokenKindView::Slash => "`/`"@,
            TokenKindView::Equal => "`=`"@,
            TokenKindView::EqualEqual => "`==`"@,
            TokenKindView::BangEqual => "`!=`"@,
            TokenKindView::Less => "`<`"@,
            TokenKindView::LessEqual => "`<=`"@,
            TokenKindView::Greater => "`>`"@,
            TokenKindView::GreaterEqual => "`>=`"@,
            TokenKindView::LeftParen => "`(`"@,
            TokenKindView::RightParen => "`)`"@,
            TokenKindView::LeftBrace => "`{`"@,
            TokenKindView::RightBrace => "`}`"@,
            TokenKindView::LeftBracket => "`[`"@,
            TokenKindView::RightBracket => "`]`"@,
            TokenKindView::Colon => "`:`"@,
            TokenKindView::Dot => "`.`"@,
            TokenKindView::Comma => "`,`"@,
            TokenKindView::Semicolon => "`;`"@,
            TokenKindView::Eof => "end of file"@,
        }
    }
}

impl TokenKind {
    /// Returns a human-readable token description for parser diagnostics.
    pub fn describe(&self) -> (s: String)
        ensures
            s@ == self@.description(),
    {
        match self {
            TokenKind::Identifier(name) => {
                let mut s = String::from_str("identifier `");
                s.append(name.as_str());
                s.append("`");
                s
            },
            TokenKind::Integer(value) => {
                let mut s = String::from_str("integer `");
                push_signed_decimal(&mut s, *value);
                s.append("`");
                s
            },
            TokenKind::String(_) => String::from_str("string literal"),
            TokenKind::Let => String::from_str("`let`"),
            TokenKind::Fn => String::from_str("`fn`"),
            TokenKind::Export => String::from_str("`export`"),
            TokenKind::Import => String::from_str("`import`"),
            TokenKind::If => String::from_str("`if`"),
            TokenKind::Else => String::from_str("`else`"),
            TokenKind::While => String::from_str("`while`"),
            TokenKind::Return => String::from_str("`return`"),
            TokenKind::Throw => String::from_str("`throw`"),
            TokenKind::Try => String::from_str("`try`"),
            TokenKind::Catch => String::from_str("`catch`"),
            TokenKind::True => String::from_str("`true`"),
            TokenKind::False => String::from_str("`false`"),
            TokenKind::Nil => String::from_str("`nil`"),
            TokenKind::Plus => String::from_str("`+`"),
            TokenKind::Minus => String::from_str("`-`"),
            TokenKind::Star => String::from_str("`*`"),
            TokenKind::Slash => String::from_str("`/`"),
            TokenKind::Equal => String::from_str("`=`"),
            TokenKind::EqualEqual => String::from_str("`==`"),
            TokenKind::BangEqual => String::from_str("`!=`"),
            TokenKind::Less => String::from_str("`<`"),
            TokenKind::LessEqual => String::from_str("`<=`"),
            TokenKind::Greater => String::from_str("`>`"),
            TokenKind::GreaterEqual => String::from_str("`>=`"),
            TokenKind::LeftParen => String::from_str("`(`"),
            TokenKind::RightParen => String::from_str("`)`"),
            TokenKind::LeftBrace => String::from_str("`{`"),
            TokenKind::RightBrace => String::from_str("`}`"),
            TokenKind::LeftBracket => String::from_str("`[`"),
            TokenKind::RightBracket => String::from_str("`]`"),
            TokenKind::Colon => String::from_str("`:`"),
            TokenKind::Dot => String::from_str("`.`"),
            TokenKind::Comma => String::from_str("`,`"),
            TokenKind::Semicolon => String::from_str("`;`"),
            TokenKind::Eof => String::from_str("end of file"),
        }
    }
}

// ---------------------------------------------------------------------------
// What the tokens of a text are
// ---------------------------------------------------------------------------

/// The byte offset of character `i` of a text.
pub open spec fn offset(text: Seq<char>, i: int) -> nat {
    encode_utf8(text.take(i)).len()
}

/// The byte span of the characters `[i, j)` of a text.
pub open spec fn span_of(text: Seq<char>, i: int, j: int, file_id: FileId) -> SourceSpan {
    SourceSpan { file_id, start: offset(text, i) as usize, end: offset(text, j) as usize }
}

pub open spec fn is_space(c: char) -> bool {
    c == ' ' || c == '\r' || c == '\t' || c == '\n'
}

pub open spec fn is_digit(c: char) -> bool {
    '0' <= c <= '9'
}

/// A character that can begin a name.
pub open spec fn is_name_start(c: char) -> bool {
    'a' <= c <= 'z' || 'A' <= c <= 'Z' || c == '_'
}

/// A character that can continue a name.
pub open spec fn is_name_part(c: char) -> bool {
    is_name_start(c) || is_digit(c)
}

/// The end of the run of digits that begins at `i`.
pub open spec fn digits_end(text: Seq<char>, i: int) -> int
    decreases text.len() - i,
{
    if 0 <= i < text.len() && is_digit(text[i]) {
        digits_end(text, i + 1)
    } else {
        i
    }
}

/// The end of the run of name characters that begins at `i`.
pub open spec fn name_end(text: Seq<char>, i: int) -> int
    decreases text.len() - i,
{
    if 0 <= i < text.len() && is_name_part(text[i]) {
        name_end(text, i + 1)
    } else {
        i
    }
}

/// The number that a run of digits writes.
pub open spec fn number(digits: Seq<char>) -> nat
    decreases digits.len(),
{
    if digits.len() == 0 {
        0
    } else {
        (number(digits.drop_last()) * 10 + (digits.last() as nat - '0' as nat)) as nat
    }
}

/// The keyword or identifier that a name is.
pub open spec fn word_kind(word: Seq<char>) -> TokenKindView {
    if word == "let"@ {
        TokenKindView::Let
    } else if word == "fn"@ {
        TokenKindView::Fn
    } else if word == "export"@ {
        TokenKindView::Export
    } else if word == "import"@ {
        TokenKindView::Import
    } else if word == "if"@ {
        TokenKindView::If
    } else if word == "else"@ {
        TokenKindView::Else
    } else if word == "while"@ {
        TokenKindView::While
    } else if word == "return"@ {
        TokenKindView::Return
    } else if word == "throw"@ {
        TokenKindView::Throw
    } else if word == "try"@ {
        TokenKindView::Try
    } else if word == "catch"@ {
        TokenKindView::Catch
    } else if word == "true"@ {
        TokenKindView::True
    } else if word == "false"@ {
        TokenKindView::False
    } else if word == "nil"@ {
        TokenKindView::Nil
    } else {
        TokenKindView::Identifier(word)
    }
}

/// The character that an escape stands for.
pub open spec fn escaped(c: char) -> Option<char> {
    if c == '"' {
        Some('"')
    } else if c == '\\' {
        Some('\\')
    } else if c == 'n' {
        Some('\n')
    } else if c == 'r' {
        Some('\r')
    } else if c == 't' {
        Some('\t')
    } else {
        None
    }
}

/// What a token attempt gives: a token kind or an error, and the end of the characters used.
pub struct Scanned {
    pub kind: Result<TokenKindView, CompileErrorKindView>,
    pub end: int,
}

/// The rest of a string literal from character `i` on, behind the content `value`.
pub open spec fn scan_string(text: Seq<char>, i: int, value: Seq<char>) -> Scanned
    decreases text.len() - i,
{
    if !(0 <= i < text.len()) || text[i] == '\n' || text[i] == '\r' {
        Scanned { kind: Err(CompileErrorKindView::UnterminatedString), end: i }
    } else if text[i] == '"' {
        Scanned { kind: Ok(TokenKindView::Text(value)), end: i + 1 }
    } else if text[i] != '\\' {
        scan_string(text, i + 1, value.push(text[i]))
    } else if i + 1 >= text.len() {
        Scanned { kind: Err(CompileErrorKindView::UnterminatedString), end: i + 1 }
    } else {
        match escaped(text[i + 1]) {
            Some(c) => scan_string(text, i + 2, value.push(c)),
            None => Scanned {
                kind: Err(CompileErrorKindView::InvalidStringEscape { escape: text[i + 1] }),
                end: i + 2,
            },
        }
    }
}

/// The integer literal in the characters `[i, j)`.
pub open spec fn integer_kind(digits: Seq<char>) -> Result<TokenKindView, CompileErrorKindView> {
    if number(digits) <= i64::MAX {
        Ok(TokenKindView::Integer(number(digits) as i64))
    } else {
        Err(CompileErrorKindView::InvalidInteger { literal: digits })
    }
}

/// The token of a character that is a token by itself.
pub open spec fn punctuation(c: char) -> Option<TokenKindView> {
    if c == '+' {
        Some(TokenKindView::Plus)
    } else if c == '-' {
        Some(TokenKindView::Minus)
    } else if c == '*' {
        Some(TokenKindView::Star)
    } else if c == '/' {
        Some(TokenKindView::Slash)
    } else if c == '(' {
        Some(TokenKindView::LeftParen)
    } else if c == ')' {
        Some(TokenKindView::RightParen)
    } else if c == '{' {
        Some(TokenKindView::LeftBrace)
    } else if c == '}' {
        Some(TokenKindView::RightBrace)
    } else if c == '[' {
        Some(TokenKindView::LeftBracket)
    } else if c == ']' {
        Some(TokenKindView::RightBracket)
    } else if c == ':' {
        Some(TokenKindView::Colon)
    } else if c == '.' {
        Some(TokenKindView::Dot)
    } else if c == ',' {
        Some(TokenKindView::Comma)
    } else if c == ';' {
        Some(TokenKindView::Semicolon)
    } else {
        None
    }
}

/// The longer token where `=` follows, and the shorter one where it does not.
pub open spec fn with_equal(
    text: Seq<char>,
    i: int,
    longer: TokenKindView,
    shorter: Result<TokenKindView, CompileErrorKindView>,
) -> Scanned {
    if i + 1 < text.len() && text[i + 1] == '=' {
        Scanned { kind: Ok(longer), end: i + 2 }
    } else {
        Scanned { kind: shorter, end: i + 1 }
    }
}

/// The token that begins with the character `i`, which is no white space.
pub open spec fn scan(text: Seq<char>, i: int) -> Scanned {
    let c = text[i];
    if is_digit(c) {
        let end = digits_end(text, i + 1);
        Scanned { kind: integer_kind(text.subrange(i, end)), end }
    } else if c == '"' {
        scan_string(text, i + 1, Seq::empty())
    } else if is_name_start(c) {
        let end = name_end(text, i + 1);
        Scanned { kind: Ok(word_kind(text.subrange(i, end))), end }
    } else if c == '=' {
        with_equal(text, i, TokenKindView::EqualEqual, Ok(TokenKindView::Equal))
    } else if c == '!' {
        with_equal(
            text,
            i,
            TokenKindView::BangEqual,
            Err(CompileErrorKindView::UnexpectedCharacter { character: '!' }),
        )
    } else if c == '<' {
        with_equal(text, i, TokenKindView::LessEqual, Ok(TokenKindView::Less))
    } else if c == '>' {
        with_equal(text, i, TokenKindView::GreaterEqual, Ok(TokenKindView::Greater))
    } else {
        match punctuation(c) {
            Some(kind) => Scanned { kind: Ok(kind), end: i + 1 },
            None => Scanned {
                kind: Err(
                    CompileErrorKindView::UnexpectedCharacter {
                        character: encode_utf8(text)[offset(text, i) as int] as char,
                    },
                ),
                end: i + 1,
            },
        }
    }
}

/// The span of an error: the first byte alone of a character that begins no token, and the
/// characters that were used otherwise.
pub open spec fn error_span(
    text: Seq<char>,
    i: int,
    end: int,
    kind: CompileErrorKindView,
    file_id: FileId,
) -> SourceSpan {
    if kind is UnexpectedCharacter {
        SourceSpan {
            file_id,
            start: offset(text, i) as usize,
            end: (offset(text, i) + 1) as usize,
        }
    } else {
        span_of(text, i, end, file_id)
    }
}

/// The tokens of a text from character `i` on, with the token for the end of the text behind
/// them, or the first error.
pub open spec fn tokens_from(text: Seq<char>, i: int, file_id: FileId) -> Result<
    Seq<TokenView>,
    CompileErrorView,
>
    decreases text.len() - i,
{
    if !(0 <= i < text.len()) {
        Ok(seq![TokenView { kind: TokenKindView::Eof, span: span_of(text, i, i, file_id) }])
    } else if is_space(text[i]) {
        tokens_from(text, i + 1, file_id)
    } else {
        let scanned = scan(text, i);
        match scanned.kind {
            Ok(kind) => {
                let next = if i < scanned.end <= text.len() {
                    scanned.end
                } else {
                    i + 1
                };
                match tokens_from(text, next, file_id) {
                    Ok(rest) => Ok(
                        seq![
                            TokenView { kind, span: span_of(text, i, scanned.end, file_id) },
                        ] + rest,
                    ),
                    Err(error) => Err(error),
                }
            },
            Err(kind) => Err(
                CompileErrorView {
                    kind,
                    span: Some(error_span(text, i, scanned.end, kind, file_id)),
                },
            ),
        }
    }
}

/// A token list put before what the rest of a text gives.
pub open spec fn prepended(
    tokens: Seq<TokenView>,
    rest: Result<Seq<TokenView>, CompileErrorView>,
) -> Result<Seq<TokenView>, CompileErrorView> {
    match rest {
        Ok(rest) => Ok(tokens + rest),
        Err(error) => Err(error),
    }
}

// ---------------------------------------------------------------------------
// Byte offsets
// ---------------------------------------------------------------------------

/// The encoding of a joined text is the joined encodings.
pub proof fn lemma_encode_joined(a: Seq<char>, b: Seq<char>)
    ensures
        encode_utf8(a + b) == encode_utf8(a) + encode_utf8(b),
    decreases a.len(),
{
    if a.len() == 0 {
        assert(a + b =~= b);
        assert(encode_utf8(a) + encode_utf8(b) =~= encode_utf8(b));
    } else {
        lemma_encode_joined(a.drop_first(), b);
        assert((a + b).drop_first() =~= a.drop_first() + b);
        assert(encode_utf8(a + b) =~= encode_utf8(a) + encode_utf8(b));
    }
}

/// The offset of the next character, and where the encoding of a character stands.
pub(crate) proof fn lemma_offset_step(text: Seq<char>, i: int)
    requires
        0 <= i < text.len(),
    ensures
        offset(text, i + 1) == offset(text, i) + encode_scalar(text[i] as u32).len(),
        offset(text, i + 1) <= encode_utf8(text).len(),
        1 <= encode_scalar(text[i] as u32).len() <= 4,
{
    let before = text.take(i);
    let this = seq![text[i]];
    let after = text.skip(i + 1);
    assert(text.take(i + 1) =~= before + this);
    assert(text =~= (before + this) + after);
    lemma_encode_joined(before, this);
    lemma_encode_joined(before + this, after);
    assert(this.drop_first() =~= Seq::empty());
    assert(encode_utf8(this) =~= encode_scalar(text[i] as u32)) by {
        reveal_with_fuel(encode_utf8, 2);
    }
}

/// The number of bytes that a character takes in a text.
fn char_width(c: char) -> (width: usize)
    ensures
        width == encode_scalar(c as u32).len(),
{
    let code: u32 = c as u32;
    if code <= 0x7F {
        1
    } else if code <= 0x7FF {
        2
    } else if code <= 0xFFFF {
        3
    } else {
        4
    }
}

// ---------------------------------------------------------------------------
// The lexer
// ---------------------------------------------------------------------------

/// A position in a source text.
struct Lexer<'a> {
    bytes: &'a [u8],
    chars: Vec<char>,
    file_id: FileId,
    /// The characters before the position.
    index: usize,
    /// The bytes before the position.
    current: usize,
}

/// Tokenizes a source string and appends an end-of-file token.
pub fn lex(source: &str, file_id: FileId) -> (result: Result<Vec<Token>, CompileError>)
    ensures
        match result {
            Ok(tokens) => tokens_from(source@, 0, file_id) == Ok::<
                Seq<TokenView>,
                CompileErrorView,
            >(token_views(tokens@)),
            Err(error) => tokens_from(source@, 0, file_id) == Err::<
                Seq<TokenView>,
                CompileErrorView,
            >(error@),
        },
{
    let lexer = Lexer {
        bytes: source.as_bytes(),
        chars: characters(source),
        file_id,
        index: 0,
        current: 0,
    };
    assert(lexer.text().take(0) =~= Seq::empty());
    assert(lexer.bytes.len() == lexer.bytes@.len());
    lexer.lex()
}

impl<'a> Lexer<'a> {
    /// The text that is read.
    spec fn text(&self) -> Seq<char> {
        self.chars@
    }

    spec fn wf(&self) -> bool {
        &&& self.bytes@ == encode_utf8(self.chars@)
        &&& self.index <= self.chars@.len()
        &&& self.current == offset(self.chars@, self.index as int)
        &&& encode_utf8(self.chars@).len() <= usize::MAX
    }

    /// The same text at another position.
    spec fn follows(&self, before: &Self) -> bool {
        &&& self.bytes == before.bytes
        &&& self.chars == before.chars
        &&& self.file_id == before.file_id
    }

    fn lex(self) -> (result: Result<Vec<Token>, CompileError>)
        requires
            self.wf(),
            self.index == 0,
        ensures
            match result {
                Ok(tokens) => tokens_from(self.text(), 0, self.file_id) == Ok::<
                    Seq<TokenView>,
                    CompileErrorView,
                >(token_views(tokens@)),
                Err(error) => tokens_from(self.text(), 0, self.file_id) == Err::<
                    Seq<TokenView>,
                    CompileErrorView,
                >(error@),
            },
    {
        let mut lexer = self;
        let mut tokens: Vec<Token> = Vec::new();
        let ghost text = self.text();
        let ghost file_id = self.file_id;
        proof {
            let all = tokens_from(text, 0, file_id);
            assert(token_views(tokens@) =~= Seq::empty());
            if all is Ok {
                assert(Seq::<TokenView>::empty() + all->Ok_0 =~= all->Ok_0);
            }
        }
        while lexer.index < lexer.chars.len()
            invariant
                lexer.wf(),
                lexer.text() == text,
                lexer.file_id == file_id,
                text == self.text(),
                file_id == self.file_id,
                tokens_from(text, 0, file_id) == prepended(
                    token_views(tokens@),
                    tokens_from(text, lexer.index as int, file_id),
                ),
            decreases lexer.chars.len() - lexer.index,
        {
            let c: char = lexer.chars[lexer.index];
            if c == ' ' || c == '\r' || c == '\t' || c == '\n' {
                lexer.advance();
            } else {
                let ghost i = lexer.index as int;
                let ghost before = token_views(tokens@);
                match lexer.token() {
                    Ok(token) => {
                        proof {
                            let rest = tokens_from(text, lexer.index as int, file_id);
                            if rest is Ok {
                                assert(before.push(token@) + rest->Ok_0 =~= before + (seq![
                                    token@,
                                ] + rest->Ok_0));
                            }
                        }
                        tokens.push(token);
                        assert(token_views(tokens@) =~= before.push(token@));
                    },
                    Err(error) => {
                        return Err(error);
                    },
                }
            }
        }
        let ghost before = token_views(tokens@);
        let eof = Token {
            kind: TokenKind::Eof,
            span: SourceSpan::new(lexer.file_id, lexer.current, lexer.current),
        };
        tokens.push(eof);
        assert(token_views(tokens@) =~= before + seq![eof@]);
        Ok(tokens)
    }

    /// Moves behind the next character.
    fn advance(&mut self)
        requires
            old(self).wf(),
            old(self).index < old(self).text().len(),
        ensures
            final(self).wf(),
            final(self).follows(old(self)),
            final(self).index == old(self).index + 1,
    {
        proof {
            lemma_offset_step(self.text(), self.index as int);
            assert(self.chars.len() == self.chars@.len());
        }
        self.current = self.current + char_width(self.chars[self.index]);
        self.index = self.index + 1;
    }

    /// Whether the next character is `c`.
    fn next_is(&self, c: char) -> (found: bool)
        requires
            self.wf(),
        ensures
            found == (self.index < self.text().len() && self.text()[self.index as int] == c),
    {
        self.index < self.chars.len() && self.chars[self.index] == c
    }

    /// The characters from `start` up to the position.
    fn slice(&self, start: usize) -> (s: String)
        requires
            self.wf(),
            start <= self.index,
        ensures
            s@ == self.text().subrange(start as int, self.index as int),
    {
        let mut s = String::new();
        let mut i: usize = start;
        while i < self.index
            invariant
                self.wf(),
                start <= i <= self.index,
                s@ == self.text().subrange(start as int, i as int),
            decreases self.index - i,
        {
            s.push(self.chars[i]);
            i = i + 1;
            assert(s@ =~= self.text().subrange(start as int, i as int));
        }
        s
    }

    /// The span from `start` up to the position.
    fn span(&self, start: usize) -> (span: SourceSpan)
        ensures
            span == (SourceSpan { file_id: self.file_id, start, end: self.current }),
    {
        SourceSpan::new(self.file_id, start, self.current)
    }

    /// Reads one token.
    fn token(&mut self) -> (result: Result<Token, CompileError>)
        requires
            old(self).wf(),
            old(self).index < old(self).text().len(),
            !is_space(old(self).text()[old(self).index as int]),
        ensures
            ({
                let text = old(self).text();
                let i = old(self).index as int;
                let scanned = scan(text, i);
                &&& final(self).follows(old(self))
                &&& match result {
                    Ok(token) => {
                        &&& final(self).wf()
                        &&& final(self).index > i
                        &&& final(self).index == scanned.end
                        &&& scanned.kind == Ok::<TokenKindView, CompileErrorKindView>(token@.kind)
                        &&& token.span == span_of(text, i, scanned.end, old(self).file_id)
                    },
                    Err(error) => {
                        &&& scanned.kind == Err::<TokenKindView, CompileErrorKindView>(error@.kind)
                        &&& error.span == Some(
                            error_span(text, i, scanned.end, error@.kind, old(self).file_id),
                        )
                    },
                }
            }),
    {
        let c: char = self.chars[self.index];
        let start: usize = self.current;
        if '0' <= c && c <= '9' {
            self.integer()
        } else if c == '"' {
            self.string()
        } else if ('a' <= c && c <= 'z') || ('A' <= c && c <= 'Z') || c == '_' {
            Ok(self.identifier())
        } else if c == '=' {
            Ok(self.double_or_single(TokenKind::EqualEqual, TokenKind::Equal))
        } else if c == '!' {
            proof {
                lemma_offset_step(self.text(), self.index as int);
            }
            self.advance();
            if self.next_is('=') {
                self.advance();
                Ok(Token { kind: TokenKind::BangEqual, span: self.span(start) })
            } else {
                Err(
                    CompileError::new(
                        CompileErrorKind::UnexpectedCharacter { character: '!' },
                        Some(self.span(start)),
                    ),
                )
            }
        } else if c == '<' {
            Ok(self.double_or_single(TokenKind::LessEqual, TokenKind::Less))
        } else if c == '>' {
            Ok(self.double_or_single(TokenKind::GreaterEqual, TokenKind::Greater))
        } else {
            self.single()
        }
    }

    /// Reads an integer literal.
    fn integer(&mut self) -> (result: Result<Token, CompileError>)
        requires
            old(self).wf(),
            old(self).index < old(self).text().len(),
            is_digit(old(self).text()[old(self).index as int]),
        ensures
            final(self).wf(),
            final(self).follows(old(self)),
            final(self).index > old(self).index,
            final(self).index == digits_end(old(self).text(), old(self).index + 1),
            ({
                let text = old(self).text();
                let i = old(self).index as int;
                let end = digits_end(text, i + 1);
                let span = span_of(text, i, end, old(self).file_id);
                match result {
                    Ok(token) => {
                        &&& integer_kind(text.subrange(i, end)) == Ok::<
                            TokenKindView,
                            CompileErrorKindView,
                        >(token@.kind)
                        &&& token.span == span
                    },
                    Err(error) => {
                        &&& integer_kind(text.subrange(i, end)) == Err::<
                            TokenKindView,
                            CompileErrorKindView,
                        >(error@.kind)
                        &&& error.span == Some(span)
                    },
                }
            }),
    {
        let from: usize = self.index;
        let start: usize = self.current;
        let ghost text = self.text();
        let mut value: u64 = (self.chars[from] as u64) - ('0' as u64);
        let mut overflow: bool = false;
        self.advance();
        proof {
            assert(text.subrange(from as int, from + 1).drop_last() =~= Seq::empty());
            reveal_with_fuel(number, 2);
        }
        while self.index < self.chars.len() && '0' <= self.chars[self.index]
            && self.chars[self.index] <= '9'
            invariant
                self.wf(),
                self.follows(old(self)),
                text == self.text(),
                from < self.index,
                digits_end(text, from + 1) == digits_end(text, self.index as int),
                !overflow ==> value == number(text.subrange(from as int, self.index as int))
                    && value <= i64::MAX,
                overflow ==> number(text.subrange(from as int, self.index as int)) > i64::MAX,
            decreases self.chars.len() - self.index,
        {
            let digit: u64 = (self.chars[self.index] as u64) - ('0' as u64);
            proof {
                let longer = text.subrange(from as int, self.index + 1);
                assert(longer.drop_last() =~= text.subrange(from as int, self.index as int));
                assert(longer.last() == text[self.index as int]);
            }
            if !overflow {
                if value > (i64::MAX as u64 - digit) / 10 {
                    overflow = true;
                } else {
                    value = value * 10 + digit;
                }
            }
            self.advance();
        }
        if overflow {
            Err(
                CompileError::new(
                    CompileErrorKind::InvalidInteger { literal: self.slice(from) },
                    Some(self.span(start)),
                ),
            )
        } else {
            Ok(Token { kind: TokenKind::Integer(value as i64), span: self.span(start) })
        }
    }

    /// Reads a string literal.
    fn string(&mut self) -> (result: Result<Token, CompileError>)
        requires
            old(self).wf(),
            old(self).index < old(self).text().len(),
        ensures
            final(self).wf(),
            final(self).follows(old(self)),
            final(self).index > old(self).index,
            ({
                let text = old(self).text();
                let i = old(self).index as int;
                let scanned = scan_string(text, i + 1, Seq::empty());
                let span = span_of(text, i, scanned.end, old(self).file_id);
                &&& final(self).index == scanned.end
                &&& match result {
                    Ok(token) => {
                        &&& scanned.kind == Ok::<TokenKindView, CompileErrorKindView>(token@.kind)
                        &&& token.span == span
                    },
                    Err(error) => {
                        &&& scanned.kind == Err::<TokenKindView, CompileErrorKindView>(error@.kind)
                        &&& !(error@.kind is UnexpectedCharacter)
                        &&& error.span == Some(span)
                    },
                }
            }),
    {
        let start: usize = self.current;
        let ghost from = self.index as int;
        let ghost text = self.text();
        self.advance();
        let mut value = String::new();
        while self.index < self.chars.len()
            invariant
                self.wf(),
                self.follows(old(self)),
                text == self.text(),
                from == old(self).index,
                from < self.index,
                start == old(self).current,
                old(self).wf(),
                scan_string(text, from + 1, Seq::empty()) == scan_string(
                    text,
                    self.index as int,
                    value@,
                ),
            decreases self.chars.len() - self.index,
        {
            let c: char = self.chars[self.index];
            if c == '"' {
                self.advance();
                return Ok(Token { kind: TokenKind::String(value), span: self.span(start) });
            } else if c == '\n' || c == '\r' {
                return Err(
                    CompileError::new(CompileErrorKind::UnterminatedString, Some(self.span(start))),
                );
            } else if c == '\\' {
                self.advance();
                if self.index >= self.chars.len() {
                    return Err(
                        CompileError::new(
                            CompileErrorKind::UnterminatedString,
                            Some(self.span(start)),
                        ),
                    );
                }
                let escape: char = self.chars[self.index];
                self.advance();
                if escape == '"' {
                    value.push('"');
                } else if escape == '\\' {
                    value.push('\\');
                } else if escape == 'n' {
                    value.push('\n');
                } else if escape == 'r' {
                    value.push('\r');
                } else if escape == 't' {
                    value.push('\t');
                } else {
                    return Err(
                        CompileError::new(
                            CompileErrorKind::InvalidStringEscape { escape },
                            Some(self.span(start)),
                        ),
                    );
                }
            } else {
                self.advance();
                value.push(c);
            }
        }
        Err(CompileError::new(CompileErrorKind::UnterminatedString, Some(self.span(start))))
    }

    /// Reads a keyword or an identifier.
    fn identifier(&mut self) -> (token: Token)
        requires
            old(self).wf(),
            old(self).index < old(self).text().len(),
        ensures
            final(self).wf(),
            final(self).follows(old(self)),
            final(self).index > old(self).index,
            final(self).index == name_end(old(self).text(), old(self).index + 1),
            token@ == (TokenView {
                kind: word_kind(
                    old(self).text().subrange(old(self).index as int, final(self).index as int),
                ),
                span: span_of(
                    old(self).text(),
                    old(self).index as int,
                    final(self).index as int,
                    old(self).file_id,
                ),
            }),
    {
        let from: usize = self.index;
        let start: usize = self.current;
        let ghost text = self.text();
        self.advance();
        while self.index < self.chars.len() && is_name_char(self.chars[self.index])
            invariant
                self.wf(),
                self.follows(old(self)),
                text == self.text(),
                from < self.index,
                name_end(text, from + 1) == name_end(text, self.index as int),
            decreases self.chars.len() - self.index,
        {
            self.advance();
        }
        let word = self.slice(from);
        Token { kind: keyword_or_identifier(word), span: self.span(start) }
    }

    /// Reads a token of one character.
    fn single(&mut self) -> (result: Result<Token, CompileError>)
        requires
            old(self).wf(),
            old(self).index < old(self).text().len(),
        ensures
            final(self).follows(old(self)),
            ({
                let text = old(self).text();
                let i = old(self).index as int;
                let start = offset(text, i);
                match result {
                    Ok(token) => {
                        &&& final(self).wf()
                        &&& final(self).index == i + 1
                        &&& punctuation(text[i]) == Some(token@.kind)
                        &&& token.span == span_of(text, i, i + 1, old(self).file_id)
                    },
                    Err(error) => {
                        &&& punctuation(text[i]) is None
                        &&& error@.kind == (CompileErrorKindView::UnexpectedCharacter {
                            character: encode_utf8(text)[start as int] as char,
                        })
                        &&& error.span == Some(
                            SourceSpan {
                                file_id: old(self).file_id,
                                start: start as usize,
                                end: (start + 1) as usize,
                            },
                        )
                    },
                }
            }),
    {
        let c: char = self.chars[self.index];
        let start: usize = self.current;
        let kind =
        if c == '+' {
            TokenKind::Plus
        } else if c == '-' {
            TokenKind::Minus
        } else if c == '*' {
            TokenKind::Star
        } else if c == '/' {
            TokenKind::Slash
        } else if c == '(' {
            TokenKind::LeftParen
        } else if c == ')' {
            TokenKind::RightParen
        } else if c == '{' {
            TokenKind::LeftBrace
        } else if c == '}' {
            TokenKind::RightBrace
        } else if c == '[' {
            TokenKind::LeftBracket
        } else if c == ']' {
            TokenKind::RightBracket
        } else if c == ':' {
            TokenKind::Colon
        } else if c == '.' {
            TokenKind::Dot
        } else if c == ',' {
            TokenKind::Comma
        } else if c == ';' {
            TokenKind::Semicolon
        } else {
            proof {
                lemma_offset_step(self.text(), self.index as int);
            }
            let byte: u8 = self.bytes[start];
            return Err(
                CompileError::new(
                    CompileErrorKind::UnexpectedCharacter { character: byte as char },
                    Some(SourceSpan::new(self.file_id, start, start + 1)),
                ),
            );
        };
        self.advance();
        Ok(Token { kind, span: self.span(start) })
    }

    /// Reads a token of one character, or of two where `=` follows.
    fn double_or_single(&mut self, double: TokenKind, single: TokenKind) -> (token: Token)
        requires
            old(self).wf(),
            old(self).index < old(self).text().len(),
        ensures
            final(self).wf(),
            final(self).follows(old(self)),
            final(self).index > old(self).index,
            ({
                let text = old(self).text();
                let i = old(self).index as int;
                let scanned = with_equal(text, i, double@, Ok(single@));
                &&& final(self).index == scanned.end
                &&& scanned.kind == Ok::<TokenKindView, CompileErrorKindView>(token@.kind)
                &&& token.span == span_of(text, i, scanned.end, old(self).file_id)
            }),
    {
        let start: usize = self.current;
        self.advance();
        if self.next_is('=') {
            self.advance();
            Token { kind: double, span: self.span(start) }
        } else {
            Token { kind: single, span: self.span(start) }
        }
    }
}

/// Whether a character can continue a name.
fn is_name_char(c: char) -> (found: bool)
    ensures
        found == is_name_part(c),
{
    ('a' <= c && c <= 'z') || ('A' <= c && c <= 'Z') || c == '_' || ('0' <= c && c <= '9')
}

/// The keyword or identifier that a name is.
fn keyword_or_identifier(word: String) -> (kind: TokenKind)
    ensures
        kind@ == word_kind(word@),
{
    if str_equal(word.as_str(), "let") {
        TokenKind::Let
    } else if str_equal(word.as_str(), "fn") {
        TokenKind::Fn
    } else if str_equal(word.as_str(), "export") {
        TokenKind::Export
    } else if str_equal(word.as_str(), "import") {
        TokenKind::Import
    } else if str_equal(word.as_str(), "if") {
        TokenKind::If
    } else if str_equal(word.as_str(), "else") {
        TokenKind::Else
    } else if str_equal(word.as_str(), "while") {
        TokenKind::While
    } else if str_equal(word.as_str(), "return") {
        TokenKind::Return
    } else if str_equal(word.as_str(), "throw") {
        TokenKind::Throw
    } else if str_equal(word.as_str(), "try") {
        TokenKind::Try
    } else if str_equal(word.as_str(), "catch") {
        TokenKind::Catch
    } else if str_equal(word.as_str(), "true") {
        TokenKind::True
    } else if str_equal(word.as_str(), "false") {
        TokenKind::False
    } else if str_equal(word.as_str(), "nil") {
        TokenKind::Nil
    } else {
        TokenKind::Identifier(word)
    }
}

// ---------------------------------------------------------------------------
// What the lexer guarantees
// ---------------------------------------------------------------------------

/// Later characters have larger offsets.
pub(crate) proof fn lemma_offset_ordered(text: Seq<char>, i: int, j: int)
    requires
        0 <= i <= j <= text.len(),
    ensures
        offset(text, i) <= offset(text, j) <= encode_utf8(text).len(),
{
    assert(text.take(j) =~= text.take(i) + text.subrange(i, j));
    lemma_encode_joined(text.take(i), text.subrange(i, j));
    assert(text =~= text.take(j) + text.skip(j));
    lemma_encode_joined(text.take(j), text.skip(j));
}

/// The bytes between two offsets encode the characters between them.
pub(crate) proof fn lemma_offset_slice(text: Seq<char>, i: int, j: int)
    requires
        0 <= i <= j <= text.len(),
    ensures
        encode_utf8(text).subrange(offset(text, i) as int, offset(text, j) as int) == encode_utf8(
            text.subrange(i, j),
        ),
{
    let before = text.take(i);
    let this = text.subrange(i, j);
    let after = text.skip(j);
    assert(text.take(j) =~= before + this);
    assert(text =~= (before + this) + after);
    lemma_encode_joined(before, this);
    lemma_encode_joined(before + this, after);
    assert(encode_utf8(text).subrange(offset(text, i) as int, offset(text, j) as int)
        =~= encode_utf8(this));
}

/// A run of digits ends inside the text.
pub(crate) proof fn lemma_digits_end(text: Seq<char>, i: int)
    requires
        0 <= i <= text.len(),
    ensures
        i <= digits_end(text, i) <= text.len(),
    decreases text.len() - i,
{
    if i < text.len() && is_digit(text[i]) {
        lemma_digits_end(text, i + 1);
    }
}

/// A name ends inside the text.
pub(crate) proof fn lemma_name_end(text: Seq<char>, i: int)
    requires
        0 <= i <= text.len(),
    ensures
        i <= name_end(text, i) <= text.len(),
    decreases text.len() - i,
{
    if i < text.len() && is_name_part(text[i]) {
        lemma_name_end(text, i + 1);
    }
}

/// A string literal ends inside the text.
pub(crate) proof fn lemma_string_end(text: Seq<char>, i: int, value: Seq<char>)
    requires
        0 <= i <= text.len(),
    ensures
        i <= scan_string(text, i, value).end <= text.len(),
        scan_string(text, i, value).kind matches Ok(kind) ==> kind is Text,
    decreases text.len() - i,
{
    if i < text.len() && text[i] != '\n' && text[i] != '\r' && text[i] != '"' {
        if text[i] != '\\' {
            lemma_string_end(text, i + 1, value.push(text[i]));
        } else if i + 1 < text.len() {
            match escaped(text[i + 1]) {
                Some(c) => lemma_string_end(text, i + 2, value.push(c)),
                None => {},
            }
        }
    }
}

/// A token ends behind its beginning, inside the text, and is not the end of the text.
pub(crate) proof fn lemma_scan_end(text: Seq<char>, i: int)
    requires
        0 <= i < text.len(),
        !is_space(text[i]),
        scan(text, i).kind is Ok,
    ensures
        i < scan(text, i).end <= text.len(),
        !(scan(text, i).kind->Ok_0 is Eof),
        scan(text, i).kind->Ok_0 matches TokenKindView::Identifier(name) ==> name
            == text.subrange(i, scan(text, i).end),
{
    lemma_digits_end(text, i + 1);
    lemma_name_end(text, i + 1);
    lemma_string_end(text, i + 1, Seq::empty());
}

/// What holds of the tokens of a text from a character on.
spec fn well_placed(text: Seq<char>, i: int, file_id: FileId, tokens: Seq<TokenView>) -> bool {
    &&& tokens.len() > 0
    &&& tokens.last() == (TokenView {
        kind: TokenKindView::Eof,
        span: span_of(text, text.len() as int, text.len() as int, file_id),
    })
    &&& forall|k: int| 0 <= k < tokens.len() - 1 ==> !((#[trigger] tokens[k]).kind is Eof)
    &&& forall|k: int|
        0 <= k < tokens.len() ==> {
            &&& (#[trigger] tokens[k]).span.file_id == file_id
            &&& offset(text, i) <= tokens[k].span.start <= tokens[k].span.end
            &&& tokens[k].span.end <= encode_utf8(text).len()
            &&& tokens[k].kind matches TokenKindView::Identifier(name) ==> encode_utf8(text).subrange(
                tokens[k].span.start as int,
                tokens[k].span.end as int,
            ) == encode_utf8(name)
        }
    &&& forall|j: int, k: int|
        0 <= j < k < tokens.len() ==> (#[trigger] tokens[j]).span.end <= (
        #[trigger] tokens[k]).span.start
}

proof fn lemma_tokens_well_placed(text: Seq<char>, i: int, file_id: FileId)
    requires
        0 <= i <= text.len(),
        encode_utf8(text).len() <= usize::MAX,
        tokens_from(text, i, file_id) is Ok,
    ensures
        well_placed(text, i, file_id, tokens_from(text, i, file_id)->Ok_0),
    decreases text.len() - i,
{
    lemma_offset_ordered(text, i, i);
    if i < text.len() {
        lemma_offset_ordered(text, i, i + 1);
        if is_space(text[i]) {
            lemma_tokens_well_placed(text, i + 1, file_id);
        } else {
            lemma_scan_end(text, i);
            let end = scan(text, i).end;
            lemma_offset_ordered(text, i, end);
            lemma_offset_slice(text, i, end);
            lemma_tokens_well_placed(text, end, file_id);
            let rest = tokens_from(text, end, file_id)->Ok_0;
            let tokens = tokens_from(text, i, file_id)->Ok_0;
            assert(tokens.last() == rest.last());
            assert forall|k: int| 0 <= k < tokens.len() - 1 implies !((
            #[trigger] tokens[k]).kind is Eof) by {
                if k > 0 {
                    assert(tokens[k] == rest[k - 1]);
                }
            }
            assert forall|k: int| 0 < k < tokens.len() implies #[trigger] tokens[k] == rest[k
                - 1] by {}
        }
    }
}

/// The tokens of a text end with one end-of-file token, which stands at the end of the text.
pub proof fn tokens_end_with_one_eof(text: Seq<char>, file_id: FileId)
    requires
        encode_utf8(text).len() <= usize::MAX,
        tokens_from(text, 0, file_id) is Ok,
    ensures
        ({
            let tokens = tokens_from(text, 0, file_id)->Ok_0;
            &&& tokens.len() > 0
            &&& tokens.last().kind is Eof
            &&& tokens.last().span == (SourceSpan {
                file_id,
                start: encode_utf8(text).len() as usize,
                end: encode_utf8(text).len() as usize,
            })
            &&& forall|k: int| 0 <= k < tokens.len() - 1 ==> !((#[trigger] tokens[k]).kind is Eof)
        }),
{
    lemma_tokens_well_placed(text, 0, file_id);
    assert(text.take(text.len() as int) =~= text);
}

/// The spans of the tokens of a text lie inside the text, in order and apart from each other,
/// and all name the file of the text.
pub proof fn token_spans_are_ordered(text: Seq<char>, file_id: FileId)
    requires
        encode_utf8(text).len() <= usize::MAX,
        tokens_from(text, 0, file_id) is Ok,
    ensures
        ({
            let tokens = tokens_from(text, 0, file_id)->Ok_0;
            &&& forall|k: int|
                0 <= k < tokens.len() ==> {
                    &&& (#[trigger] tokens[k]).span.file_id == file_id
                    &&& tokens[k].span.start <= tokens[k].span.end <= encode_utf8(text).len()
                }
            &&& forall|j: int, k: int|
                0 <= j < k < tokens.len() ==> (#[trigger] tokens[j]).span.end <= (
                #[trigger] tokens[k]).span.start
        }),
{
    lemma_tokens_well_placed(text, 0, file_id);
}

/// The span of an identifier covers exactly the bytes of its name.
pub proof fn identifier_spans_cover_their_names(text: Seq<char>, file_id: FileId, k: int)
    requires
        encode_utf8(text).len() <= usize::MAX,
        tokens_from(text, 0, file_id) is Ok,
        0 <= k < tokens_from(text, 0, file_id)->Ok_0.len(),
        tokens_from(text, 0, file_id)->Ok_0[k].kind is Identifier,
    ensures
        ({
            let token = tokens_from(text, 0, file_id)->Ok_0[k];
            encode_utf8(text).subrange(token.span.start as int, token.span.end as int)
                == encode_utf8(token.kind->Identifier_0)
        }),
{
    lemma_tokens_well_placed(text, 0, file_id);
}

} // verus!
