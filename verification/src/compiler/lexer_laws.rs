//! What the tokens of a text say of the text.

use vstd::prelude::*;
use vstd::utf8::encode_utf8;

use crate::compiler::error::{CompileErrorKindView, CompileErrorView};
use crate::compiler::lexer::{
    digits_end, escaped, is_digit, is_name_part, is_space, lemma_digits_end, lemma_encode_joined,
    lemma_name_end, lemma_offset_ordered, lemma_offset_slice, lemma_scan_end, lemma_string_end,
    name_end, offset, scan, scan_string, span_of, tokens_end_with_one_eof, tokens_from,
    TokenKindView, TokenView,
};
use crate::diagnostics::span::{FileId, SourceSpan};
use crate::text::signed_decimal;

verus! {

// ---------------------------------------------------------------------------
// Pieces of a text
// ---------------------------------------------------------------------------

/// Whether a text stands in another one from character `m` on.
pub open spec fn stands_at(text: Seq<char>, whole: Seq<char>, m: int) -> bool {
    &&& 0 <= m
    &&& m + text.len() <= whole.len()
    &&& forall|i: int| 0 <= i < text.len() ==> #[trigger] whole[m + i] == text[i]
}

/// Whether what follows a text that stands in another one goes on no token: it is the end, or a
/// line break.
pub open spec fn ends_line(text: Seq<char>, whole: Seq<char>, m: int) -> bool {
    m + text.len() == whole.len() || whole[m + text.len()] == '\n'
}

proof fn lemma_digits_moved(text: Seq<char>, whole: Seq<char>, m: int, i: int)
    requires
        stands_at(text, whole, m),
        ends_line(text, whole, m),
        0 <= i <= text.len(),
    ensures
        digits_end(whole, m + i) == m + digits_end(text, i),
    decreases text.len() - i,
{
    if i < text.len() {
        assert(whole[m + i] == text[i]);
        if is_digit(text[i]) {
            lemma_digits_moved(text, whole, m, i + 1);
        }
    }
}

proof fn lemma_name_moved(text: Seq<char>, whole: Seq<char>, m: int, i: int)
    requires
        stands_at(text, whole, m),
        ends_line(text, whole, m),
        0 <= i <= text.len(),
    ensures
        name_end(whole, m + i) == m + name_end(text, i),
    decreases text.len() - i,
{
    if i < text.len() {
        assert(whole[m + i] == text[i]);
        if is_name_part(text[i]) {
            lemma_name_moved(text, whole, m, i + 1);
        }
    }
}

proof fn lemma_string_moved(
    text: Seq<char>,
    whole: Seq<char>,
    m: int,
    i: int,
    value: Seq<char>,
)
    requires
        stands_at(text, whole, m),
        0 <= i <= text.len(),
        scan_string(text, i, value).kind is Ok,
    ensures
        scan_string(whole, m + i, value).kind == scan_string(text, i, value).kind,
        scan_string(whole, m + i, value).end == m + scan_string(text, i, value).end,
    decreases text.len() - i,
{
    if i < text.len() && text[i] != '\n' && text[i] != '\r' {
        assert(whole[m + i] == text[i]);
        if text[i] == '"' {
        } else if text[i] != '\\' {
            lemma_string_moved(text, whole, m, i + 1, value.push(text[i]));
        } else if i + 1 < text.len() {
            assert(whole[m + (i + 1)] == text[i + 1]);
            if let Some(c) = escaped(text[i + 1]) {
                lemma_string_moved(text, whole, m, i + 2, value.push(c));
            }
        }
    }
}

/// A token of a text is a token wherever the text stands, if nothing there goes on with it.
pub(crate) proof fn lemma_scan_moved(text: Seq<char>, whole: Seq<char>, m: int, i: int)
    requires
        stands_at(text, whole, m),
        ends_line(text, whole, m),
        0 <= i < text.len(),
        !is_space(text[i]),
        scan(text, i).kind is Ok,
    ensures
        scan(whole, m + i).kind == scan(text, i).kind,
        scan(whole, m + i).end == m + scan(text, i).end,
{
    lemma_scan_end(text, i);
    assert(whole[m + i] == text[i]);
    let c = text[i];
    let end = scan(text, i).end;
    assert(whole.subrange(m + i, m + end) =~= text.subrange(i, end)) by {
        assert forall|k: int| 0 <= k < end - i implies whole.subrange(m + i, m + end)[k]
            == text.subrange(i, end)[k] by {
            assert(whole[m + (i + k)] == text[i + k]);
        }
    }
    if is_digit(c) {
        lemma_digits_moved(text, whole, m, i + 1);
    } else if c == '"' {
        lemma_string_moved(text, whole, m, i + 1, Seq::empty());
    } else {
        lemma_name_moved(text, whole, m, i + 1);
        if i + 1 < text.len() {
            assert(whole[m + (i + 1)] == text[i + 1]);
        }
    }
}

proof fn lemma_digits_cut(text: Seq<char>, from: int, i: int)
    requires
        0 <= from <= i <= text.len(),
    ensures
        ({
            let end = digits_end(text, i);
            digits_end(text.subrange(from, end), i - from) == end - from
        }),
    decreases text.len() - i,
{
    lemma_digits_end(text, i);
    if i < text.len() && is_digit(text[i]) {
        lemma_digits_end(text, i + 1);
        lemma_digits_cut(text, from, i + 1);
    }
}

proof fn lemma_name_cut(text: Seq<char>, from: int, i: int)
    requires
        0 <= from <= i <= text.len(),
    ensures
        ({
            let end = name_end(text, i);
            name_end(text.subrange(from, end), i - from) == end - from
        }),
    decreases text.len() - i,
{
    lemma_name_end(text, i);
    if i < text.len() && is_name_part(text[i]) {
        lemma_name_end(text, i + 1);
        lemma_name_cut(text, from, i + 1);
    }
}

proof fn lemma_string_cut(text: Seq<char>, from: int, i: int, value: Seq<char>)
    requires
        0 <= from <= i <= text.len(),
        scan_string(text, i, value).kind is Ok,
    ensures
        ({
            let found = scan_string(text, i, value);
            let alone = scan_string(text.subrange(from, found.end), i - from, value);
            &&& i < found.end <= text.len()
            &&& alone.kind == found.kind
            &&& alone.end == found.end - from
        }),
    decreases text.len() - i,
{
    lemma_string_end(text, i, value);
    if i < text.len() && text[i] != '\n' && text[i] != '\r' && text[i] != '"' {
        if text[i] != '\\' {
            lemma_string_cut(text, from, i + 1, value.push(text[i]));
        } else if i + 1 < text.len() {
            if let Some(c) = escaped(text[i + 1]) {
                lemma_string_cut(text, from, i + 2, value.push(c));
            }
        }
    }
}

/// The characters of a token alone are that token.
proof fn lemma_scan_alone(text: Seq<char>, i: int)
    requires
        0 <= i < text.len(),
        !is_space(text[i]),
        scan(text, i).kind is Ok,
    ensures
        ({
            let word = text.subrange(i, scan(text, i).end);
            &&& i < scan(text, i).end <= text.len()
            &&& scan(word, 0).kind == scan(text, i).kind
            &&& scan(word, 0).end == word.len()
        }),
{
    lemma_scan_end(text, i);
    let c = text[i];
    let end = scan(text, i).end;
    let word = text.subrange(i, end);
    assert(word[0] == c);
    assert(word.subrange(0, word.len() as int) =~= word);
    if is_digit(c) {
        lemma_digits_cut(text, i, i + 1);
    } else if c == '"' {
        lemma_string_cut(text, i, i + 1, Seq::empty());
    } else {
        lemma_name_cut(text, i, i + 1);
    }
}

/// Where a token of a text begins.
proof fn lemma_token_scanned(text: Seq<char>, from: int, file_id: FileId, k: int) -> (i: int)
    requires
        0 <= from <= text.len(),
        tokens_from(text, from, file_id) is Ok,
        0 <= k < tokens_from(text, from, file_id)->Ok_0.len() - 1,
    ensures
        from <= i < text.len(),
        !is_space(text[i]),
        scan(text, i).kind == Ok::<TokenKindView, CompileErrorKindView>(
            tokens_from(text, from, file_id)->Ok_0[k].kind,
        ),
        tokens_from(text, from, file_id)->Ok_0[k].span == span_of(
            text,
            i,
            scan(text, i).end,
            file_id,
        ),
    decreases text.len() - from,
{
    if is_space(text[from]) {
        lemma_token_scanned(text, from + 1, file_id, k)
    } else {
        lemma_scan_end(text, from);
        let end = scan(text, from).end;
        let rest = tokens_from(text, end, file_id)->Ok_0;
        let tokens = tokens_from(text, from, file_id)->Ok_0;
        assert(forall|j: int| 0 < j < tokens.len() ==> tokens[j] == rest[j - 1]);
        if k == 0 {
            from
        } else {
            lemma_token_scanned(text, end, file_id, k - 1)
        }
    }
}

/// The tokens of a text that is one token.
pub open spec fn single_token(kind: TokenKindView, len: nat, file_id: FileId) -> Seq<TokenView> {
    seq![
        TokenView { kind, span: SourceSpan { file_id, start: 0, end: len as usize } },
        TokenView {
            kind: TokenKindView::Eof,
            span: SourceSpan { file_id, start: len as usize, end: len as usize },
        },
    ]
}

/// The characters of a token, taken alone, are that token again: `word` is what the token's span
/// covers, and its tokens are that one, over all of it, and the end.
pub proof fn tokens_stand_alone(text: Seq<char>, file_id: FileId, k: int) -> (word: Seq<char>)
    requires
        encode_utf8(text).len() <= usize::MAX,
        tokens_from(text, 0, file_id) is Ok,
        0 <= k < tokens_from(text, 0, file_id)->Ok_0.len() - 1,
    ensures
        ({
            let token = tokens_from(text, 0, file_id)->Ok_0[k];
            &&& encode_utf8(text).subrange(token.span.start as int, token.span.end as int)
                == encode_utf8(word)
            &&& tokens_from(word, 0, file_id) == Ok::<Seq<TokenView>, CompileErrorView>(
                single_token(token.kind, encode_utf8(word).len(), file_id),
            )
        }),
{
    let token = tokens_from(text, 0, file_id)->Ok_0[k];
    let i = lemma_token_scanned(text, 0, file_id, k);
    lemma_scan_alone(text, i);
    let end = scan(text, i).end;
    let word = text.subrange(i, end);
    lemma_offset_ordered(text, i, end);
    lemma_offset_slice(text, i, end);
    assert(word[0] == text[i]);
    assert(word.take(0) =~= Seq::empty());
    assert(word.take(word.len() as int) =~= word);
    assert(offset(word, 0) == 0);
    assert(offset(word, word.len() as int) == encode_utf8(word).len());
    let rest = tokens_from(word, word.len() as int, file_id);
    assert(rest == Ok::<Seq<TokenView>, CompileErrorView>(
        seq![
            TokenView {
                kind: TokenKindView::Eof,
                span: span_of(word, word.len() as int, word.len() as int, file_id),
            },
        ],
    ));
    assert(tokens_from(word, 0, file_id)->Ok_0 =~= single_token(
        token.kind,
        encode_utf8(word).len(),
        file_id,
    ));
    word
}

/// What a token's description says, given the characters of the token.
pub open spec fn described(kind: TokenKindView, word: Seq<char>) -> bool {
    match kind {
        TokenKindView::Identifier(name) => name == word && kind.description() == "identifier `"@
            + name + "`"@,
        TokenKindView::Integer(value) => kind.description() == "integer `"@ + signed_decimal(
            value as int,
        ) + "`"@,
        TokenKindView::Text(_) => kind.description() == "string literal"@,
        TokenKindView::Eof => kind.description() == "end of file"@,
        _ => kind.description() == "`"@ + word + "`"@,
    }
}

#[verifier::rlimit(60)]
proof fn lemma_described(text: Seq<char>, i: int)
    requires
        0 <= i < text.len(),
        !is_space(text[i]),
        scan(text, i).kind is Ok,
    ensures
        described(scan(text, i).kind->Ok_0, text.subrange(i, scan(text, i).end)),
{
    lemma_scan_end(text, i);
    lemma_string_end_kind(text, i);
    let kind = scan(text, i).kind->Ok_0;
    let word = text.subrange(i, scan(text, i).end);
    assert(word[0] == text[i]);
    if word.len() == 2 {
        assert(word[1] == text[i + 1]);
    }
    reveal_strlit("`");
    match kind {
        TokenKindView::Let => {
            reveal_strlit("let");
            reveal_strlit("`let`");
        },
        TokenKindView::Fn => {
            reveal_strlit("fn");
            reveal_strlit("`fn`");
        },
        TokenKindView::Export => {
            reveal_strlit("export");
            reveal_strlit("`export`");
        },
        TokenKindView::Import => {
            reveal_strlit("import");
            reveal_strlit("`import`");
        },
        TokenKindView::If => {
            reveal_strlit("if");
            reveal_strlit("`if`");
        },
        TokenKindView::Else => {
            reveal_strlit("else");
            reveal_strlit("`else`");
        },
        TokenKindView::While => {
            reveal_strlit("while");
            reveal_strlit("`while`");
        },
        TokenKindView::Return => {
            reveal_strlit("return");
            reveal_strlit("`return`");
        },
        TokenKindView::Throw => {
            reveal_strlit("throw");
            reveal_strlit("`throw`");
        },
        TokenKindView::Try => {
            reveal_strlit("try");
            reveal_strlit("`try`");
        },
        TokenKindView::Catch => {
            reveal_strlit("catch");
            reveal_strlit("`catch`");
        },
        TokenKindView::True => {
            reveal_strlit("true");
            reveal_strlit("`true`");
        },
        TokenKindView::False => {
            reveal_strlit("false");
            reveal_strlit("`false`");
        },
        TokenKindView::Nil => {
            reveal_strlit("nil");
            reveal_strlit("`nil`");
        },
        TokenKindView::Plus => {
            reveal_strlit("`+`");
        },
        TokenKindView::Minus => {
            reveal_strlit("`-`");
        },
        TokenKindView::Star => {
            reveal_strlit("`*`");
        },
        TokenKindView::Slash => {
            reveal_strlit("`/`");
        },
        TokenKindView::Equal => {
            reveal_strlit("`=`");
        },
        TokenKindView::EqualEqual => {
            reveal_strlit("`==`");
        },
        TokenKindView::BangEqual => {
            reveal_strlit("`!=`");
        },
        TokenKindView::Less => {
            reveal_strlit("`<`");
        },
        TokenKindView::LessEqual => {
            reveal_strlit("`<=`");
        },
        TokenKindView::Greater => {
            reveal_strlit("`>`");
        },
        TokenKindView::GreaterEqual => {
            reveal_strlit("`>=`");
        },
        TokenKindView::LeftParen => {
            reveal_strlit("`(`");
        },
        TokenKindView::RightParen => {
            reveal_strlit("`)`");
        },
        TokenKindView::LeftBrace => {
            reveal_strlit("`{`");
        },
        TokenKindView::RightBrace => {
            reveal_strlit("`}`");
        },
        TokenKindView::LeftBracket => {
            reveal_strlit("`[`");
        },
        TokenKindView::RightBracket => {
            reveal_strlit("`]`");
        },
        TokenKindView::Colon => {
            reveal_strlit("`:`");
        },
        TokenKindView::Dot => {
            reveal_strlit("`.`");
        },
        TokenKindView::Comma => {
            reveal_strlit("`,`");
        },
        TokenKindView::Semicolon => {
            reveal_strlit("`;`");
        },
        _ => {},
    }
    if !(kind is Identifier || kind is Integer || kind is Text || kind is Eof) {
        assert(kind.description() =~= "`"@ + word + "`"@);
    }
}

proof fn lemma_string_end_kind(text: Seq<char>, i: int)
    requires
        0 <= i < text.len(),
    ensures
        scan_string(text, i + 1, Seq::empty()).kind matches Ok(kind) ==> kind is Text,
{
    lemma_string_end(text, i + 1, Seq::empty());
}

/// A token's description names the token: a keyword or a sign is described by its characters
/// between backticks, an identifier and an integer by their value, a string and the end of the
/// file by what they are. `word` is what the token's span covers.
pub proof fn descriptions_name_their_tokens(text: Seq<char>, file_id: FileId, k: int) -> (word: Seq<
    char,
>)
    requires
        encode_utf8(text).len() <= usize::MAX,
        tokens_from(text, 0, file_id) is Ok,
        0 <= k < tokens_from(text, 0, file_id)->Ok_0.len(),
    ensures
        ({
            let token = tokens_from(text, 0, file_id)->Ok_0[k];
            &&& encode_utf8(text).subrange(token.span.start as int, token.span.end as int)
                == encode_utf8(word)
            &&& described(token.kind, word)
        }),
{
    let tokens = tokens_from(text, 0, file_id)->Ok_0;
    if k == tokens.len() - 1 {
            tokens_end_with_one_eof(text, file_id);
        let bytes = encode_utf8(text);
        assert(bytes.subrange(bytes.len() as int, bytes.len() as int) =~= encode_utf8(Seq::empty()));
        Seq::empty()
    } else {
        let i = lemma_token_scanned(text, 0, file_id, k);
        let end = scan(text, i).end;
        lemma_scan_end(text, i);
        lemma_offset_ordered(text, i, end);
        lemma_offset_slice(text, i, end);
        lemma_described(text, i);
        text.subrange(i, end)
    }
}

// ---------------------------------------------------------------------------
// One text behind another
// ---------------------------------------------------------------------------

/// A span that lies `n` bytes further on.
pub open spec fn moved_span(span: SourceSpan, n: int) -> SourceSpan {
    SourceSpan {
        file_id: span.file_id,
        start: (span.start + n) as usize,
        end: (span.end + n) as usize,
    }
}

/// A token that lies `n` bytes further on.
pub open spec fn moved_token(token: TokenView, n: int) -> TokenView {
    TokenView { kind: token.kind, span: moved_span(token.span, n) }
}

/// Tokens that lie `n` bytes further on.
pub open spec fn moved_tokens(tokens: Seq<TokenView>, n: int) -> Seq<TokenView> {
    Seq::new(tokens.len(), |i: int| moved_token(tokens[i], n))
}

/// Two texts with a line break between them.
pub open spec fn two_texts(a: Seq<char>, b: Seq<char>) -> Seq<char> {
    a + seq!['\n'] + b
}

/// The number of bytes before the second of two texts.
pub open spec fn second_offset(a: Seq<char>) -> int {
    (encode_utf8(a).len() + 1) as int
}

proof fn lemma_offsets(a: Seq<char>, b: Seq<char>)
    ensures
        stands_at(a, two_texts(a, b), 0),
        stands_at(b, two_texts(a, b), (a.len() + 1) as int),
        ends_line(a, two_texts(a, b), 0),
        ends_line(b, two_texts(a, b), (a.len() + 1) as int),
        forall|i: int|
            0 <= i <= a.len() ==> #[trigger] offset(a, i) == offset(two_texts(a, b), i),
        forall|j: int|
            0 <= j <= b.len() ==> offset(two_texts(a, b), a.len() + 1 + j) == second_offset(a)
                + #[trigger] offset(b, j),
        encode_utf8(two_texts(a, b)).len() == second_offset(a) + encode_utf8(b).len(),
{
    let t = two_texts(a, b);
    let line = seq!['\n'];
    assert(line.drop_first() =~= Seq::empty());
    assert(encode_utf8(line).len() == 1) by {
        reveal_with_fuel(encode_utf8, 2);
    }
    assert forall|i: int| 0 <= i <= a.len() implies #[trigger] offset(a, i) == offset(t, i) by {
        assert(t.take(i) =~= a.take(i));
    }
    assert forall|j: int| 0 <= j <= b.len() implies offset(t, a.len() + 1 + j) == second_offset(a)
        + #[trigger] offset(b, j) by {
        assert(t.take(a.len() + 1 + j) =~= a + line + b.take(j));
        lemma_encode_joined(a + line, b.take(j));
        lemma_encode_joined(a, line);
    }
    lemma_encode_joined(a + line, b);
    lemma_encode_joined(a, line);
}

proof fn lemma_second_tokens(a: Seq<char>, b: Seq<char>, j: int, file_id: FileId)
    requires
        0 <= j <= b.len(),
        tokens_from(b, j, file_id) is Ok,
        encode_utf8(two_texts(a, b)).len() <= usize::MAX,
    ensures
        tokens_from(two_texts(a, b), a.len() + 1 + j, file_id) == Ok::<
            Seq<TokenView>,
            CompileErrorView,
        >(moved_tokens(tokens_from(b, j, file_id)->Ok_0, second_offset(a))),
    decreases b.len() - j,
{
    let t = two_texts(a, b);
    let m: int = (a.len() + 1) as int;
    let n = second_offset(a);
    lemma_offsets(a, b);
    lemma_offset_ordered(b, j, b.len() as int);
    assert(b.take(b.len() as int) =~= b);
    if j == b.len() {
        assert(moved_tokens(tokens_from(b, j, file_id)->Ok_0, n) =~= seq![
            TokenView { kind: TokenKindView::Eof, span: span_of(t, m + j, m + j, file_id) },
        ]);
    } else {
        assert(t[m + j] == b[j]);
        if is_space(b[j]) {
            lemma_second_tokens(a, b, j + 1, file_id);
        } else {
            lemma_scan_end(b, j);
            lemma_scan_moved(b, t, m, j);
            let end = scan(b, j).end;
            lemma_offset_ordered(b, j, end);
            lemma_second_tokens(a, b, end, file_id);
            let rest = tokens_from(b, end, file_id)->Ok_0;
            let first = TokenView {
                kind: scan(b, j).kind->Ok_0,
                span: span_of(b, j, end, file_id),
            };
            assert(moved_token(first, n).span == span_of(t, m + j, m + end, file_id));
            assert(moved_tokens(seq![first] + rest, n) =~= seq![moved_token(first, n)]
                + moved_tokens(rest, n));
        }
    }
}

proof fn lemma_first_tokens(a: Seq<char>, b: Seq<char>, i: int, file_id: FileId)
    requires
        0 <= i <= a.len(),
        tokens_from(a, i, file_id) is Ok,
        tokens_from(b, 0, file_id) is Ok,
        encode_utf8(two_texts(a, b)).len() <= usize::MAX,
    ensures
        tokens_from(a, i, file_id)->Ok_0.len() > 0,
        tokens_from(two_texts(a, b), i, file_id) == Ok::<Seq<TokenView>, CompileErrorView>(
            tokens_from(a, i, file_id)->Ok_0.drop_last() + moved_tokens(
                tokens_from(b, 0, file_id)->Ok_0,
                second_offset(a),
            ),
        ),
    decreases a.len() - i,
{
    let t = two_texts(a, b);
    let behind = moved_tokens(tokens_from(b, 0, file_id)->Ok_0, second_offset(a));
    lemma_offsets(a, b);
    if i == a.len() {
        lemma_second_tokens(a, b, 0, file_id);
        assert(t[i] == '\n');
        assert(tokens_from(a, i, file_id)->Ok_0.drop_last() + behind =~= behind);
    } else {
        assert(t[0 + i] == a[i]);
        if is_space(a[i]) {
            lemma_first_tokens(a, b, i + 1, file_id);
        } else {
            lemma_scan_end(a, i);
            lemma_scan_moved(a, t, 0, i);
            let end = scan(a, i).end;
            lemma_first_tokens(a, b, end, file_id);
            let rest = tokens_from(a, end, file_id)->Ok_0;
            let first = TokenView {
                kind: scan(a, i).kind->Ok_0,
                span: span_of(a, i, end, file_id),
            };
            assert(offset(a, i) == offset(t, i) && offset(a, end) == offset(t, end));
            assert((seq![first] + rest).drop_last() + behind =~= seq![first] + (rest.drop_last()
                + behind));
        }
    }
}

/// The tokens of two texts with a line break between them are those of the first without its
/// end, and those of the second, moved on.
pub proof fn tokens_of_two_texts(a: Seq<char>, b: Seq<char>, file_id: FileId)
    requires
        encode_utf8(two_texts(a, b)).len() <= usize::MAX,
        tokens_from(a, 0, file_id) is Ok,
        tokens_from(b, 0, file_id) is Ok,
    ensures
        tokens_from(two_texts(a, b), 0, file_id) == Ok::<Seq<TokenView>, CompileErrorView>(
            tokens_from(a, 0, file_id)->Ok_0.drop_last() + moved_tokens(
                tokens_from(b, 0, file_id)->Ok_0,
                second_offset(a),
            ),
        ),
{
    lemma_first_tokens(a, b, 0, file_id);
}

} // verus!
