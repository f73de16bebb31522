//! The tokens of a text are its words: what each token says stands in the text where the token
//! stands, and nothing but white space is left over.

use vstd::prelude::*;

use crate::compiler::error::CompileErrorKindView;
use crate::compiler::lexer::{
    digits_end, escaped, is_digit, is_name_part, is_name_start, is_space, lemma_scan_end,
    lemma_string_end, name_end, number, offset, scan, scan_string, span_of, tokens_from, word_kind,
    TokenKindView, TokenView,
};
use crate::compiler::spelling_laws::{fixed_word, is_keyword};
use crate::diagnostics::span::FileId;
use crate::text::{decimal, digit, repeated};

verus! {

// ---------------------------------------------------------------------------
// Words
// ---------------------------------------------------------------------------

/// White space.
pub open spec fn blank(c: char) -> bool {
    c == ' ' || c == '\t' || c == '\r' || c == '\n'
}

pub open spec fn letter(c: char) -> bool {
    'a' <= c <= 'z' || 'A' <= c <= 'Z' || c == '_'
}

pub open spec fn numeric(c: char) -> bool {
    '0' <= c <= '9'
}

/// Letters, digits and underscores that begin with no digit.
pub open spec fn is_name(word: Seq<char>) -> bool {
    &&& word.len() > 0
    &&& letter(word[0])
    &&& forall|i: int| 0 <= i < word.len() ==> letter(#[trigger] word[i]) || numeric(word[i])
}

/// A numeral of a number, with any number of zeros before it.
pub open spec fn is_numeral(word: Seq<char>, n: nat) -> bool {
    exists|zeros: nat| word == #[trigger] repeated('0', zeros) + decimal(n)
}

/// What a character behind a backslash stands for.
pub open spec fn stands_for(c: char, meant: char) -> bool {
    ||| c == '"' && meant == '"'
    ||| c == '\\' && meant == '\\'
    ||| c == 'n' && meant == '\n'
    ||| c == 'r' && meant == '\r'
    ||| c == 't' && meant == '\t'
}

/// Whether the characters between two quotes say a string: each character says itself, but for a
/// backslash and the one behind it, which say one together.
pub open spec fn says(content: Seq<char>, value: Seq<char>) -> bool
    decreases content.len(),
{
    if content.len() == 0 {
        value.len() == 0
    } else if content[0] == '\\' {
        &&& content.len() >= 2
        &&& value.len() >= 1
        &&& stands_for(content[1], value[0])
        &&& says(content.skip(2), value.skip(1))
    } else {
        &&& content[0] != '"' && content[0] != '\n' && content[0] != '\r'
        &&& value.len() >= 1
        &&& value[0] == content[0]
        &&& says(content.skip(1), value.skip(1))
    }
}

/// Whether a word is a token of a kind.
pub open spec fn reads_as(word: Seq<char>, kind: TokenKindView) -> bool {
    match kind {
        TokenKindView::Identifier(name) => {
            &&& word == name
            &&& is_name(name)
            &&& forall|other: TokenKindView| is_keyword(other) ==> #[trigger] fixed_word(other)
                != Some(name)
        },
        TokenKindView::Integer(value) => value >= 0 && is_numeral(word, value as nat),
        TokenKindView::Text(value) => {
            &&& word.len() >= 2
            &&& word[0] == '"'
            &&& word.last() == '"'
            &&& says(word.subrange(1, word.len() - 1), value)
        },
        TokenKindView::Eof => word.len() == 0,
        _ => fixed_word(kind) == Some(word),
    }
}

/// Whether a token of a kind that ends before character `end` cannot go on there.
pub open spec fn cannot_go_on(text: Seq<char>, end: int, kind: TokenKindView) -> bool {
    end < text.len() ==> match kind {
        TokenKindView::Identifier(_) => !letter(text[end]) && !numeric(text[end]),
        TokenKindView::Integer(_) => !numeric(text[end]),
        TokenKindView::Equal => text[end] != '=',
        TokenKindView::Less => text[end] != '=',
        TokenKindView::Greater => text[end] != '=',
        _ => is_keyword(kind) ==> !letter(text[end]) && !numeric(text[end]),
    }
}

/// Whether a token stands at the characters `[place.0, place.1)` of a text.
pub open spec fn stands(
    text: Seq<char>,
    place: (int, int),
    token: TokenView,
    file_id: FileId,
) -> bool {
    &&& 0 <= place.0 <= place.1 <= text.len()
    &&& token.span == span_of(text, place.0, place.1, file_id)
    &&& reads_as(text.subrange(place.0, place.1), token.kind)
    &&& cannot_go_on(text, place.1, token.kind)
}

/// Whether a character is part of a token that stands at one of some places.
pub open spec fn covered(places: Seq<(int, int)>, c: int) -> bool {
    exists|k: int| 0 <= k < places.len() && (#[trigger] places[k]).0 <= c < places[k].1
}

/// Whether tokens stand in order at their places from character `i` of a text on, and only white
/// space stands between them.
pub open spec fn laid_in(
    text: Seq<char>,
    i: int,
    places: Seq<(int, int)>,
    tokens: Seq<TokenView>,
    file_id: FileId,
) -> bool {
    &&& places.len() == tokens.len()
    &&& forall|k: int|
        0 <= k < tokens.len() ==> i <= (#[trigger] places[k]).0 && stands(
            text,
            places[k],
            tokens[k],
            file_id,
        )
    &&& forall|j: int, k: int|
        0 <= j < k < places.len() ==> (#[trigger] places[j]).1 <= (#[trigger] places[k]).0
    &&& forall|c: int| i <= c < text.len() ==> blank(#[trigger] text[c]) || covered(places, c)
}

// ---------------------------------------------------------------------------
// Single tokens
// ---------------------------------------------------------------------------

proof fn lemma_digits(text: Seq<char>, i: int)
    requires
        0 <= i <= text.len(),
    ensures
        i <= digits_end(text, i) <= text.len(),
        forall|k: int| i <= k < digits_end(text, i) ==> numeric(#[trigger] text[k]),
        digits_end(text, i) < text.len() ==> !numeric(text[digits_end(text, i)]),
    decreases text.len() - i,
{
    if i < text.len() && is_digit(text[i]) {
        lemma_digits(text, i + 1);
    }
}

proof fn lemma_letters(text: Seq<char>, i: int)
    requires
        0 <= i <= text.len(),
    ensures
        i <= name_end(text, i) <= text.len(),
        forall|k: int|
            i <= k < name_end(text, i) ==> letter(#[trigger] text[k]) || numeric(text[k]),
        name_end(text, i) < text.len() ==> !letter(text[name_end(text, i)]) && !numeric(
            text[name_end(text, i)],
        ),
    decreases text.len() - i,
{
    if i < text.len() && is_name_part(text[i]) {
        lemma_letters(text, i + 1);
    }
}

proof fn lemma_digit_char(c: char)
    requires
        numeric(c),
    ensures
        digit((c as nat - '0' as nat) as nat) == c,
{
}

proof fn lemma_numeral(digits: Seq<char>)
    requires
        digits.len() > 0,
        forall|k: int| 0 <= k < digits.len() ==> numeric(#[trigger] digits[k]),
    ensures
        is_numeral(digits, number(digits)),
    decreases digits.len(),
{
    let front = digits.drop_last();
    let d = (digits.last() as nat - '0' as nat) as nat;
    assert(numeric(digits.last()));
    lemma_digit_char(digits.last());
    if front.len() == 0 {
        assert(number(front) == 0);
        assert(digits =~= repeated('0', 0) + decimal(d));
    } else {
        assert forall|k: int| 0 <= k < front.len() implies numeric(#[trigger] front[k]) by {
            assert(front[k] == digits[k]);
        }
        lemma_numeral(front);
        let m = number(front);
        let zeros = choose|zeros: nat| front == #[trigger] repeated('0', zeros) + decimal(m);
        let n = number(digits);
        assert(n == m * 10 + d);
        assert(digits =~= front.push(digits.last()));
        if m == 0 {
            assert(digits =~= repeated('0', zeros + 1) + decimal(n));
        } else {
            assert(n / 10 == m && n % 10 == d);
            assert(decimal(n) == decimal(m).push(digit(d)));
            assert(digits =~= repeated('0', zeros) + decimal(n));
        }
    }
}

proof fn lemma_says(text: Seq<char>, i: int, value: Seq<char>) -> (rest: Seq<char>)
    requires
        0 <= i <= text.len(),
        scan_string(text, i, value).kind is Ok,
    ensures
        ({
            let end = scan_string(text, i, value).end;
            &&& i < end <= text.len()
            &&& text[end - 1] == '"'
            &&& scan_string(text, i, value).kind == Ok::<TokenKindView, CompileErrorKindView>(
                TokenKindView::Text(value + rest),
            )
            &&& says(text.subrange(i, end - 1), rest)
        }),
    decreases text.len() - i,
{
    lemma_string_end(text, i, value);
    let end = scan_string(text, i, value).end;
    if text[i] == '"' {
        assert(value + Seq::<char>::empty() =~= value);
        Seq::empty()
    } else if text[i] != '\\' {
        let rest = lemma_says(text, i + 1, value.push(text[i]));
        let all = seq![text[i]] + rest;
        assert(value + all =~= value.push(text[i]) + rest);
        let content = text.subrange(i, end - 1);
        assert(content.skip(1) =~= text.subrange(i + 1, end - 1));
        assert(all.skip(1) =~= rest);
        assert(content[0] == text[i]);
        all
    } else {
        let c = escaped(text[i + 1])->0;
        let rest = lemma_says(text, i + 2, value.push(c));
        let all = seq![c] + rest;
        assert(value + all =~= value.push(c) + rest);
        let content = text.subrange(i, end - 1);
        assert(content.skip(2) =~= text.subrange(i + 2, end - 1));
        assert(all.skip(1) =~= rest);
        assert(content[0] == text[i]);
        assert(content[1] == text[i + 1]);
        all
    }
}

proof fn lemma_word(word: Seq<char>)
    requires
        is_name(word),
    ensures
        reads_as(word, word_kind(word)),
        word_kind(word) is Identifier || is_keyword(word_kind(word)),
{
}

proof fn lemma_sign(text: Seq<char>, i: int)
    requires
        0 <= i < text.len(),
        !is_space(text[i]),
        !is_digit(text[i]),
        text[i] != '"',
        !is_name_start(text[i]),
        scan(text, i).kind is Ok,
    ensures
        ({
            let kind = scan(text, i).kind->Ok_0;
            let end = scan(text, i).end;
            &&& i < end <= text.len()
            &&& reads_as(text.subrange(i, end), kind)
            &&& !is_keyword(kind)
            &&& cannot_go_on(text, end, kind)
        }),
{
    reveal_strlit("+");
    reveal_strlit("-");
    reveal_strlit("*");
    reveal_strlit("/");
    reveal_strlit("=");
    reveal_strlit("==");
    reveal_strlit("!=");
    reveal_strlit("<");
    reveal_strlit("<=");
    reveal_strlit(">");
    reveal_strlit(">=");
    reveal_strlit("(");
    reveal_strlit(")");
    reveal_strlit("{");
    reveal_strlit("}");
    reveal_strlit("[");
    reveal_strlit("]");
    reveal_strlit(":");
    reveal_strlit(".");
    reveal_strlit(",");
    reveal_strlit(";");
    let kind = scan(text, i).kind->Ok_0;
    let end = scan(text, i).end;
    let word = text.subrange(i, end);
    assert(word[0] == text[i]);
    if end == i + 2 {
        assert(word[1] == text[i + 1]);
    }
    assert(fixed_word(kind)->0 =~= word);
}

/// A token stands where it was read.
proof fn lemma_stands(text: Seq<char>, i: int, file_id: FileId)
    requires
        0 <= i < text.len(),
        !is_space(text[i]),
        scan(text, i).kind is Ok,
    ensures
        stands(
            text,
            (i, scan(text, i).end),
            (TokenView {
                kind: scan(text, i).kind->Ok_0,
                span: span_of(text, i, scan(text, i).end, file_id),
            }),
            file_id,
        ),
        i < scan(text, i).end <= text.len(),
{
    lemma_scan_end(text, i);
    let end = scan(text, i).end;
    let word = text.subrange(i, end);
    if is_digit(text[i]) {
        lemma_digits(text, i + 1);
        assert forall|k: int| 0 <= k < word.len() implies numeric(#[trigger] word[k]) by {
            assert(word[k] == text[i + k]);
        }
        lemma_numeral(word);
    } else if text[i] == '"' {
        let rest = lemma_says(text, i + 1, Seq::empty());
        assert(Seq::<char>::empty() + rest =~= rest);
        assert(word.subrange(1, word.len() - 1) =~= text.subrange(i + 1, end - 1));
        assert(word[0] == text[i]);
    } else if is_name_start(text[i]) {
        lemma_letters(text, i + 1);
        assert forall|k: int| 0 <= k < word.len() implies letter(#[trigger] word[k]) || numeric(
            word[k],
        ) by {
            assert(word[k] == text[i + k]);
        }
        lemma_word(word);
    } else {
        lemma_sign(text, i);
    }
}

// ---------------------------------------------------------------------------
// Texts
// ---------------------------------------------------------------------------

proof fn lemma_laid(text: Seq<char>, i: int, file_id: FileId) -> (places: Seq<(int, int)>)
    requires
        0 <= i <= text.len(),
        tokens_from(text, i, file_id) is Ok,
    ensures
        laid_in(text, i, places, tokens_from(text, i, file_id)->Ok_0, file_id),
    decreases text.len() - i,
{
    let tokens = tokens_from(text, i, file_id)->Ok_0;
    if i == text.len() {
        let places = seq![(i, i)];
        assert(text.subrange(i, i).len() == 0);
        places
    } else if is_space(text[i]) {
        let places = lemma_laid(text, i + 1, file_id);
        assert forall|c: int| i <= c < text.len() implies blank(#[trigger] text[c]) || covered(
            places,
            c,
        ) by {}
        places
    } else {
        lemma_stands(text, i, file_id);
        let end = scan(text, i).end;
        let more = lemma_laid(text, end, file_id);
        let rest = tokens_from(text, end, file_id)->Ok_0;
        let places = seq![(i, end)] + more;
        assert forall|k: int| 0 <= k < tokens.len() implies i <= (#[trigger] places[k]).0 && stands(
            text,
            places[k],
            tokens[k],
            file_id,
        ) by {
            if k > 0 {
                assert(places[k] == more[k - 1]);
                assert(tokens[k] == rest[k - 1]);
            }
        }
        assert forall|j: int, k: int| 0 <= j < k < places.len() implies (#[trigger] places[j]).1 <= (
        #[trigger] places[k]).0 by {
            assert(places[k] == more[k - 1]);
            if j > 0 {
                assert(places[j] == more[j - 1]);
            }
        }
        assert forall|c: int| i <= c < text.len() implies blank(#[trigger] text[c]) || covered(
            places,
            c,
        ) by {
            if c < end {
                assert(places[0].0 <= c < places[0].1);
            } else if covered(more, c) {
                let k = choose|k: int| 0 <= k < more.len() && (#[trigger] more[k]).0 <= c < more[k].1;
                assert(places[k + 1] == more[k]);
            }
        }
        places
    }
}

/// The tokens of a text are its words. Every token stands at a place of its own, in the order of
/// the text, its span is that place, and the characters there say what the token says: a keyword
/// or a sign is its characters, an identifier is its name and no keyword, an integer is a numeral
/// of its value, and a string is its characters between quotes with their escapes. No token could
/// go on behind its place, and every character outside the places is white space.
pub proof fn tokens_are_the_words_of_their_text(text: Seq<char>, file_id: FileId) -> (places: Seq<
    (int, int),
>)
    requires
        tokens_from(text, 0, file_id) is Ok,
    ensures
        laid_in(text, 0, places, tokens_from(text, 0, file_id)->Ok_0, file_id),
{
    lemma_laid(text, 0, file_id)
}

// ---------------------------------------------------------------------------
// Texts without tokens
// ---------------------------------------------------------------------------

/// Whether a character can begin a token, with the one behind it if there is one.
pub open spec fn begins_token(text: Seq<char>, i: int) -> bool {
    let c = text[i];
    ||| letter(c) || numeric(c) || c == '"'
    ||| c == '+' || c == '-' || c == '*' || c == '/'
    ||| c == '(' || c == ')' || c == '{' || c == '}' || c == '[' || c == ']'
    ||| c == ':' || c == '.' || c == ',' || c == ';'
    ||| c == '=' || c == '<' || c == '>'
    ||| c == '!' && i + 1 < text.len() && text[i + 1] == '='
}

/// Whether the characters `[i, j)` are a string that goes on, from the opening quote at `i`.
pub open spec fn open_string(text: Seq<char>, i: int, j: int) -> bool {
    &&& i < j <= text.len()
    &&& text[i] == '"'
    &&& says_something(text.subrange(i + 1, j))
}

/// Whether characters say a string.
pub open spec fn says_something(content: Seq<char>) -> bool {
    exists|value: Seq<char>| says(content, value)
}

/// Whether a text cannot be read for a reason at character `i`.
pub open spec fn unreadable(text: Seq<char>, i: int, kind: CompileErrorKindView) -> bool {
    &&& 0 <= i < text.len()
    &&& match kind {
        CompileErrorKindView::UnexpectedCharacter { .. } => !blank(text[i]) && !begins_token(
            text,
            i,
        ),
        CompileErrorKindView::InvalidInteger { literal } => {
            &&& 0 < literal.len() <= text.len() - i
            &&& literal == text.subrange(i, i + literal.len())
            &&& i + literal.len() < text.len() ==> !numeric(text[i + literal.len()])
            &&& exists|n: nat| n > i64::MAX && is_numeral(literal, n)
        },
        CompileErrorKindView::UnterminatedString => exists|j: int| #[trigger]
            open_string(text, i, j) && (j == text.len() || text[j] == '\n' || text[j] == '\r'
                || text[j] == '\\' && j + 1 == text.len()),
        CompileErrorKindView::InvalidStringEscape { escape } => exists|j: int| #[trigger]
            open_string(text, i, j) && j + 1 < text.len() && text[j] == '\\' && text[j + 1]
                == escape && forall|meant: char| !#[trigger] stands_for(escape, meant),
        _ => false,
    }
}

proof fn lemma_says_more(content: Seq<char>, value: Seq<char>, more: Seq<char>, meant: char)
    requires
        says(content, value),
        ({
            ||| more.len() == 1 && more[0] == meant && meant != '"' && meant != '\n' && meant != '\r'
                && meant != '\\'
            ||| more.len() == 2 && more[0] == '\\' && stands_for(more[1], meant)
        }),
    ensures
        says(content + more, value.push(meant)),
    decreases content.len(),
{
    let all = content + more;
    let longer = value.push(meant);
    if content.len() == 0 {
        assert(all =~= more);
        assert(longer.skip(1) =~= Seq::empty());
        if more.len() == 1 {
            assert(all.skip(1) =~= Seq::empty());
        } else {
            assert(all.skip(2) =~= Seq::empty());
        }
        assert(says(Seq::<char>::empty(), Seq::<char>::empty()));
    } else {
        let n: int = if content[0] == '\\' {
            2
        } else {
            1
        };
        assert(all.skip(n) =~= content.skip(n) + more);
        assert(longer.skip(1) =~= value.skip(1).push(meant));
        assert(all[0] == content[0]);
        lemma_says_more(content.skip(n), value.skip(1), more, meant);
    }
}

proof fn lemma_string_fails(text: Seq<char>, first: int, i: int, value: Seq<char>)
    requires
        0 <= first < i <= text.len(),
        text[first] == '"',
        says(text.subrange(first + 1, i), value),
        scan_string(text, i, value).kind is Err,
    ensures
        unreadable(text, first, scan_string(text, i, value).kind->Err_0),
    decreases text.len() - i,
{
    let content = text.subrange(first + 1, i);
    assert(open_string(text, first, i));
    if i < text.len() && text[i] != '\n' && text[i] != '\r' {
        if text[i] != '\\' {
            let more = seq![text[i]];
            assert(text.subrange(first + 1, i + 1) =~= content + more);
            lemma_says_more(content, value, more, text[i]);
            lemma_string_fails(text, first, i + 1, value.push(text[i]));
        } else if i + 1 < text.len() {
            if let Some(c) = escaped(text[i + 1]) {
                let more = seq![text[i], text[i + 1]];
                assert(text.subrange(first + 1, i + 2) =~= content + more);
                lemma_says_more(content, value, more, c);
                lemma_string_fails(text, first, i + 2, value.push(c));
            }
        }
    }
}

proof fn lemma_fails(text: Seq<char>, i: int)
    requires
        0 <= i < text.len(),
        !is_space(text[i]),
        scan(text, i).kind is Err,
    ensures
        unreadable(text, i, scan(text, i).kind->Err_0),
{
    if is_digit(text[i]) {
        lemma_digits(text, i + 1);
        let end = digits_end(text, i + 1);
        let word = text.subrange(i, end);
        assert forall|k: int| 0 <= k < word.len() implies numeric(#[trigger] word[k]) by {
            assert(word[k] == text[i + k]);
        }
        lemma_numeral(word);
        assert(word =~= text.subrange(i, i + word.len()));
    } else if text[i] == '"' {
        assert(text.subrange(i + 1, i + 1) =~= Seq::empty());
        lemma_string_fails(text, i, i + 1, Seq::empty());
    } else if is_name_start(text[i]) {
        lemma_letters(text, i + 1);
    }
}

/// A text that has no tokens is one that cannot be read: some character begins no token, an
/// integer is too large, a string does not end on its line, or an escape says nothing. The error
/// says which, and where the characters begin that cannot be read.
pub proof fn texts_without_tokens_are_unreadable(text: Seq<char>, i: int, file_id: FileId) -> (at:
    int)
    requires
        0 <= i <= text.len(),
        tokens_from(text, i, file_id) is Err,
    ensures
        i <= at,
        unreadable(text, at, tokens_from(text, i, file_id)->Err_0.kind),
        tokens_from(text, i, file_id)->Err_0.span matches Some(span) && span.file_id == file_id
            && span.start == offset(text, at) as usize,
    decreases text.len() - i,
{
    if is_space(text[i]) {
        texts_without_tokens_are_unreadable(text, i + 1, file_id)
    } else if scan(text, i).kind is Err {
        lemma_fails(text, i);
        i
    } else {
        lemma_scan_end(text, i);
        texts_without_tokens_are_unreadable(text, scan(text, i).end, file_id)
    }
}

} // verus!
