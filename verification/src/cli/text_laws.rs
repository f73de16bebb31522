//! What trimming, splitting and reading numbers give.

use vstd::prelude::*;

use crate::cli::words::{
    all_digits, begins, ends, is_blank, numeral, numeral_within, parted, pieces, pieces_from,
    position, trimmed, trimmed_end, trimmed_start, unsigned,
};
use crate::compiler::lexer::{is_digit, number};
use crate::text::{decimal, digit as text_digit, lemma_decimal_digits};

verus! {

/// Whether a text is white space only.
pub open spec fn blank(s: Seq<char>) -> bool {
    forall|i: int| 0 <= i < s.len() ==> is_blank(#[trigger] s[i])
}

/// Whether a text neither begins nor ends with white space.
pub open spec fn tight(s: Seq<char>) -> bool {
    s.len() > 0 ==> !is_blank(s[0]) && !is_blank(s.last())
}

proof fn lemma_start(s: Seq<char>) -> (front: Seq<char>)
    ensures
        s == front + trimmed_start(s),
        blank(front),
        trimmed_start(s).len() > 0 ==> !is_blank(trimmed_start(s)[0]),
    decreases s.len(),
{
    if s.len() > 0 && is_blank(s[0]) {
        let front = lemma_start(s.drop_first());
        let rest = trimmed_start(s);
        assert(s =~= seq![s[0]] + s.drop_first());
        assert((seq![s[0]] + front) + rest =~= seq![s[0]] + (front + rest));
        seq![s[0]] + front
    } else {
        assert(s =~= Seq::<char>::empty() + s);
        Seq::empty()
    }
}

proof fn lemma_end(s: Seq<char>) -> (back: Seq<char>)
    ensures
        s == trimmed_end(s) + back,
        blank(back),
        trimmed_end(s).len() > 0 ==> !is_blank(trimmed_end(s).last()),
    decreases s.len(),
{
    if s.len() > 0 && is_blank(s.last()) {
        let back = lemma_end(s.drop_last());
        let rest = trimmed_end(s);
        assert(s =~= s.drop_last().push(s.last()));
        assert(rest + back.push(s.last()) =~= (rest + back).push(s.last()));
        back.push(s.last())
    } else {
        assert(s =~= s + Seq::<char>::empty());
        Seq::empty()
    }
}

/// Trimming takes white space, and nothing else, from both ends, until none is left there.
pub proof fn trimming_takes_white_space(s: Seq<char>) -> (around: (Seq<char>, Seq<char>))
    ensures
        s == around.0 + trimmed(s) + around.1,
        blank(around.0),
        blank(around.1),
        tight(trimmed(s)),
{
    let front = lemma_start(s);
    let rest = trimmed_start(s);
    let back = lemma_end(rest);
    assert(s =~= front + trimmed(s) + back);
    if trimmed(s).len() > 0 {
        assert(trimmed(s)[0] == rest[0]);
    }
    (front, back)
}

/// White space is what Unicode calls white space; in ASCII it is the space and the characters from
/// the tab to the carriage return.
pub proof fn white_space_is_blank(c: char)
    ensures
        (c as u32) < 128 ==> (is_blank(c) <==> c == ' ' || c == '\t' || c == '\n' || c as u32 == 11
            || c as u32 == 12 || c == '\r'),
        (c as u32) >= 128 ==> (is_blank(c) <==> c == '\u{85}' || c == '\u{a0}' || c == '\u{1680}'
            || '\u{2000}' <= c <= '\u{200a}' || c == '\u{2028}' || c == '\u{2029}' || c == '\u{202f}'
            || c == '\u{205f}' || c == '\u{3000}'),
{
}

proof fn lemma_position(s: Seq<char>, c: char, i: int)
    requires
        0 <= i <= s.len(),
    ensures
        i <= position(s, c, i) <= s.len(),
        position(s, c, i) < s.len() ==> s[position(s, c, i)] == c,
        forall|k: int| i <= k < position(s, c, i) ==> #[trigger] s[k] != c,
    decreases s.len() - i,
{
    if i < s.len() && s[i] != c {
        lemma_position(s, c, i + 1);
    }
}

/// A text is parted at the first place of a character, and only where the character occurs.
pub proof fn texts_are_parted_at_the_first_place(s: Seq<char>, c: char)
    ensures
        match parted(s, c) {
            Some((before, behind)) => s == before + seq![c] + behind && !before.contains(c),
            None => !s.contains(c),
        },
{
    lemma_position(s, c, 0);
    let at = position(s, c, 0);
    if at < s.len() {
        assert(s =~= s.take(at) + seq![c] + s.skip(at + 1));
    }
}

/// Pieces with a character between them.
pub open spec fn between(pieces: Seq<Seq<char>>, c: char) -> Seq<char>
    decreases pieces.len(),
{
    if pieces.len() == 0 {
        Seq::empty()
    } else if pieces.len() == 1 {
        pieces[0]
    } else {
        pieces[0] + seq![c] + between(pieces.drop_first(), c)
    }
}

proof fn lemma_pieces(s: Seq<char>, c: char, i: int)
    requires
        0 <= i <= s.len(),
    ensures
        pieces_from(s, c, i).len() > 0,
        between(pieces_from(s, c, i), c) == s.skip(i),
        forall|k: int|
            0 <= k < pieces_from(s, c, i).len() ==> !(#[trigger] pieces_from(s, c, i)[k]).contains(
                c,
            ),
    decreases s.len() - i,
{
    lemma_position(s, c, i);
    let end = position(s, c, i);
    let first = s.subrange(i, end);
    let all = pieces_from(s, c, i);
    if end < s.len() {
        lemma_pieces(s, c, end + 1);
        let rest = pieces_from(s, c, end + 1);
        assert(all =~= seq![first] + rest);
        assert(all.drop_first() =~= rest);
        assert(all[0] == first);
        assert(first + seq![c] + s.skip(end + 1) =~= s.skip(i));
        assert forall|k: int| 0 <= k < all.len() implies !(#[trigger] all[k]).contains(c) by {
            if k > 0 {
                assert(all[k] == rest[k - 1]);
            }
        }
    } else {
        assert(all =~= seq![first]);
        assert(first =~= s.skip(i));
    }
}

/// The pieces of a text give the text back when the separator is put between them, and hold no
/// separator themselves.
pub proof fn pieces_make_up_their_text(s: Seq<char>, c: char)
    ensures
        between(pieces(s, c), c) == s,
        pieces(s, c).len() > 0,
        forall|k: int|
            0 <= k < pieces(s, c).len() ==> !(#[trigger] pieces(s, c)[k]).contains(c),
{
    lemma_pieces(s, c, 0);
    assert(s.skip(0) =~= s);
}

/// A text begins with another one if something can be put behind the other one to get it, and ends
/// with it if something can be put before.
pub proof fn beginnings_and_ends_are_joined(s: Seq<char>, part: Seq<char>, other: Seq<char>)
    ensures
        begins(part + other, part),
        ends(other + part, part),
        begins(s, part) ==> s == part + s.skip(part.len() as int),
        ends(s, part) ==> s == s.take(s.len() - part.len()) + part,
{
    assert((part + other).take(part.len() as int) =~= part);
    assert((other + part).skip(other.len() as int) =~= part);
    if begins(s, part) {
        assert(s =~= part + s.skip(part.len() as int));
    }
    if ends(s, part) {
        assert(s =~= s.take(s.len() - part.len()) + part);
    }
}

/// The value of a decimal digit.
pub open spec fn digit(c: char) -> nat {
    (c as u32 - '0' as u32) as nat
}

/// A number is a row of decimal digits. A plus sign before it changes nothing, each digit more
/// makes it ten times as large and adds its own value, and nothing else is a number.
pub proof fn numbers_are_read_digit_by_digit(s: Seq<char>, c: char, max: nat)
    ensures
        numeral(Seq::empty()) is None,
        numeral(seq![c]) == (if '0' <= c <= '9' {
            Some(digit(c))
        } else {
            None
        }),
        s.len() > 0 && s != seq!['+'] ==> numeral(s.push(c)) == (if '0' <= c <= '9' && numeral(
            s,
        ) is Some {
            Some(10 * numeral(s)->0 + digit(c))
        } else {
            None
        }),
        '0' <= c <= '9' ==> numeral(seq!['+', c]) == Some(digit(c)),
        numeral_within(s, max) == (match numeral(s) {
            Some(n) if n <= max => Some(n),
            _ => None,
        }),
{
    let one = seq![c];
    assert(one.drop_last() =~= Seq::empty());
    assert(one.last() == c);
    reveal_with_fuel(number, 3);
    assert(all_digits(one) <==> is_digit(c)) by {
        if all_digits(one) {
            assert(is_digit(one[0]));
        }
    }
    if c == '+' {
        assert(one.drop_first() =~= Seq::empty());
    }
    let signed = seq!['+', c];
    assert(signed.drop_first() =~= one);
    if s.len() > 0 && s != seq!['+'] {
        let before = unsigned(s);
        let after = unsigned(s.push(c));
        assert(after =~= before.push(c));
        if s[0] == '+' && before.len() == 0 {
            assert(s =~= seq!['+']);
        }
        assert(after.drop_last() =~= before);
        assert(after.last() == c);
        if all_digits(after) {
            assert forall|i: int| 0 <= i < before.len() implies is_digit(#[trigger] before[i]) by {
                assert(after[i] == before[i]);
            }
            assert(is_digit(after[after.len() - 1]));
        }
        if all_digits(before) && is_digit(c) {
            assert forall|i: int| 0 <= i < after.len() implies is_digit(#[trigger] after[i]) by {
                if i < before.len() {
                    assert(after[i] == before[i]);
                }
            }
        }
    }
}

/// The numeral of a number is read back as the number, and has no zeros before it.
pub proof fn numerals_are_read_back(n: nat)
    ensures
        numeral(decimal(n)) == Some(n),
        decimal(n).len() > 1 ==> decimal(n)[0] != '0',
    decreases n,
{
    let c = text_digit(n % 10);
    if n < 10 {
        assert(decimal(n) =~= seq![c]);
        numbers_are_read_digit_by_digit(Seq::empty(), c, 0);
    } else {
        let front = decimal(n / 10);
        numerals_are_read_back(n / 10);
        lemma_decimal_digits(n / 10);
        assert(decimal(n) == front.push(c));
        assert(front != seq!['+']) by {
            assert('0' <= front[0] <= '9');
        }
        numbers_are_read_digit_by_digit(front, c, 0);
        if front.len() == 1 {
            lemma_front_digit(n / 10);
        }
        assert(decimal(n)[0] == front[0]);
    }
}

proof fn lemma_front_digit(n: nat)
    requires
        n > 0,
        decimal(n).len() == 1,
    ensures
        decimal(n)[0] != '0',
{
    if n >= 10 {
        lemma_decimal_digits(n / 10);
    }
}

} // verus!
