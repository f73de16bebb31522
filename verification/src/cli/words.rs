//! Words of a line: trimming, splitting, prefixes and numbers.

use vstd::prelude::*;
use vstd::slice::slice_subrange;

use crate::bytecode::chunk::string_views;
use crate::compiler::lexer::{is_digit, number};

verus! {

/// A white space character.
pub open spec fn is_blank(c: char) -> bool {
    let code = c as u32;
    ||| 0x9 <= code <= 0xD
    ||| code == 0x20
    ||| code == 0x85
    ||| code == 0xA0
    ||| code == 0x1680
    ||| 0x2000 <= code <= 0x200A
    ||| code == 0x2028
    ||| code == 0x2029
    ||| code == 0x202F
    ||| code == 0x205F
    ||| code == 0x3000
}

/// A text without the white space at its beginning.
pub open spec fn trimmed_start(s: Seq<char>) -> Seq<char>
    decreases s.len(),
{
    if s.len() > 0 && is_blank(s[0]) {
        trimmed_start(s.drop_first())
    } else {
        s
    }
}

/// A text without the white space at its end.
pub open spec fn trimmed_end(s: Seq<char>) -> Seq<char>
    decreases s.len(),
{
    if s.len() > 0 && is_blank(s.last()) {
        trimmed_end(s.drop_last())
    } else {
        s
    }
}

/// A text without the white space around it.
pub open spec fn trimmed(s: Seq<char>) -> Seq<char> {
    trimmed_end(trimmed_start(s))
}

/// The position of a character in a text from `i` on, or the length of the text.
pub open spec fn position(s: Seq<char>, c: char, i: int) -> int
    decreases s.len() - i,
{
    if 0 <= i < s.len() && s[i] != c {
        position(s, c, i + 1)
    } else {
        i
    }
}

/// The parts of a text before and behind the first place of a character.
pub open spec fn parted(s: Seq<char>, c: char) -> Option<(Seq<char>, Seq<char>)> {
    let at = position(s, c, 0);
    if at < s.len() {
        Some((s.take(at), s.skip(at + 1)))
    } else {
        None
    }
}

/// The pieces of a text from `i` on that a character separates.
pub open spec fn pieces_from(s: Seq<char>, c: char, i: int) -> Seq<Seq<char>>
    decreases s.len() - i,
{
    let end = position(s, c, i);
    if i <= end < s.len() {
        seq![s.subrange(i, end)] + pieces_from(s, c, end + 1)
    } else {
        seq![s.subrange(i, end)]
    }
}

/// The pieces of a text that a character separates.
pub open spec fn pieces(s: Seq<char>, c: char) -> Seq<Seq<char>> {
    pieces_from(s, c, 0)
}

/// A text begins with another one.
pub open spec fn begins(s: Seq<char>, prefix: Seq<char>) -> bool {
    prefix.len() <= s.len() && s.take(prefix.len() as int) == prefix
}

/// A text ends with another one.
pub open spec fn ends(s: Seq<char>, suffix: Seq<char>) -> bool {
    suffix.len() <= s.len() && s.skip(s.len() - suffix.len()) == suffix
}

/// A text without a plus sign at its beginning.
pub open spec fn unsigned(s: Seq<char>) -> Seq<char> {
    if s.len() > 0 && s[0] == '+' {
        s.drop_first()
    } else {
        s
    }
}

pub open spec fn all_digits(s: Seq<char>) -> bool {
    forall|i: int| 0 <= i < s.len() ==> is_digit(#[trigger] s[i])
}

/// The number that a text writes: decimal digits, with an optional plus sign before them.
pub open spec fn numeral(s: Seq<char>) -> Option<nat> {
    let digits = unsigned(s);
    if digits.len() > 0 && all_digits(digits) {
        Some(number(digits))
    } else {
        None
    }
}

/// The number that a text writes, where it is at most `max`.
pub open spec fn numeral_within(s: Seq<char>, max: nat) -> Option<nat> {
    match numeral(s) {
        Some(n) => if n <= max {
            Some(n)
        } else {
            None
        },
        None => None,
    }
}

/// Whether a character is white space.
fn blank(c: char) -> (found: bool)
    ensures
        found == is_blank(c),
{
    let code: u32 = c as u32;
    (0x9 <= code && code <= 0xD) || code == 0x20 || code == 0x85 || code == 0xA0 || code == 0x1680
        || (0x2000 <= code && code <= 0x200A) || code == 0x2028 || code == 0x2029 || code == 0x202F
        || code == 0x205F || code == 0x3000
}

/// A text without the white space around it.
pub fn trim(s: &[char]) -> (t: &[char])
    ensures
        t@ == trimmed(s@),
{
    let mut from: usize = 0;
    assert(s@.skip(0) =~= s@);
    while from < s.len() && blank(s[from])
        invariant
            from <= s@.len(),
            trimmed_start(s@) == trimmed_start(s@.skip(from as int)),
        decreases s.len() - from,
    {
        assert(s@.skip(from as int).drop_first() =~= s@.skip(from + 1));
        from = from + 1;
    }
    let ghost start = s@.skip(from as int);
    assert(trimmed_start(s@) == start);
    let mut to: usize = s.len();
    assert(s@.subrange(from as int, to as int) =~= start);
    while to > from && blank(s[to - 1])
        invariant
            from <= to <= s@.len(),
            trimmed_end(start) == trimmed_end(s@.subrange(from as int, to as int)),
        decreases to,
    {
        assert(s@.subrange(from as int, to as int).drop_last() =~= s@.subrange(
            from as int,
            to - 1,
        ));
        to = to - 1;
    }
    slice_subrange(s, from, to)
}

/// The position of a character in a text from `start` on, or the length of the text.
pub fn find(s: &[char], c: char, start: usize) -> (at: usize)
    requires
        start <= s@.len(),
    ensures
        at == position(s@, c, start as int),
        start <= at <= s@.len(),
{
    let mut at: usize = start;
    while at < s.len() && s[at] != c
        invariant
            start <= at <= s@.len(),
            position(s@, c, start as int) == position(s@, c, at as int),
        decreases s.len() - at,
    {
        at = at + 1;
    }
    at
}

/// The parts of a text before and behind the first place of a character.
pub fn split_once(s: &[char], c: char) -> (parts: Option<(&[char], &[char])>)
    ensures
        match parts {
            Some((a, b)) => parted(s@, c) == Some((a@, b@)),
            None => parted(s@, c) is None,
        },
{
    let at: usize = find(s, c, 0);
    if at < s.len() {
        let a = slice_subrange(s, 0, at);
        let b = slice_subrange(s, at + 1, s.len());
        assert(a@ =~= s@.take(at as int));
        assert(b@ =~= s@.skip(at + 1));
        Some((a, b))
    } else {
        None
    }
}

/// The pieces of a text that a character separates.
pub fn split(s: &[char], c: char) -> (parts: Vec<String>)
    ensures
        string_views(parts@) == pieces(s@, c),
{
    let mut parts: Vec<String> = Vec::new();
    let mut i: usize = 0;
    assert(string_views(parts@) + pieces(s@, c) =~= pieces(s@, c));
    loop
        invariant
            i <= s@.len(),
            pieces(s@, c) == string_views(parts@) + pieces_from(s@, c, i as int),
        decreases s.len() - i,
    {
        let end: usize = find(s, c, i);
        let ghost before = string_views(parts@);
        let part = to_text(slice_subrange(s, i, end));
        let ghost piece = part@;
        parts.push(part);
        assert(string_views(parts@) =~= before.push(piece));
        if end == s.len() {
            assert(before + seq![piece] =~= before.push(piece));
            return parts;
        }
        assert(before + (seq![piece] + pieces_from(s@, c, end + 1)) =~= before.push(piece)
            + pieces_from(s@, c, end + 1));
        i = end + 1;
    }
}

/// Whether a text is a given one.
pub fn is_word(s: &[char], word: &str) -> (same: bool)
    ensures
        same == (s@ == word@),
{
    let chars = crate::text::characters(word);
    if s.len() != chars.len() {
        return false;
    }
    let mut i: usize = 0;
    while i < s.len()
        invariant
            i <= s@.len(),
            s@.len() == chars@.len(),
            chars@ == word@,
            forall|k: int| 0 <= k < i ==> s@[k] == chars@[k],
        decreases s.len() - i,
    {
        if s[i] != chars[i] {
            return false;
        }
        i = i + 1;
    }
    assert(s@ =~= chars@);
    true
}

/// What follows a prefix of a text.
pub fn strip_prefix<'a>(s: &'a [char], prefix: &str) -> (rest: Option<&'a [char]>)
    ensures
        match rest {
            Some(rest) => begins(s@, prefix@) && rest@ == s@.skip(prefix@.len() as int),
            None => !begins(s@, prefix@),
        },
{
    let n: usize = crate::text::characters(prefix).len();
    if n > s.len() {
        return None;
    }
    let front = slice_subrange(s, 0, n);
    assert(front@ =~= s@.take(n as int));
    if is_word(front, prefix) {
        let rest = slice_subrange(s, n, s.len());
        assert(rest@ =~= s@.skip(n as int));
        Some(rest)
    } else {
        None
    }
}

/// Whether a text ends with another one.
pub fn has_suffix(s: &[char], suffix: &str) -> (found: bool)
    ensures
        found == ends(s@, suffix@),
{
    let n: usize = crate::text::characters(suffix).len();
    if n > s.len() {
        return false;
    }
    let back = slice_subrange(s, s.len() - n, s.len());
    assert(back@ =~= s@.skip(s@.len() - n));
    is_word(back, suffix)
}

/// The number that a text writes, where it is at most `max`.
pub fn parse_number(s: &[char], max: u64) -> (n: Option<u64>)
    ensures
        match n {
            Some(n) => numeral_within(s@, max as nat) == Some(n as nat),
            None => numeral_within(s@, max as nat) is None,
        },
{
    let mut from: usize = 0;
    if s.len() > 0 && s[0] == '+' {
        from = 1;
    }
    let ghost digits = unsigned(s@);
    assert(digits =~= s@.skip(from as int));
    if from == s.len() {
        return None;
    }
    let mut value: u128 = 0;
    let mut over: bool = false;
    let mut i: usize = from;
    assert(digits.take(0) =~= Seq::empty());
    while i < s.len()
        invariant
            from <= i <= s@.len(),
            from < s@.len(),
            digits == s@.skip(from as int),
            digits == unsigned(s@),
            forall|k: int| 0 <= k < i - from ==> is_digit(#[trigger] digits[k]),
            !over ==> value == number(digits.take(i - from)) && value <= max,
            over ==> number(digits.take(i - from)) > max,
        decreases s.len() - i,
    {
        let c: char = s[i];
        assert(digits[i - from] == c);
        if !('0' <= c && c <= '9') {
            assert(!is_digit(digits[i - from]));
            assert(!all_digits(digits));
            return None;
        }
        let digit: u128 = (c as u128) - ('0' as u128);
        proof {
            let longer = digits.take(i - from + 1);
            assert(longer.drop_last() =~= digits.take(i - from));
            assert(longer.last() == c);
        }
        if !over {
            value = value * 10 + digit;
            if value > max as u128 {
                over = true;
            }
        }
        i = i + 1;
    }
    assert(digits.take(i - from) =~= digits);
    if over {
        None
    } else {
        Some(value as u64)
    }
}

/// The text of some characters.
pub fn to_text(s: &[char]) -> (text: String)
    ensures
        text@ == s@,
{
    let mut text = String::new();
    let mut i: usize = 0;
    while i < s.len()
        invariant
            i <= s@.len(),
            text@ == s@.take(i as int),
        decreases s.len() - i,
    {
        text.push(s[i]);
        i = i + 1;
        assert(text@ =~= s@.take(i as int));
    }
    assert(s@.take(i as int) =~= s@);
    text
}

} // verus!
