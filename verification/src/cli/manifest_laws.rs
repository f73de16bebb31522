//! What package manifests say.

use vstd::prelude::*;

use crate::cli::manifest::{
    after_line, array_value, comment_from, content, dependency, empty_manifest, items_from,
    manifest_from, manifest_of, string_value, unescaped_from, ManifestView,
};
use crate::cli::text_laws::texts_are_parted_at_the_first_place;
use crate::cli::words::{parted, pieces, pieces_from, position, trimmed};

verus! {

// ---------------------------------------------------------------------------
// Comments
// ---------------------------------------------------------------------------

/// Whether a place in a line is inside quotes, and whether the character there is escaped.
pub open spec fn quoting(line: Seq<char>, i: int) -> (bool, bool)
    decreases i,
{
    if i <= 0 {
        (false, false)
    } else {
        let (quoted, escaped) = quoting(line, i - 1);
        if escaped {
            (quoted, false)
        } else if quoted && line[i - 1] == '\\' {
            (true, true)
        } else if line[i - 1] == '"' {
            (!quoted, false)
        } else {
            (quoted, false)
        }
    }
}

/// Whether a comment begins at a place.
pub open spec fn begins_comment(line: Seq<char>, i: int) -> bool {
    line[i] == '#' && quoting(line, i) == (false, false)
}

proof fn lemma_comment(line: Seq<char>, i: int)
    requires
        0 <= i <= line.len(),
        !quoting(line, i).0 ==> !quoting(line, i).1,
    ensures
        ({
            let at = comment_from(line, i, quoting(line, i).0, quoting(line, i).1);
            &&& i <= at <= line.len()
            &&& at < line.len() ==> begins_comment(line, at)
            &&& forall|k: int| i <= k < at ==> !#[trigger] begins_comment(line, k)
        }),
    decreases line.len() - i,
{
    if i < line.len() {
        if !begins_comment(line, i) {
            lemma_comment(line, i + 1);
            let at = comment_from(line, i, quoting(line, i).0, quoting(line, i).1);
            assert(at == comment_from(line, i + 1, quoting(line, i + 1).0, quoting(line, i + 1).1));
        }
    }
}

/// A comment begins at the first `#` outside quotes, and the rest of the line is not read.
pub proof fn comments_are_not_read(line: Seq<char>) -> (at: int)
    ensures
        0 <= at <= line.len(),
        content(line) == trimmed(line.take(at)),
        at < line.len() ==> begins_comment(line, at),
        forall|k: int| 0 <= k < at ==> !#[trigger] begins_comment(line, k),
{
    lemma_comment(line, 0);
    comment_from(line, 0, false, false)
}

// ---------------------------------------------------------------------------
// Strings
// ---------------------------------------------------------------------------

/// A text with a backslash before each backslash and each quote.
pub open spec fn escaped(s: Seq<char>) -> Seq<char>
    decreases s.len(),
{
    if s.len() == 0 {
        Seq::empty()
    } else if s[0] == '\\' || s[0] == '"' {
        seq!['\\', s[0]] + escaped(s.drop_first())
    } else {
        seq![s[0]] + escaped(s.drop_first())
    }
}

/// A text in quotes.
pub open spec fn in_quotes(s: Seq<char>) -> Seq<char> {
    seq!['"'] + escaped(s) + seq!['"']
}

/// A text with each backslash doubled.
spec fn doubled(s: Seq<char>) -> Seq<char>
    decreases s.len(),
{
    if s.len() == 0 {
        Seq::empty()
    } else if s[0] == '\\' {
        seq!['\\', '\\'] + doubled(s.drop_first())
    } else {
        seq![s[0]] + doubled(s.drop_first())
    }
}

proof fn lemma_shift(a: Seq<char>, b: Seq<char>, c: char, i: int)
    requires
        0 <= i <= b.len(),
    ensures
        unescaped_from(a + b, c, a.len() + i) == unescaped_from(b, c, i),
    decreases b.len() - i,
{
    let all = a + b;
    if i < b.len() {
        assert(all[a.len() + i] == b[i]);
        if i + 1 < b.len() {
            assert(all[a.len() + i + 1] == b[i + 1]);
        }
        if b[i] == '\\' && i + 1 < b.len() && b[i + 1] == c {
            lemma_shift(a, b, c, i + 2);
        } else {
            lemma_shift(a, b, c, i + 1);
        }
    }
}

proof fn lemma_escaped(s: Seq<char>)
    ensures
        unescaped_from(escaped(s), '"', 0) == doubled(s),
        escaped(s).len() > 0 ==> escaped(s)[0] != '"',
    decreases s.len(),
{
    let t = escaped(s);
    if s.len() > 0 {
        let rest = escaped(s.drop_first());
        lemma_escaped(s.drop_first());
        if s[0] == '\\' || s[0] == '"' {
            let unit = seq!['\\', s[0]];
            assert(t == unit + rest);
            lemma_shift(unit, rest, '"', 0);
            assert(t[0] == '\\' && t[1] == s[0]);
            if s[0] == '"' {
                assert(unescaped_from(t, '"', 0) == seq!['"'] + unescaped_from(t, '"', 2));
            } else {
                if rest.len() > 0 {
                    assert(t[2] == rest[0]);
                }
                assert(unescaped_from(t, '"', 1) == seq!['\\'] + unescaped_from(t, '"', 2));
                assert(unescaped_from(t, '"', 0) == seq!['\\'] + unescaped_from(t, '"', 1));
                assert(seq!['\\'] + (seq!['\\'] + doubled(s.drop_first())) =~= seq!['\\', '\\']
                    + doubled(s.drop_first()));
            }
        } else {
            let unit = seq![s[0]];
            assert(t == unit + rest);
            lemma_shift(unit, rest, '"', 0);
            assert(t[0] == s[0]);
        }
    }
}

proof fn lemma_doubled(s: Seq<char>)
    ensures
        unescaped_from(doubled(s), '\\', 0) == s,
    decreases s.len(),
{
    let t = doubled(s);
    if s.len() > 0 {
        let rest = doubled(s.drop_first());
        lemma_doubled(s.drop_first());
        assert(s =~= seq![s[0]] + s.drop_first());
        if s[0] == '\\' {
            let unit = seq!['\\', '\\'];
            assert(t == unit + rest);
            lemma_shift(unit, rest, '\\', 0);
            assert(t[0] == '\\' && t[1] == '\\');
        } else {
            let unit = seq![s[0]];
            assert(t == unit + rest);
            lemma_shift(unit, rest, '\\', 0);
            assert(t[0] == s[0]);
        }
    } else {
        assert(s =~= Seq::empty());
    }
}

/// A text in quotes, with backslashes before its backslashes and quotes, is read back.
pub proof fn quoted_strings_are_read_back(s: Seq<char>)
    ensures
        string_value(in_quotes(s)) == Some(s),
{
    let value = in_quotes(s);
    lemma_escaped(s);
    lemma_doubled(s);
    assert(value.subrange(1, value.len() - 1) =~= escaped(s));
    assert(value.last() == '"');
}

/// Only a text in quotes is a string.
pub proof fn strings_stand_in_quotes(value: Seq<char>)
    ensures
        string_value(value) is Some <==> value.len() >= 2 && value[0] == '"' && value.last() == '"',
{
}

proof fn lemma_items(inner: Seq<char>, i: int)
    requires
        0 <= i <= inner.len(),
    ensures
        match items_from(inner, i) {
            Some(items) => items.len() == pieces_from(inner, ',', i).len() && forall|k: int|
                0 <= k < items.len() ==> string_value(trimmed(pieces_from(inner, ',', i)[k]))
                    == Some(#[trigger] items[k]),
            None => exists|k: int|
                0 <= k < pieces_from(inner, ',', i).len() && string_value(
                    trimmed(#[trigger] pieces_from(inner, ',', i)[k]),
                ) is None,
        },
    decreases inner.len() - i,
{
    lemma_position(inner, ',', i);
    let end = position(inner, ',', i);
    let first = inner.subrange(i, end);
    let all = pieces_from(inner, ',', i);
    assert(all[0] == first);
    if end < inner.len() {
        lemma_items(inner, end + 1);
        let rest = pieces_from(inner, ',', end + 1);
        assert(all =~= seq![first] + rest);
        match items_from(inner, i) {
            Some(items) => {
                let later = items_from(inner, end + 1)->0;
                assert forall|k: int| 0 <= k < items.len() implies string_value(trimmed(all[k]))
                    == Some(#[trigger] items[k]) by {
                    if k > 0 {
                        assert(items[k] == later[k - 1]);
                        assert(all[k] == rest[k - 1]);
                    }
                }
            },
            None => {
                if string_value(trimmed(first)) is Some {
                    let k = choose|k: int|
                        0 <= k < rest.len() && string_value(trimmed(#[trigger] rest[k])) is None;
                    assert(all[k + 1] == rest[k]);
                }
            },
        }
    } else {
        assert(all =~= seq![first]);
    }
}

/// An array is what stands in brackets: nothing, or strings with commas between them, white space
/// left out.
pub proof fn arrays_hold_strings(value: Seq<char>)
    ensures
        array_value(value) is Ok ==> value.len() >= 2 && value[0] == '[' && value.last() == ']',
        value.len() >= 2 && value[0] == '[' && value.last() == ']' ==> {
            let inner = trimmed(value.subrange(1, value.len() - 1));
            match array_value(value) {
                Ok(items) => if inner.len() == 0 {
                    items.len() == 0
                } else {
                    items.len() == pieces(inner, ',').len() && forall|k: int|
                        0 <= k < items.len() ==> string_value(trimmed(pieces(inner, ',')[k]))
                            == Some(#[trigger] items[k])
                },
                Err(_) => inner.len() > 0 && exists|k: int|
                    0 <= k < pieces(inner, ',').len() && string_value(
                        trimmed(#[trigger] pieces(inner, ',')[k]),
                    ) is None,
            }
        },
{
    if value.len() >= 2 {
        lemma_items(trimmed(value.subrange(1, value.len() - 1)), 0);
    }
}

/// A dependency is a name, with what it requires behind the first `@`.
pub proof fn dependencies_name_what_they_require(item: Seq<char>)
    ensures
        match dependency(item).requirement {
            Some(requirement) => item == dependency(item).name + seq!['@'] + requirement
                && !dependency(item).name.contains('@'),
            None => dependency(item).name == item && !item.contains('@'),
        },
{
    texts_are_parted_at_the_first_place(item, '@');
}

// ---------------------------------------------------------------------------
// Lines
// ---------------------------------------------------------------------------

/// Whether a text is two texts with an equals sign between them, the first one without one.
pub open spec fn sides(text: Seq<char>, key: Seq<char>, value: Seq<char>) -> bool {
    text == key + seq!['='] + value && !key.contains('=')
}

/// Whether a line sets what its key names to what its value says, and nothing else.
pub open spec fn sets(
    key: Seq<char>,
    value: Seq<char>,
    before: ManifestView,
    after: ManifestView,
) -> bool {
    ||| key == "name"@ && string_value(value) is Some && after == (ManifestView {
        name: string_value(value),
        ..before
    })
    ||| key == "entry"@ && string_value(value) is Some && after == (ManifestView {
        entry: string_value(value),
        ..before
    })
    ||| key == "module_roots"@ && (array_value(value) matches Ok(roots) && after == (ManifestView {
        module_roots: Some(roots),
        ..before
    }))
    ||| key == "dependencies"@ && (array_value(value) matches Ok(items) && after == (ManifestView {
        dependencies: items.map_values(|item: Seq<char>| dependency(item)),
        ..before
    }))
}

/// Whether a line sets nothing, because its key names nothing or its value says nothing.
pub open spec fn sets_nothing(key: Seq<char>, value: Seq<char>, before: ManifestView) -> bool {
    forall|after: ManifestView| !#[trigger] sets(key, value, before, after)
}

/// A line says nothing where it is blank but for a comment, and else sets what its key names.
pub proof fn lines_set_what_they_name(line: Seq<char>, m: ManifestView)
    ensures
        match after_line(line, m) {
            Ok(n) => (content(line).len() == 0 && n == m) || exists|
                key: Seq<char>,
                value: Seq<char>,
            |
                #[trigger] sides(content(line), key, value) && sets(
                    trimmed(key),
                    trimmed(value),
                    m,
                    n,
                ),
            Err(_) => content(line).len() > 0 && forall|key: Seq<char>, value: Seq<char>|
                #[trigger] sides(content(line), key, value) ==> sets_nothing(
                    trimmed(key),
                    trimmed(value),
                    m,
                ),
        },
{
    let text = content(line);
    texts_are_parted_at_the_first_place(text, '=');
    if let Some((a, b)) = parted(text, '=') {
        assert(sides(text, a, b));
        assert forall|key: Seq<char>, value: Seq<char>| #[trigger] sides(text, key, value) implies
            key == a && value == b by {
            lemma_sides(text, key, value, a, b);
        }
        if let Ok(n) = after_line(line, m) {
            if text.len() > 0 {
                if let Ok(items) = array_value(trimmed(b)) {
                    assert(Seq::new(items.len(), |i: int| dependency(items[i]))
                        =~= items.map_values(|item: Seq<char>| dependency(item)));
                }
                assert(sets(trimmed(a), trimmed(b), m, n));
            }
        }
        if after_line(line, m) is Err {
            lemma_words_differ();
            assert forall|after: ManifestView| !#[trigger] sets(trimmed(a), trimmed(b), m, after) by {}
        }
    } else {
        assert forall|key: Seq<char>, value: Seq<char>| !#[trigger] sides(text, key, value) by {
            if sides(text, key, value) {
                assert(text[key.len() as int] == '=');
                assert(text.contains('='));
            }
        }
    }
}

proof fn lemma_words_differ()
    ensures
        "name"@.len() == 4,
        "entry"@.len() == 5,
        "module_roots"@.len() == 12,
        "dependencies"@.len() == 12,
        "module_roots"@[0] != "dependencies"@[0],
{
    reveal_strlit("name");
    reveal_strlit("entry");
    reveal_strlit("module_roots");
    reveal_strlit("dependencies");
}

proof fn lemma_sides(
    text: Seq<char>,
    key: Seq<char>,
    value: Seq<char>,
    a: Seq<char>,
    b: Seq<char>,
)
    requires
        sides(text, key, value),
        sides(text, a, b),
    ensures
        key == a,
        value == b,
{
    assert(text[key.len() as int] == '=');
    assert(text[a.len() as int] == '=');
    if key.len() < a.len() {
        assert(a[key.len() as int] == '=');
        assert(a.contains('='));
    }
    if a.len() < key.len() {
        assert(key[a.len() as int] == '=');
        assert(key.contains('='));
    }
    assert(key =~= text.take(key.len() as int));
    assert(a =~= text.take(key.len() as int));
    assert(value =~= text.skip(key.len() as int + 1));
    assert(b =~= text.skip(key.len() as int + 1));
}

/// What the first `n` lines say, or nothing where one of them is wrong.
pub open spec fn said(lines: Seq<Seq<char>>, n: nat) -> Option<ManifestView>
    decreases n,
{
    if n == 0 {
        Some(empty_manifest())
    } else {
        match said(lines, (n - 1) as nat) {
            Some(m) => match after_line(lines[n - 1], m) {
                Ok(m) => Some(m),
                Err(_) => None,
            },
            None => None,
        }
    }
}

proof fn lemma_said_none(lines: Seq<Seq<char>>, k: nat, n: nat)
    requires
        k <= n,
        said(lines, k) is None,
    ensures
        said(lines, n) is None,
    decreases n - k,
{
    if k < n {
        lemma_said_none(lines, k, (n - 1) as nat);
    }
}

proof fn lemma_position(s: Seq<char>, c: char, i: int)
    requires
        0 <= i <= s.len(),
    ensures
        i <= position(s, c, i) <= s.len(),
    decreases s.len() - i,
{
    if i < s.len() && s[i] != c {
        lemma_position(s, c, i + 1);
    }
}

proof fn lemma_lines(
    text: Seq<char>,
    i: int,
    number: nat,
    lines: Seq<Seq<char>>,
    k: nat,
    m: ManifestView,
)
    requires
        0 <= i <= text.len(),
        k <= lines.len(),
        lines.skip(k as int) == pieces_from(text, '\n', i),
        said(lines, k) == Some(m),
    ensures
        match manifest_from(text, i, number, m) {
            Ok(n) => said(lines, lines.len()) == Some(n),
            Err(_) => said(lines, lines.len()) is None,
        },
    decreases text.len() - i,
{
    lemma_position(text, '\n', i);
    let end = position(text, '\n', i);
    let line = text.subrange(i, end);
    let rest = pieces_from(text, '\n', i);
    assert(rest[0] == line);
    assert(rest.len() == lines.len() - k);
    assert(lines[k as int] == rest[0]);
    if i == text.len() {
        assert(rest =~= seq![line]);
        assert(line =~= Seq::empty());
        lemma_blank();
        assert(said(lines, (k + 1) as nat) == Some(m));
    } else {
        match after_line(line, m) {
            Ok(n) => {
                assert(said(lines, (k + 1) as nat) == Some(n));
                if end < text.len() {
                    let later = pieces_from(text, '\n', end + 1);
                    assert(rest =~= seq![line] + later);
                    assert(lines.skip(k as int + 1) =~= rest.skip(1));
                    assert(rest.skip(1) =~= later);
                    lemma_lines(text, end + 1, number + 1, lines, k + 1, n);
                } else {
                    assert(rest =~= seq![line]);
                }
            },
            Err(_) => {
                assert(said(lines, (k + 1) as nat) is None);
                lemma_said_none(lines, (k + 1) as nat, lines.len());
            },
        }
    }
}

proof fn lemma_blank()
    ensures
        content(Seq::empty()).len() == 0,
{
    let none = Seq::<char>::empty();
    assert(none.take(0) =~= none);
}

/// A manifest says what its lines say one after the other; it is right where all of its lines are,
/// and they give it a name and an entry.
pub proof fn manifests_say_what_their_lines_say(text: Seq<char>)
    ensures
        match manifest_of(text) {
            Ok(m) => said(pieces(text, '\n'), pieces(text, '\n').len()) == Some(m) && m.name is Some
                && m.entry is Some,
            Err(_) => said(pieces(text, '\n'), pieces(text, '\n').len()) matches Some(m) ==> m.name
                is None || m.entry is None,
        },
{
    let lines = pieces(text, '\n');
    assert(lines.skip(0) =~= lines);
    lemma_lines(text, 0, 1, lines, 0, empty_manifest());
}

} // verus!
