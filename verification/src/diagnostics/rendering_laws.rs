//! What a rendered diagnostic shows.

use vstd::prelude::*;
use vstd::utf8::decode_utf8;

use crate::diagnostics::error::{
    caret_count, diagnostic_text, note_lines, snippet, DiagnosticView,
};
use crate::diagnostics::place_laws::{
    in_line_from, lines_before, places_count_lines_and_columns,
};
use crate::diagnostics::source::{line_bytes, location_of, FileView};
use crate::text::{decimal, repeated};

verus! {

/// Lines with a newline behind each of them.
pub open spec fn as_lines(lines: Seq<Seq<char>>) -> Seq<char> {
    lines.map_values(|line: Seq<char>| line.push('\n')).flatten()
}

proof fn lemma_flatten_last<A>(parts: Seq<Seq<A>>, last: Seq<A>)
    ensures
        parts.push(last).flatten() == parts.flatten() + last,
    decreases parts.len(),
{
    let all = parts.push(last);
    if parts.len() == 0 {
        assert(all.drop_first() =~= Seq::empty());
        assert(all.first() == last);
        assert(all.drop_first().flatten() =~= Seq::empty());
        assert(all.flatten() =~= last);
        assert(parts.flatten() + last =~= last);
    } else {
        lemma_flatten_last(parts.drop_first(), last);
        assert(all.drop_first() =~= parts.drop_first().push(last));
        assert(all.first() == parts.first());
        let rest = parts.drop_first().flatten();
        assert(parts.first() + (rest + last) =~= (parts.first() + rest) + last);
    }
}

proof fn lemma_notes(notes: Seq<Seq<char>>)
    ensures
        note_lines(notes) == as_lines(notes),
    decreases notes.len(),
{
    let ended = |line: Seq<char>| line.push('\n');
    reveal_strlit("\n");
    assert("\n"@ =~= seq!['\n']);
    if notes.len() > 0 {
        let front = notes.drop_last();
        lemma_notes(front);
        lemma_flatten_last(front.map_values(ended), ended(notes.last()));
        assert(notes.map_values(ended) =~= front.map_values(ended).push(ended(notes.last())));
        assert(note_lines(front) + notes.last() + seq!['\n'] =~= note_lines(front)
            + notes.last().push('\n'));
    } else {
        assert(notes.map_values(ended) =~= Seq::empty());
    }
}

/// Whether carets mark a piece of source in a line of `len` bytes from a column on: there is at
/// least one, there are no more than the piece has bytes or than the line has from the column on,
/// and there are as many as these two allow.
pub open spec fn marks(carets: nat, piece: nat, len: nat, column: nat) -> bool {
    &&& carets >= 1
    &&& carets > 1 ==> carets <= piece && column - 1 + carets <= len
    &&& carets < piece ==> column + carets > len
}

/// The line that shows where something stands.
pub open spec fn place_line(name: Seq<char>, line: nat, column: nat) -> Seq<char> {
    seq![' ', '-', '-', '>', ' '] + name + seq![':'] + decimal(line) + seq![':'] + decimal(column)
}

/// A diagnostic that stands in a file shows its message, its place, and the line of the file it
/// begins on, with carets under what it is about; its notes follow.
pub proof fn diagnostics_show_their_place(d: DiagnosticView, files: Seq<FileView>) -> (shown: (
    nat,
    nat,
    Seq<u8>,
    nat,
))
    requires
        d.span matches Some(span) && span.file_id.0 < files.len() && span.start
            <= files[span.file_id.0 as int].bytes().len() && span.start <= span.end,
    ensures
        ({
            let span = d.span->0;
            let file = files[span.file_id.0 as int];
            let (line, column, text, carets) = shown;
            &&& line == 1 + lines_before(file.bytes(), span.start as nat)
            &&& column >= 1
            &&& in_line_from(file.bytes(), span.start - column + 1, span.start as int)
            &&& line_bytes(file.bytes(), line)->0 == text
            &&& marks(carets, (span.end - span.start) as nat, text.len(), column)
            &&& diagnostic_text(d, files) == as_lines(
                seq![
                    seq!['e', 'r', 'r', 'o', 'r', ':', ' '] + d.message,
                    place_line(file.name, line, column),
                    seq![' ', ' ', '|'],
                    decimal(line) + seq![' ', '|', ' '] + decode_utf8(text),
                    seq![' ', ' ', '|', ' '] + repeated(' ', (column - 1) as nat) + repeated(
                        '^',
                        carets,
                    ),
                ],
            ) + as_lines(d.notes)
        }),
{
    let span = d.span->0;
    let file = files[span.file_id.0 as int];
    places_count_lines_and_columns(file.bytes(), span.start as nat);
    let (line, column) = location_of(file.bytes(), span.start as nat)->0;
    let text = line_bytes(file.bytes(), line)->0;
    let carets = caret_count(span, text.len(), column);
    lemma_notes(d.notes);
    reveal_strlit("error: ");
    reveal_strlit("\n");
    reveal_strlit(" --> ");
    reveal_strlit(":");
    reveal_strlit("  |\n");
    reveal_strlit(" | ");
    reveal_strlit("  | ");
    let one = seq!['e', 'r', 'r', 'o', 'r', ':', ' '] + d.message;
    let two = place_line(file.name, line, column);
    let three = seq![' ', ' ', '|'];
    let four = decimal(line) + seq![' ', '|', ' '] + decode_utf8(text);
    let five = seq![' ', ' ', '|', ' '] + repeated(' ', (column - 1) as nat) + repeated('^', carets);
    lemma_five(one, two, three, four, five);
    assert("error: "@ =~= seq!['e', 'r', 'r', 'o', 'r', ':', ' ']);
    assert("\n"@ =~= seq!['\n']);
    assert(" --> "@ =~= seq![' ', '-', '-', '>', ' ']);
    assert(":"@ =~= seq![':']);
    assert("  |\n"@ =~= three.push('\n'));
    assert(" | "@ =~= seq![' ', '|', ' ']);
    assert("  | "@ =~= seq![' ', ' ', '|', ' ']);
    let end = seq!['\n'];
    assert(snippet(span, files) == two + end + three.push('\n') + decimal(line) + seq![
        ' ',
        '|',
        ' ',
    ] + decode_utf8(text) + end + seq![' ', ' ', '|', ' '] + repeated(' ', (column - 1) as nat)
        + repeated('^', carets) + end);
    lemma_snippet(
        two,
        three,
        decimal(line),
        seq![' ', '|', ' '],
        decode_utf8(text),
        seq![' ', ' ', '|', ' '],
        repeated(' ', (column - 1) as nat),
        repeated('^', carets),
    );
    lemma_message(one, snippet(span, files), two, three, four, five);
    (line, column, text, carets)
}

proof fn lemma_snippet(
    two: Seq<char>,
    three: Seq<char>,
    number: Seq<char>,
    bar: Seq<char>,
    text: Seq<char>,
    margin: Seq<char>,
    spaces: Seq<char>,
    carets: Seq<char>,
)
    ensures
        two + seq!['\n'] + three.push('\n') + number + bar + text + seq!['\n'] + margin + spaces
            + carets + seq!['\n'] == two.push('\n') + three.push('\n') + (number + bar + text).push(
            '\n',
        ) + (margin + spaces + carets).push('\n'),
{
    assert(two + seq!['\n'] + three.push('\n') + number + bar + text + seq!['\n'] + margin + spaces
        + carets + seq!['\n'] =~= two.push('\n') + three.push('\n') + (number + bar + text).push(
        '\n',
    ) + (margin + spaces + carets).push('\n'));
}

proof fn lemma_message(
    one: Seq<char>,
    shown: Seq<char>,
    two: Seq<char>,
    three: Seq<char>,
    four: Seq<char>,
    five: Seq<char>,
)
    requires
        shown == two.push('\n') + three.push('\n') + four.push('\n') + five.push('\n'),
    ensures
        one + seq!['\n'] + shown == one.push('\n') + two.push('\n') + three.push('\n') + four.push(
            '\n',
        ) + five.push('\n'),
{
    assert(one + seq!['\n'] + shown =~= one.push('\n') + two.push('\n') + three.push('\n')
        + four.push('\n') + five.push('\n'));
}

proof fn lemma_five(
    one: Seq<char>,
    two: Seq<char>,
    three: Seq<char>,
    four: Seq<char>,
    five: Seq<char>,
)
    ensures
        as_lines(seq![one, two, three, four, five]) == one.push('\n') + two.push('\n') + three.push(
            '\n',
        ) + four.push('\n') + five.push('\n'),
{
    let none = Seq::<Seq<char>>::empty();
    let a = none.push(one.push('\n'));
    let b = a.push(two.push('\n'));
    let c = b.push(three.push('\n'));
    let d = c.push(four.push('\n'));
    let e = d.push(five.push('\n'));
    lemma_flatten_last(none, one.push('\n'));
    lemma_flatten_last(a, two.push('\n'));
    lemma_flatten_last(b, three.push('\n'));
    lemma_flatten_last(c, four.push('\n'));
    lemma_flatten_last(d, five.push('\n'));
    assert(seq![one, two, three, four, five].map_values(|line: Seq<char>| line.push('\n')) =~= e);
    assert(none.flatten() =~= Seq::empty());
    assert(Seq::<char>::empty() + one.push('\n') =~= one.push('\n'));
}

} // verus!
