//! What lines and columns are.

use vstd::prelude::*;

use crate::diagnostics::source::{
    lemma_line_starts, line_bytes, line_start_is_first_column, line_starts_of, line_starts_up_to, location_of,
    offsets_in_text_have_locations, without_line_end,
};

verus! {

/// Whether a line ends with the byte at `i`: it is a newline, and something stands behind it.
pub open spec fn breaks_line(bytes: Seq<u8>, i: int) -> bool {
    0 <= i && i + 1 < bytes.len() && bytes[i] == 10
}

/// How many lines end before byte `n`.
pub open spec fn lines_before(bytes: Seq<u8>, n: nat) -> nat
    decreases n,
{
    if n == 0 {
        0
    } else if breaks_line(bytes, n - 1) {
        lines_before(bytes, (n - 1) as nat) + 1
    } else {
        lines_before(bytes, (n - 1) as nat)
    }
}

/// Whether a line begins at byte `start` and goes on at least up to `offset`.
pub open spec fn in_line_from(bytes: Seq<u8>, start: int, offset: int) -> bool {
    &&& 0 <= start <= offset
    &&& start == 0 || breaks_line(bytes, start - 1)
    &&& forall|i: int| start <= i < offset ==> !#[trigger] breaks_line(bytes, i)
}

proof fn lemma_starts(bytes: Seq<u8>, offset: nat)
    requires
        offset <= bytes.len(),
    ensures
        line_starts_up_to(bytes, offset).len() == 1 + lines_before(bytes, offset),
        in_line_from(bytes, line_starts_up_to(bytes, offset).last() as int, offset as int),
    decreases offset,
{
    if offset > 0 {
        lemma_starts(bytes, (offset - 1) as nat);
        let before = line_starts_up_to(bytes, (offset - 1) as nat);
        if !breaks_line(bytes, offset - 1) {
            assert forall|i: int| before.last() <= i < offset implies !#[trigger] breaks_line(
                bytes,
                i,
            ) by {}
        }
    }
}

/// A place in a text is counted from one: its line is one more than the newlines before it, its
/// column one more than the bytes between the beginning of the line and the place. A newline at
/// the very end of a text begins no line. Only places in the text have a line.
pub proof fn places_count_lines_and_columns(bytes: Seq<u8>, offset: nat)
    ensures
        location_of(bytes, offset) is Some <==> offset <= bytes.len(),
        location_of(bytes, offset) matches Some((line, column)) ==> {
            &&& line == 1 + lines_before(bytes, offset)
            &&& 1 <= column <= offset + 1
            &&& in_line_from(bytes, offset - column + 1, offset as int)
        },
{
    if offset <= bytes.len() {
        lemma_starts(bytes, offset);
    }
}

proof fn lemma_line_end(bytes: Seq<u8>)
    ensures
        ({
            let kept = without_line_end(bytes);
            &&& kept.len() <= bytes.len()
            &&& kept == bytes.take(kept.len() as int)
            &&& kept.len() > 0 ==> kept.last() != 10 && kept.last() != 13
            &&& forall|i: int| kept.len() <= i < bytes.len() ==> bytes[i] == 10 || bytes[i] == 13
        }),
    decreases bytes.len(),
{
    if bytes.len() > 0 && (bytes.last() == 10 || bytes.last() == 13) {
        lemma_line_end(bytes.drop_last());
        let kept = without_line_end(bytes.drop_last());
        assert(kept =~= bytes.take(kept.len() as int));
        assert forall|i: int| kept.len() <= i < bytes.len() implies bytes[i] == 10 || bytes[i]
            == 13 by {
            if i < bytes.len() - 1 {
                assert(bytes.drop_last()[i] == bytes[i]);
            }
        }
    } else {
        assert(bytes.take(bytes.len() as int) =~= bytes);
    }
}

/// Whether the bytes `[start, end)` are a line with its line end: they begin at the first column
/// of the line, and end at the beginning of the next line or with the text.
pub open spec fn whole_line(bytes: Seq<u8>, line: nat, start: int, end: int) -> bool {
    &&& 0 <= start <= end <= bytes.len()
    &&& location_of(bytes, start as nat) == Some((line, 1nat))
    &&& end == bytes.len() || location_of(bytes, end as nat) == Some((line + 1, 1nat))
}

/// The bytes of a line are what stands in the text from the first column of the line on, up to
/// the carriage returns and newlines at its end. A line has bytes if and only if some place is in
/// it.
pub proof fn lines_are_pieces_of_their_text(bytes: Seq<u8>, line: nat) -> (piece: (int, int))
    ensures
        line_bytes(bytes, line) is Some <==> exists|offset: nat|
            (#[trigger] location_of(bytes, offset)) matches Some((l, _)) && l == line,
        line_bytes(bytes, line) matches Some(shown) ==> {
            let (start, end) = piece;
            &&& whole_line(bytes, line, start, end)
            &&& start + shown.len() <= end
            &&& shown == bytes.subrange(start, start + shown.len())
            &&& shown.len() > 0 ==> shown.last() != 10 && shown.last() != 13
            &&& forall|i: int|
                start + shown.len() <= i < end ==> (#[trigger] bytes[i]) == 10 || bytes[i] == 13
        },
{
    let starts = line_starts_of(bytes);
    if exists|offset: nat| (#[trigger] location_of(bytes, offset)) matches Some((l, _)) && l == line {
        let offset = choose|offset: nat|
            (#[trigger] location_of(bytes, offset)) matches Some((l, _)) && l == line;
        offsets_in_text_have_locations(bytes, offset);
    }
    if 1 <= line <= starts.len() {
        line_start_is_first_column(bytes, line);
        let start = starts[line - 1] as int;
        let end = if line < starts.len() {
            line_start_is_first_column(bytes, line + 1);
            starts[line as int] as int
        } else {
            bytes.len() as int
        };
        assert(location_of(bytes, starts[line - 1]) == Some((line, 1nat)));
        lemma_ordered(bytes, line);
        let all = bytes.subrange(start, end);
        lemma_line_end(all);
        let shown = without_line_end(all);
        assert(shown =~= bytes.subrange(start, start + shown.len()));
        assert forall|i: int| start + shown.len() <= i < end implies (#[trigger] bytes[i]) == 10
            || bytes[i] == 13 by {
            assert(all[i - start] == bytes[i]);
        }
        (start, end)
    } else {
        (0, 0)
    }
}

/// A line begins behind the line before it.
proof fn lemma_ordered(bytes: Seq<u8>, line: nat)
    requires
        1 <= line <= line_starts_of(bytes).len(),
    ensures
        line_starts_of(bytes)[line - 1] <= bytes.len(),
        line < line_starts_of(bytes).len() ==> line_starts_of(bytes)[line - 1] <= line_starts_of(
            bytes,
        )[line as int] <= bytes.len(),
{
    lemma_line_starts(bytes, bytes.len());
}

} // verus!
