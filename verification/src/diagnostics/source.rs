//! Source storage and byte-offset to line/column mapping.

use vstd::prelude::*;
use vstd::string::{StrSliceExecFns, StringSliceAdditionalSpecFns};
use vstd::utf8::{
    decode_utf8, encode_utf8, encode_utf8_decode_utf8, encode_utf8_valid_utf8, is_char_boundary,
    is_char_boundary_start_end_of_seq, valid_utf8,
};

use crate::diagnostics::error::{diagnostic_text, Diagnostic};
use crate::diagnostics::span::{FileId, SourceSpan};
use crate::text::lemma_ascii_boundaries;

verus! {

/// Source file registered with `SourceManager`.
#[derive(Clone, Debug, PartialEq, Eq)]
pub struct SourceFile {
    /// Stable file id.
    pub id: FileId,
    /// Display name, usually a path.
    pub name: String,
    /// Full source text.
    pub source: String,
    /// Byte offsets at which lines begin.
    pub line_starts: Vec<usize>,
}

/// One-based source location derived from a byte offset.
#[derive(Clone, Copy, Debug, PartialEq, Eq, Structural)]
pub struct SourceLocation {
    /// Source file containing this location.
    pub file_id: FileId,
    /// One-based line number.
    pub line: usize,
    /// One-based column number.
    pub column: usize,
}

/// Stores source files and renders diagnostics against them.
#[derive(Debug, PartialEq, Eq)]
pub struct SourceManager {
    files: Vec<SourceFile>,
}

// ---------------------------------------------------------------------------
// Lines
// ---------------------------------------------------------------------------

/// The offsets up to `offset` at which a line begins: the start, and behind each newline that
/// is not the last byte.
pub open spec fn line_starts_up_to(bytes: Seq<u8>, offset: nat) -> Seq<nat>
    decreases offset,
{
    if offset == 0 {
        seq![0]
    } else {
        let before = line_starts_up_to(bytes, (offset - 1) as nat);
        if offset < bytes.len() && bytes[offset - 1] == 10 {
            before.push(offset)
        } else {
            before
        }
    }
}

/// The offsets at which a line begins.
pub open spec fn line_starts_of(bytes: Seq<u8>) -> Seq<nat> {
    line_starts_up_to(bytes, bytes.len())
}

/// The one-based line and column of an offset: the lines begun so far, and the distance from
/// the beginning of the last of them.
pub open spec fn location_of(bytes: Seq<u8>, offset: nat) -> Option<(nat, nat)> {
    if offset > bytes.len() {
        None
    } else {
        let starts = line_starts_up_to(bytes, offset);
        Some((starts.len(), (offset - starts.last() + 1) as nat))
    }
}

/// Bytes without the carriage returns and newlines at their end.
pub open spec fn without_line_end(bytes: Seq<u8>) -> Seq<u8>
    decreases bytes.len(),
{
    if bytes.len() > 0 && (bytes.last() == 10 || bytes.last() == 13) {
        without_line_end(bytes.drop_last())
    } else {
        bytes
    }
}

/// The bytes of a one-based line, without its line end.
pub open spec fn line_bytes(bytes: Seq<u8>, line: nat) -> Option<Seq<u8>> {
    let starts = line_starts_of(bytes);
    if 1 <= line <= starts.len() {
        let end = if line < starts.len() {
            starts[line as int]
        } else {
            bytes.len()
        };
        Some(without_line_end(bytes.subrange(starts[line - 1] as int, end as int)))
    } else {
        None
    }
}

/// Line beginnings are ordered, in range, and stay when more of the text is looked at.
pub(crate) proof fn lemma_line_starts(bytes: Seq<u8>, offset: nat)
    ensures
        line_starts_up_to(bytes, offset).len() >= 1,
        line_starts_up_to(bytes, offset)[0] == 0,
        forall|i: int|
            0 <= i < line_starts_up_to(bytes, offset).len() ==> #[trigger] line_starts_up_to(
                bytes,
                offset,
            )[i] <= offset,
        forall|i: int, j: int|
            0 <= i < j < line_starts_up_to(bytes, offset).len() ==> line_starts_up_to(
                bytes,
                offset,
            )[i] < line_starts_up_to(bytes, offset)[j],
        forall|i: int|
            1 <= i < line_starts_up_to(bytes, offset).len() ==> 1 <= #[trigger] line_starts_up_to(
                bytes,
                offset,
            )[i] < bytes.len() && bytes[line_starts_up_to(bytes, offset)[i] - 1] == 10,
    decreases offset,
{
    if offset > 0 {
        lemma_line_starts(bytes, (offset - 1) as nat);
    }
}

proof fn lemma_line_starts_extend(bytes: Seq<u8>, a: nat, b: nat)
    requires
        a <= b,
    ensures
        line_starts_up_to(bytes, a).len() <= line_starts_up_to(bytes, b).len(),
        forall|i: int|
            0 <= i < line_starts_up_to(bytes, a).len() ==> #[trigger] line_starts_up_to(bytes, b)[i]
                == line_starts_up_to(bytes, a)[i],
        forall|i: int|
            line_starts_up_to(bytes, a).len() <= i < line_starts_up_to(bytes, b).len()
                ==> #[trigger] line_starts_up_to(bytes, b)[i] > a,
    decreases b - a,
{
    if a < b {
        lemma_line_starts_extend(bytes, a, (b - 1) as nat);
    }
}

/// The beginning of a line is in that line, at its first column.
pub proof fn line_start_is_first_column(bytes: Seq<u8>, line: nat)
    requires
        1 <= line <= line_starts_of(bytes).len(),
    ensures
        location_of(bytes, line_starts_of(bytes)[line - 1]) == Some((line, 1nat)),
{
    let starts = line_starts_of(bytes);
    let start = starts[line - 1];
    lemma_line_starts(bytes, bytes.len());
    lemma_line_starts(bytes, start);
    lemma_line_starts_extend(bytes, start, bytes.len());
    let here = line_starts_up_to(bytes, start);
    if here.len() < line {
        assert(starts[line - 1] > start);
    }
    if here.len() > line {
        assert(starts[line as int] > starts[line - 1]);
        assert(here[line as int] <= start);
    }
    assert(here.last() == starts[line - 1]);
}

/// Every offset in the text has a location, in a line that exists.
pub proof fn offsets_in_text_have_locations(bytes: Seq<u8>, offset: nat)
    requires
        offset <= bytes.len(),
    ensures
        location_of(bytes, offset) matches Some((line, column)) && 1 <= line <= line_starts_of(
            bytes,
        ).len() && column >= 1 && column == offset - line_starts_of(bytes)[line - 1] + 1 && line_bytes(
            bytes,
            line,
        ) is Some,
{
    lemma_line_starts(bytes, offset);
    lemma_line_starts_extend(bytes, offset, bytes.len());
    let here = line_starts_up_to(bytes, offset);
    assert(line_starts_of(bytes)[here.len() - 1] == here.last());
}

/// The offsets at which a line begins.
fn line_starts(source: &str) -> (starts: Vec<usize>)
    ensures
        starts@.len() == line_starts_of(source.spec_bytes()).len(),
        forall|i: int|
            0 <= i < starts@.len() ==> #[trigger] starts@[i] == line_starts_of(
                source.spec_bytes(),
            )[i],
{
    let bytes = source.as_bytes();
    let mut starts: Vec<usize> = Vec::new();
    starts.push(0);
    let mut offset: usize = 0;
    while offset < bytes.len()
        invariant
            offset <= bytes@.len(),
            bytes@ == source.spec_bytes(),
            starts@.len() == line_starts_up_to(bytes@, offset as nat).len(),
            forall|i: int|
                0 <= i < starts@.len() ==> #[trigger] starts@[i] == line_starts_up_to(
                    bytes@,
                    offset as nat,
                )[i],
        decreases bytes.len() - offset,
    {
        let byte: u8 = bytes[offset];
        offset = offset + 1;
        if offset < bytes.len() && byte == 10 {
            starts.push(offset);
        }
    }
    starts
}

// ---------------------------------------------------------------------------
// Files
// ---------------------------------------------------------------------------

/// The name and the text of a source file.
pub struct FileView {
    pub name: Seq<char>,
    pub source: Seq<char>,
}

impl FileView {
    /// The UTF-8 bytes of the text.
    pub open spec fn bytes(self) -> Seq<u8> {
        encode_utf8(self.source)
    }
}

impl View for SourceFile {
    type V = FileView;

    open spec fn view(&self) -> FileView {
        FileView { name: self.name@, source: self.source@ }
    }
}

impl SourceFile {
    /// The recorded line beginnings are those of the text, and columns can be counted.
    pub open spec fn wf(self) -> bool {
        let starts = line_starts_of(self@.bytes());
        &&& self@.bytes().len() < usize::MAX
        &&& self.line_starts@.len() == starts.len()
        &&& forall|i: int|
            0 <= i < starts.len() ==> #[trigger] self.line_starts@[i] == starts[i]
    }

    /// The number of line beginnings up to an offset.
    fn lines_up_to(&self, offset: usize) -> (count: usize)
        requires
            self.wf(),
            offset <= self@.bytes().len(),
        ensures
            count == line_starts_up_to(self@.bytes(), offset as nat).len(),
            1 <= count <= self.line_starts@.len(),
            self.line_starts@[count - 1] == line_starts_up_to(self@.bytes(), offset as nat).last(),
    {
        let ghost bytes = self@.bytes();
        let ghost starts = line_starts_of(bytes);
        let ghost here = line_starts_up_to(bytes, offset as nat);
        proof {
            lemma_line_starts(bytes, bytes.len());
            lemma_line_starts(bytes, offset as nat);
            lemma_line_starts_extend(bytes, offset as nat, bytes.len());
            assert(self.line_starts@[0] == starts[0]);
        }
        let mut low: usize = 1;
        let mut high: usize = self.line_starts.len();
        while low < high
            invariant
                1 <= low <= high <= self.line_starts@.len(),
                self.wf(),
                bytes == self@.bytes(),
                starts == line_starts_of(bytes),
                forall|i: int, j: int| 0 <= i < j < starts.len() ==> starts[i] < starts[j],
                starts[low - 1] <= offset,
                forall|i: int| high <= i < starts.len() ==> #[trigger] starts[i] > offset,
            decreases high - low,
        {
            let middle: usize = low + (high - low) / 2;
            assert(self.line_starts@[middle as int] == starts[middle as int]);
            if self.line_starts[middle] <= offset {
                low = middle + 1;
            } else {
                high = middle;
            }
        }
        proof {
            if here.len() < low {
                assert(starts[low - 1] > offset);
            }
            if here.len() > low {
                assert(here[low as int] == starts[low as int]);
            }
            assert(self.line_starts@[low - 1] == starts[low - 1]);
        }
        low
    }

    /// Maps a byte offset to a one-based source location.
    pub fn location(&self, offset: usize) -> (location: Option<SourceLocation>)
        requires
            self.wf(),
        ensures
            match location {
                Some(location) => {
                    &&& location.file_id == self.id
                    &&& location_of(self@.bytes(), offset as nat) == Some(
                        (location.line as nat, location.column as nat),
                    )
                },
                None => location_of(self@.bytes(), offset as nat) is None,
            },
    {
        let len: usize = self.source.as_str().as_bytes().len();
        if offset > len {
            return None;
        }
        let line: usize = self.lines_up_to(offset);
        let start: usize = self.line_starts[line - 1];
        proof {
            lemma_line_starts(self@.bytes(), offset as nat);
        }
        Some(SourceLocation { file_id: self.id, line, column: offset - start + 1 })
    }

    /// Returns one-based line text without trailing newlines.
    pub fn line_text(&self, line: usize) -> (text: Option<&str>)
        requires
            self.wf(),
        ensures
            match text {
                Some(text) => line_bytes(self@.bytes(), line as nat) == Some(text.spec_bytes())
                    && text@ == decode_utf8(text.spec_bytes()),
                None => line_bytes(self@.bytes(), line as nat) is None,
            },
    {
        if line == 0 || line > self.line_starts.len() {
            return None;
        }
        let ghost bytes = self@.bytes();
        let ghost starts = line_starts_of(bytes);
        let source = self.source.as_str();
        let raw = source.as_bytes();
        let start: usize = self.line_starts[line - 1];
        let limit: usize = if line < self.line_starts.len() {
            self.line_starts[line]
        } else {
            raw.len()
        };
        proof {
            assert(self.line_starts@[line - 1] == starts[line - 1]);
            if line < self.line_starts@.len() {
                assert(self.line_starts@[line as int] == starts[line as int]);
            }
            lemma_line_starts(bytes, bytes.len());
            encode_utf8_valid_utf8(self.source@);
            is_char_boundary_start_end_of_seq(bytes);
            if line > 1 {
                lemma_ascii_boundaries(bytes, start - 1);
            }
            if line < starts.len() {
                lemma_ascii_boundaries(bytes, limit - 1);
            }
        }
        let mut end: usize = limit;
        while end > start && (raw[end - 1] == 10 || raw[end - 1] == 13)
            invariant
                start <= end <= limit <= raw@.len(),
                raw@ == bytes,
                valid_utf8(bytes),
                is_char_boundary(bytes, end as int),
                without_line_end(bytes.subrange(start as int, limit as int)) == without_line_end(
                    bytes.subrange(start as int, end as int),
                ),
            decreases end,
        {
            proof {
                lemma_ascii_boundaries(bytes, end - 1);
                assert(bytes.subrange(start as int, end as int).drop_last() =~= bytes.subrange(
                    start as int,
                    end - 1,
                ));
            }
            end = end - 1;
        }
        let (head, _) = source.split_at(end);
        proof {
            assert(head.spec_bytes() =~= bytes.subrange(0, end as int));
            encode_utf8_valid_utf8(head@);
            lemma_boundary_in_prefix(bytes, start as int, end as int);
        }
        let (_, text) = head.split_at(start);
        proof {
            assert(text.spec_bytes() =~= bytes.subrange(start as int, end as int));
            assert(without_line_end(text.spec_bytes()) == text.spec_bytes());
            encode_utf8_decode_utf8(text@);
        }
        Some(text)
    }
}

/// A boundary before a boundary is a boundary of the text in front of the latter.
proof fn lemma_boundary_in_prefix(bytes: Seq<u8>, start: int, end: int)
    requires
        valid_utf8(bytes),
        0 <= start <= end <= bytes.len(),
        is_char_boundary(bytes, start),
        is_char_boundary(bytes, end),
    ensures
        valid_utf8(bytes.subrange(0, end)),
        is_char_boundary(bytes.subrange(0, end), start),
{
    let head = bytes.subrange(0, end);
    vstd::utf8::valid_utf8_split(bytes, end);
    if start < end {
        vstd::utf8::is_char_boundary_iff_not_is_continuation_byte(bytes, start);
        vstd::utf8::is_char_boundary_iff_not_is_continuation_byte(head, start);
        assert(head[start] == bytes[start]);
    } else {
        is_char_boundary_start_end_of_seq(head);
    }
}

/// The contents of a list of files.
pub open spec fn file_views(files: Seq<SourceFile>) -> Seq<FileView> {
    Seq::new(files.len(), |i: int| files[i]@)
}

impl View for SourceManager {
    type V = Seq<FileView>;

    closed spec fn view(&self) -> Seq<FileView> {
        file_views(self.files@)
    }
}

impl Clone for SourceManager {
    fn clone(&self) -> (copy: Self)
        ensures
            copy@ == self@,
    {
        proof {
            use_type_invariant(self);
        }
        let mut files: Vec<SourceFile> = Vec::new();
        let mut i: usize = 0;
        while i < self.files.len()
            invariant
                i <= self.files@.len(),
                files@.len() == i,
                self.well_formed(),
                forall|k: int|
                    0 <= k < i ==> (#[trigger] files@[k]).wf() && files@[k].id == FileId(k as u32)
                        && files@[k]@ == self.files@[k]@,
            decreases self.files.len() - i,
        {
            let file = &self.files[i];
            assert(self.files@[i as int].wf());
            files.push(
                SourceFile {
                    id: file.id,
                    name: file.name.clone(),
                    source: file.source.clone(),
                    line_starts: file.line_starts.clone(),
                },
            );
            i = i + 1;
        }
        let copy = SourceManager { files };
        assert(copy@ =~= self@);
        copy
    }
}

impl SourceManager {
    #[verifier::type_invariant]
    spec fn well_formed(self) -> bool {
        forall|i: int|
            0 <= i < self.files@.len() ==> (#[trigger] self.files@[i]).wf() && self.files@[i].id
                == FileId(i as u32)
    }

    /// Creates an empty source manager.
    pub fn new() -> (sources: Self)
        ensures
            sources@ == Seq::<FileView>::empty(),
    {
        let sources = SourceManager { files: Vec::new() };
        assert(sources@ =~= Seq::<FileView>::empty());
        sources
    }

    /// Adds a file and returns its assigned `FileId`.
    pub fn add_file(&mut self, name: &str, source: &str) -> (id: FileId)
        requires
            encode_utf8(source@).len() < usize::MAX,
        ensures
            id == FileId(old(self)@.len() as u32),
            final(self)@ == old(self)@.push(FileView { name: name@, source: source@ }),
    {
        proof {
            use_type_invariant(&*self);
        }
        let id = FileId(self.files.len() as u32);
        let file = SourceFile {
            id,
            name: name.to_owned(),
            source: source.to_owned(),
            line_starts: line_starts(source),
        };
        let ghost before = self.files@;
        let mut files: Vec<SourceFile> = Vec::new();
        std::mem::swap(&mut files, &mut self.files);
        files.push(file);
        self.files = files;
        assert(self@ =~= old(self)@.push(FileView { name: name@, source: source@ }));
        id
    }

    /// Looks up a source file by id.
    pub fn file(&self, id: FileId) -> (file: Option<&SourceFile>)
        ensures
            match file {
                Some(file) => {
                    &&& id.0 < self@.len()
                    &&& file@ == self@[id.0 as int]
                    &&& file.wf()
                    &&& file.id == id
                },
                None => id.0 >= self@.len(),
            },
    {
        proof {
            use_type_invariant(self);
        }
        let index: usize = id.0 as usize;
        if index < self.files.len() {
            Some(&self.files[index])
        } else {
            None
        }
    }

    /// Maps a span start to a one-based source location.
    pub fn location(&self, span: SourceSpan) -> (location: Option<SourceLocation>)
        ensures
            match location {
                Some(location) => {
                    &&& span.file_id.0 < self@.len()
                    &&& location.file_id == span.file_id
                    &&& location_of(self@[span.file_id.0 as int].bytes(), span.start as nat)
                        == Some((location.line as nat, location.column as nat))
                },
                None => span.file_id.0 >= self@.len() || location_of(
                    self@[span.file_id.0 as int].bytes(),
                    span.start as nat,
                ) is None,
            },
    {
        match self.file(span.file_id) {
            Some(file) => file.location(span.start),
            None => None,
        }
    }

    /// Returns line text without trailing newline characters.
    pub fn line_text(&self, file_id: FileId, line: usize) -> (text: Option<&str>)
        ensures
            match text {
                Some(text) => {
                    &&& file_id.0 < self@.len()
                    &&& line_bytes(self@[file_id.0 as int].bytes(), line as nat) == Some(
                        text.spec_bytes(),
                    )
                },
                None => file_id.0 >= self@.len() || line_bytes(
                    self@[file_id.0 as int].bytes(),
                    line as nat,
                ) is None,
            },
    {
        match self.file(file_id) {
            Some(file) => file.line_text(line),
            None => None,
        }
    }

    /// Renders a diagnostic using the stored files.
    pub fn render_diagnostic(&self, diagnostic: &Diagnostic) -> (s: String)
        ensures
            s@ == diagnostic_text(diagnostic@, self@),
    {
        diagnostic.render(self)
    }
}

impl Default for SourceManager {
    fn default() -> (sources: Self)
        ensures
            sources@ == Seq::<FileView>::empty(),
    {
        Self::new()
    }
}

} // verus!
