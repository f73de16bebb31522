//! User-facing diagnostic rendering.

use vstd::prelude::*;
use vstd::string::{StringExecFns, StringSliceAdditionalSpecFns};
use vstd::utf8::{decode_utf8, encode_utf8};

use crate::bytecode::chunk::string_views;
use crate::diagnostics::source::{
    line_bytes, location_of, offsets_in_text_have_locations, FileView, SourceManager,
};
use crate::diagnostics::span::SourceSpan;
use crate::text::{decimal, push_decimal, push_repeated, repeated};

verus! {

/// Renderable diagnostic with a primary message, optional source span, and notes.
#[derive(Clone, Debug, PartialEq, Eq)]
pub struct Diagnostic {
    /// Main error message.
    pub message: String,
    /// Optional source location for caret rendering.
    pub span: Option<SourceSpan>,
    /// Extra lines printed after the primary diagnostic.
    pub notes: Vec<String>,
}

/// The mathematical content of a diagnostic.
#[verifier::ext_equal]
pub struct DiagnosticView {
    pub message: Seq<char>,
    pub span: Option<SourceSpan>,
    pub notes: Seq<Seq<char>>,
}

impl View for Diagnostic {
    type V = DiagnosticView;

    open spec fn view(&self) -> DiagnosticView {
        DiagnosticView {
            message: self.message@,
            span: self.span,
            notes: string_views(self.notes@),
        }
    }
}

/// One line for each note.
pub open spec fn note_lines(notes: Seq<Seq<char>>) -> Seq<char>
    decreases notes.len(),
{
    if notes.len() == 0 {
        Seq::empty()
    } else {
        note_lines(notes.drop_last()) + notes.last() + "\n"@
    }
}

/// The number of carets under a span that begins at a one-based column of a line of `len`
/// bytes: as many as the span covers of the line, and at least one.
pub open spec fn caret_count(span: SourceSpan, len: nat, column: nat) -> nat {
    let remaining = if column <= len + 1 {
        (len - (column - 1)) as nat
    } else {
        0
    };
    let covered = if span.spec_len() < remaining {
        span.spec_len()
    } else {
        remaining
    };
    if covered < 1 {
        1
    } else {
        covered
    }
}

/// The source line of a span with carets under it, if the span begins inside a known file.
pub open spec fn snippet(span: SourceSpan, files: Seq<FileView>) -> Seq<char> {
    if span.file_id.0 < files.len() {
        let file = files[span.file_id.0 as int];
        match location_of(file.bytes(), span.start as nat) {
            Some((line, column)) => {
                let text = line_bytes(file.bytes(), line)->0;
                " --> "@ + file.name + ":"@ + decimal(line) + ":"@ + decimal(column) + "\n"@
                    + "  |\n"@ + decimal(line) + " | "@ + decode_utf8(text) + "\n"@ + "  | "@
                    + repeated(' ', (column - 1) as nat) + repeated(
                    '^',
                    caret_count(span, text.len(), column),
                ) + "\n"@
            },
            None => Seq::empty(),
        }
    } else {
        Seq::empty()
    }
}

/// The text of a diagnostic: the message, the source line, the notes.
pub open spec fn diagnostic_text(d: DiagnosticView, files: Seq<FileView>) -> Seq<char> {
    "error: "@ + d.message + "\n"@ + match d.span {
        Some(span) => snippet(span, files),
        None => Seq::empty(),
    } + note_lines(d.notes)
}

impl Diagnostic {
    /// Creates a diagnostic with a message and optional source span.
    pub fn new(message: &str, span: Option<SourceSpan>) -> (diagnostic: Self)
        ensures
            diagnostic@ == (DiagnosticView { message: message@, span, notes: Seq::empty() }),
    {
        Diagnostic { message: message.to_owned(), span, notes: Vec::new() }
    }

    /// Attaches diagnostic notes such as runtime stack traces.
    pub fn with_notes(self, notes: Vec<String>) -> (diagnostic: Self)
        ensures
            diagnostic@ == (DiagnosticView { notes: string_views(notes@), ..self@ }),
    {
        let mut diagnostic = self;
        diagnostic.notes = notes;
        diagnostic
    }

    /// Renders the diagnostic using source text from a `SourceManager`.
    pub fn render(&self, sources: &SourceManager) -> (output: String)
        ensures
            output@ == diagnostic_text(self@, sources@),
    {
        let mut output = String::from_str("error: ");
        output.append(self.message.as_str());
        output.append("\n");
        if let Some(span) = self.span {
            let text = render_snippet(span, sources);
            output.append(text.as_str());
        } else {
            assert(output@ + Seq::<char>::empty() =~= output@);
        }
        let notes = render_notes(&self.notes);
        output.append(notes.as_str());
        output
    }
}

/// The source line of a span with carets under it.
fn render_snippet(span: SourceSpan, sources: &SourceManager) -> (output: String)
    ensures
        output@ == snippet(span, sources@),
{
    let file = match sources.file(span.file_id) {
        Some(file) => file,
        None => return String::new(),
    };
    let location = match file.location(span.start) {
        Some(location) => location,
        None => return String::new(),
    };
    proof {
        offsets_in_text_have_locations(file@.bytes(), span.start as nat);
    }
    let text = match file.line_text(location.line) {
        Some(text) => text,
        None => return String::new(),
    };
    let mut output = String::from_str(" --> ");
    output.append(file.name.as_str());
    output.append(":");
    push_decimal(&mut output, location.line as u64);
    output.append(":");
    push_decimal(&mut output, location.column as u64);
    output.append("\n");
    output.append("  |\n");
    push_decimal(&mut output, location.line as u64);
    output.append(" | ");
    output.append(text);
    output.append("\n");
    output.append("  | ");
    push_repeated(&mut output, ' ', location.column - 1);
    let width: usize = caret_width(span, text.as_bytes().len(), location.column);
    push_repeated(&mut output, '^', width);
    output.append("\n");
    output
}

/// One line for each note.
fn render_notes(notes: &Vec<String>) -> (output: String)
    ensures
        output@ == note_lines(string_views(notes@)),
{
    let ghost views = string_views(notes@);
    let mut output = String::new();
    let mut i: usize = 0;
    while i < notes.len()
        invariant
            i <= notes@.len(),
            views == string_views(notes@),
            output@ == note_lines(views.take(i as int)),
        decreases notes.len() - i,
    {
        assert(views.take(i + 1).drop_last() =~= views.take(i as int));
        output.append(notes[i].as_str());
        output.append("\n");
        i = i + 1;
    }
    assert(views.take(i as int) =~= views);
    output
}

/// The number of carets under a span.
fn caret_width(span: SourceSpan, line_len: usize, column: usize) -> (width: usize)
    requires
        column >= 1,
    ensures
        width == caret_count(span, line_len as nat, column as nat),
{
    if span.is_empty() {
        return 1;
    }
    let remaining: usize = line_len.saturating_sub(column - 1);
    let covered: usize = if span.len() < remaining {
        span.len()
    } else {
        remaining
    };
    if covered < 1 {
        1
    } else {
        covered
    }
}

/// A diagnostic without a span shows only its message and its notes, whatever the files.
pub proof fn unplaced_diagnostic_shows_message_and_notes(d: DiagnosticView, files: Seq<FileView>)
    requires
        d.span is None,
    ensures
        diagnostic_text(d, files) == "error: "@ + d.message + "\n"@ + note_lines(d.notes),
{
    let head = "error: "@ + d.message + "\n"@;
    assert(head + Seq::<char>::empty() =~= head);
}

} // verus!
