//! Where a debugged program stops.

use vstd::prelude::*;

use crate::bytecode::program::FunctionKind;
use crate::cli::debugger::{
    breakpoint_of, breakpoint_set, chunk_of, file_meant, file_name, first_on_line, line_entered,
    line_meant, on_line, place_of, stops, with_breakpoint, BreakpointView, DebugEvent, DebuggerView,
};
use crate::cli::words::{begins, ends};
use crate::diagnostics::place_laws::{lines_before, places_count_lines_and_columns};
use crate::diagnostics::source::FileView;
use crate::diagnostics::span::{FileId, SourceSpan};

verus! {

// ---------------------------------------------------------------------------
// Breakpoints
// ---------------------------------------------------------------------------

/// Whether a piece of source begins on a line of a file: it begins in the file, and one line less
/// ends before it.
pub open spec fn begins_on(
    span: Option<SourceSpan>,
    files: Seq<FileView>,
    file_id: FileId,
    line: nat,
) -> bool {
    span matches Some(span) && {
        &&& span.file_id == file_id
        &&& file_id.0 < files.len()
        &&& span.start <= files[file_id.0 as int].bytes().len()
        &&& line == 1 + lines_before(files[file_id.0 as int].bytes(), span.start as nat)
    }
}

/// Whether an instruction is the first of some whose source begins on a line of a file.
pub open spec fn first_of_line(
    spans: Seq<Option<SourceSpan>>,
    ip: int,
    files: Seq<FileView>,
    file_id: FileId,
    line: nat,
) -> bool {
    &&& 0 <= ip < spans.len()
    &&& begins_on(spans[ip], files, file_id, line)
    &&& forall|i: int| 0 <= i < ip ==> !begins_on(#[trigger] spans[i], files, file_id, line)
}

/// Whether a text names a file: it is the file's name, its name ends so, or it is the last part
/// of the file's path.
pub open spec fn names_file(name: Seq<char>, text: Seq<char>) -> bool {
    ||| name == text
    ||| exists|front: Seq<char>| name == #[trigger] (front + text)
    ||| file_name(name) == Some(text)
}

/// Whether an event is at the first instruction of a line of the function that it is in, whichever
/// function that is.
pub open spec fn enters(event: DebugEvent, files: Seq<FileView>, file_id: FileId, line: nat) -> bool {
    &&& event.function.0 < event.program.functions@.len()
    &&& begins_on(event.source_span, files, file_id, line)
    &&& event.program.functions@[event.function.0 as int].kind matches FunctionKind::Bytecode(chunk)
        && first_of_line(
        chunk.source_map@,
        event.instruction_ip as int,
        files,
        file_id,
        line,
    )
}

/// Whether a breakpoint is hit by an event.
pub open spec fn hits(breakpoint: BreakpointView, event: DebugEvent, files: Seq<FileView>) -> bool {
    match breakpoint {
        BreakpointView::Instruction { function, instruction_ip } => {
            &&& instruction_ip == event.instruction_ip
            &&& function is None || function == Some(event.function)
        },
        BreakpointView::SourceLine { file, line } => exists|file_id: FileId|
            {
                &&& #[trigger] enters(event, files, file_id, line as nat)
                &&& file matches Some(text) ==> names_file(files[file_id.0 as int].name, text)
            },
    }
}

proof fn lemma_on_line(
    span: Option<SourceSpan>,
    files: Seq<FileView>,
    file_id: FileId,
    line: nat,
)
    ensures
        on_line(files, span, file_id, line) == begins_on(span, files, file_id, line),
{
    if let Some(span) = span {
        if span.file_id.0 < files.len() {
            places_count_lines_and_columns(
                files[span.file_id.0 as int].bytes(),
                span.start as nat,
            );
        }
    }
}

proof fn lemma_first(
    spans: Seq<Option<SourceSpan>>,
    i: int,
    files: Seq<FileView>,
    file_id: FileId,
    line: nat,
)
    requires
        0 <= i <= spans.len(),
        forall|j: int| 0 <= j < i ==> !begins_on(#[trigger] spans[j], files, file_id, line),
    ensures
        ({
            let first = first_on_line(files, spans, file_id, line, i);
            &&& i <= first <= spans.len()
            &&& first < spans.len() ==> first_of_line(spans, first, files, file_id, line)
            &&& first == spans.len() ==> forall|j: int|
                0 <= j < spans.len() ==> !begins_on(#[trigger] spans[j], files, file_id, line)
        }),
    decreases spans.len() - i,
{
    if i < spans.len() {
        lemma_on_line(spans[i], files, file_id, line);
        if !begins_on(spans[i], files, file_id, line) {
            lemma_first(spans, i + 1, files, file_id, line);
        }
    }
}

proof fn lemma_entered(event: DebugEvent, files: Seq<FileView>)
    ensures
        match line_entered(event, files) {
            Some((file_id, line)) => {
                &&& enters(event, files, file_id, line)
                &&& forall|other: FileId, l: nat| #[trigger]
                    enters(event, files, other, l) ==> other == file_id && l == line
            },
            None => forall|file_id: FileId, line: nat| !#[trigger]
                enters(event, files, file_id, line),
        },
{
    let program = event.program;
    assert(program@.functions.len() == program.functions@.len());
    if let Some(span) = event.source_span {
        if span.file_id.0 < files.len() {
            places_count_lines_and_columns(
                files[span.file_id.0 as int].bytes(),
                span.start as nat,
            );
        }
        if let Some((line, _)) = place_of(files, span) {
            if event.function.0 < program.functions@.len() {
                let function = program.functions@[event.function.0 as int];
                assert(program@.functions[event.function.0 as int] == function@);
                if let FunctionKind::Bytecode(chunk) = function.kind {
                    assert(chunk_of(program@, event.function) == Some(chunk@));
                    lemma_first(chunk.source_map@, 0, files, span.file_id, line);
                }
            }
        }
    }
}

proof fn lemma_meant(name: Seq<char>, text: Seq<char>)
    ensures
        file_meant(name, text) == names_file(name, text),
{
    if ends(name, text) {
        let front = name.take(name.len() - text.len());
        assert(name =~= front + text);
    }
    if exists|front: Seq<char>| name == #[trigger] (front + text) {
        let front = choose|front: Seq<char>| name == #[trigger] (front + text);
        assert(name.skip(name.len() - text.len()) =~= text);
    }
}

/// A debugged program stops before an instruction if and only if the debugger steps, or some
/// breakpoint is hit: one at an instruction by that instruction, in the named function or in any;
/// one at a source line by the first instruction of a function whose source begins on that line,
/// whichever function it is, in the named file or in any.
pub proof fn programs_stop_at_breakpoints(d: DebuggerView, event: DebugEvent, files: Seq<FileView>)
    ensures
        stops(d, event, files) <==> d.stepping || exists|i: int|
            0 <= i < d.breakpoints.len() && hits(#[trigger] d.breakpoints[i], event, files),
{
    lemma_entered(event, files);
    assert forall|i: int| 0 <= i < d.breakpoints.len() implies (#[trigger] hits(
        d.breakpoints[i],
        event,
        files,
    )) == match d.breakpoints[i] {
        BreakpointView::Instruction { function, instruction_ip } => instruction_ip
            == event.instruction_ip && (function is None || function == Some(event.function)),
        BreakpointView::SourceLine { .. } => line_entered(event, files) matches Some(
            (file_id, line),
        ) && line_meant(d.breakpoints[i], file_id, line, files),
    } by {
        if let BreakpointView::SourceLine { file, line } = d.breakpoints[i] {
            if let Some((file_id, l)) = line_entered(event, files) {
                if let Some(text) = file {
                    lemma_meant(files[file_id.0 as int].name, text);
                }
                assert(enters(event, files, file_id, l));
            }
        }
    }
    let here = BreakpointView::Instruction {
        function: Some(event.function),
        instruction_ip: event.instruction_ip,
    };
    let anywhere = BreakpointView::Instruction {
        function: None,
        instruction_ip: event.instruction_ip,
    };
    if d.breakpoints.contains(here) {
        let i = choose|i: int| 0 <= i < d.breakpoints.len() && d.breakpoints[i] == here;
        assert(hits(d.breakpoints[i], event, files));
    }
    if d.breakpoints.contains(anywhere) {
        let i = choose|i: int| 0 <= i < d.breakpoints.len() && d.breakpoints[i] == anywhere;
        assert(hits(d.breakpoints[i], event, files));
    }
    if exists|i: int| 0 <= i < d.breakpoints.len() && hits(#[trigger] d.breakpoints[i], event, files) {
        let i = choose|i: int|
            0 <= i < d.breakpoints.len() && hits(#[trigger] d.breakpoints[i], event, files);
        if d.breakpoints[i] is Instruction {
            assert(d.breakpoints[i] == here || d.breakpoints[i] == anywhere);
        }
    }
    if line_entered(event, files) is Some {
        let (file_id, line) = line_entered(event, files)->0;
        if exists|i: int|
            0 <= i < d.breakpoints.len() && line_meant(
                #[trigger] d.breakpoints[i],
                file_id,
                line,
                files,
            ) {
            let i = choose|i: int|
                0 <= i < d.breakpoints.len() && line_meant(
                    #[trigger] d.breakpoints[i],
                    file_id,
                    line,
                    files,
                );
            assert(hits(d.breakpoints[i], event, files));
        }
    }
}

/// Once a source line breakpoint is set, the program stops at every event that enters the line, in
/// whichever function, where the breakpoint names no file or the file of the line.
pub proof fn set_line_breakpoints_stop(
    d: DebuggerView,
    event: DebugEvent,
    text: Seq<char>,
    later: DebugEvent,
    files: Seq<FileView>,
    file_id: FileId,
)
    requires
        breakpoint_of(event.program@, text) matches Some(
            BreakpointView::SourceLine { file, line },
        ) && enters(later, files, file_id, line as nat) && (file matches Some(name) ==> names_file(
            files[file_id.0 as int].name,
            name,
        )),
    ensures
        stops(breakpoint_set(d, event, text).state, later, files),
{
    let b = breakpoint_of(event.program@, text)->0;
    let state = breakpoint_set(d, event, text).state;
    let all = with_breakpoint(d.breakpoints, b);
    programs_stop_at_breakpoints(state, later, files);
    if !d.breakpoints.contains(b) {
        assert(all.last() == b);
    }
    let i = choose|i: int| 0 <= i < all.len() && all[i] == b;
    assert(state.breakpoints[i] == b);
    assert(hits(state.breakpoints[i], later, files));
}

} // verus!
