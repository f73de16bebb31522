//! The instruction-level debugger: breakpoints, frames, watches and commands.
//!
//! A host runs the program and reads the input. Before each instruction it asks
//! `CliDebugger::before_instruction` whether to stop. While the program is stopped it hands each
//! input line to `CliDebugger::execute`, prints the answer, and goes on when an action comes back.

use vstd::prelude::*;
use vstd::string::{StringExecFns, StringSliceAdditionalSpecFns};
use vstd::utf8::{decode_utf8, encode_utf8, encode_utf8_decode_utf8};

use crate::bytecode::chunk::{option_view, option_views, string_views, Chunk, ChunkView};
use crate::bytecode::disassembler::{format_instruction, instruction_text};
use crate::bytecode::instruction::{FunctionId, Instruction, InstructionView};
use crate::bytecode::program::{FunctionKind, FunctionKindView, FunctionView, Program, ProgramView};
use crate::cli::display::{heap_text, Floats, HeapObject, HeapSnapshot};
use crate::cli::words::{
    begins, ends, has_suffix, is_word, numeral_within, parse_number, parted, split_once,
    strip_prefix, to_text, trim, trimmed,
};
use crate::diagnostics::source::{line_bytes, location_of, FileView, SourceManager};
use crate::diagnostics::span::{FileId, SourceSpan};
use crate::text::{
    characters, decimal, push_decimal, push_zero_padded, str_equal, zero_padded,
};
use crate::value::{FloatTexts, Value};

verus! {

// ---------------------------------------------------------------------------
// Events
// ---------------------------------------------------------------------------

/// One call frame.
#[derive(Clone, Debug, PartialEq, Eq)]
pub struct CallFrame {
    pub function_id: FunctionId,
    /// The next instruction of the frame.
    pub ip: usize,
    pub registers: Vec<Value>,
}

/// A program that is about to execute an instruction.
#[derive(Debug)]
pub struct DebugEvent<'a> {
    pub program: &'a Program,
    pub function: FunctionId,
    pub function_name: &'a str,
    pub instruction_ip: usize,
    pub instruction: &'a Instruction,
    pub source_span: Option<SourceSpan>,
    /// The registers of the running frame.
    pub registers: &'a Vec<Value>,
    /// The frames, outermost first.
    pub frames: &'a Vec<CallFrame>,
    pub heap: &'a HeapSnapshot,
}

/// What the program does next.
#[derive(Clone, Copy, Debug, PartialEq, Eq, Structural)]
pub enum DebugAction {
    /// Execute one instruction.
    Step,
    /// Run on.
    Continue,
    /// Stop debugging.
    Quit,
}

/// A place to stop at.
#[derive(Clone, Debug, PartialEq, Eq)]
pub enum Breakpoint {
    /// An instruction of a function, or of any function.
    Instruction { function: Option<FunctionId>, instruction_ip: usize },
    /// A source line, optionally of one file.
    SourceLine { file: Option<String>, line: usize },
}

/// The mathematical content of a breakpoint.
pub enum BreakpointView {
    Instruction { function: Option<FunctionId>, instruction_ip: usize },
    SourceLine { file: Option<Seq<char>>, line: usize },
}

impl View for Breakpoint {
    type V = BreakpointView;

    open spec fn view(&self) -> BreakpointView {
        match self {
            Breakpoint::Instruction { function, instruction_ip } => BreakpointView::Instruction {
                function: *function,
                instruction_ip: *instruction_ip,
            },
            Breakpoint::SourceLine { file, line } => BreakpointView::SourceLine {
                file: option_view(*file),
                line: *line,
            },
        }
    }
}

/// The contents of a list of breakpoints.
pub open spec fn breakpoint_views(breakpoints: Seq<Breakpoint>) -> Seq<BreakpointView> {
    Seq::new(breakpoints.len(), |i: int| breakpoints[i]@)
}

/// The state of a debugger.
pub struct DebuggerView {
    /// Whether it stops before every instruction.
    pub stepping: bool,
    pub breakpoints: Seq<BreakpointView>,
    /// The inspected frame, counted from the innermost one.
    pub selected: usize,
    pub watches: Seq<Seq<char>>,
}

/// Small interactive debugger.
#[derive(Clone, Debug, PartialEq, Eq)]
pub struct CliDebugger {
    pub stepping: bool,
    pub breakpoints: Vec<Breakpoint>,
    pub selected_frame: usize,
    pub watches: Vec<String>,
}

impl View for CliDebugger {
    type V = DebuggerView;

    open spec fn view(&self) -> DebuggerView {
        DebuggerView {
            stepping: self.stepping,
            breakpoints: breakpoint_views(self.breakpoints@),
            selected: self.selected_frame,
            watches: string_views(self.watches@),
        }
    }
}

// ---------------------------------------------------------------------------
// Source places
// ---------------------------------------------------------------------------

/// The line and column where a span begins.
pub open spec fn place_of(files: Seq<FileView>, span: SourceSpan) -> Option<(nat, nat)> {
    if span.file_id.0 < files.len() {
        location_of(files[span.file_id.0 as int].bytes(), span.start as nat)
    } else {
        None
    }
}

/// Whether a span begins on a line of a file.
pub open spec fn on_line(
    files: Seq<FileView>,
    span: Option<SourceSpan>,
    file_id: FileId,
    line: nat,
) -> bool {
    match span {
        Some(span) => span.file_id == file_id && (place_of(files, span) matches Some((l, _)) && l
            == line),
        None => false,
    }
}

/// The first instruction from `i` on whose span begins on a line of a file.
pub open spec fn first_on_line(
    files: Seq<FileView>,
    spans: Seq<Option<SourceSpan>>,
    file_id: FileId,
    line: nat,
    i: int,
) -> int
    decreases spans.len() - i,
{
    if 0 <= i < spans.len() && !on_line(files, spans[i], file_id, line) {
        first_on_line(files, spans, file_id, line, i + 1)
    } else {
        i
    }
}

/// The chunk of a function of a program.
pub open spec fn chunk_of(program: ProgramView, id: FunctionId) -> Option<ChunkView> {
    match program.function(id) {
        Some(function) => match function.kind {
            FunctionKindView::Bytecode(chunk) => Some(chunk),
            FunctionKindView::Native(_) => None,
        },
        None => None,
    }
}

/// The source line of an event, where the event is the first instruction of the line.
pub open spec fn line_entered(event: DebugEvent, files: Seq<FileView>) -> Option<(FileId, nat)> {
    match event.source_span {
        Some(span) => match place_of(files, span) {
            Some((line, _)) => match chunk_of(event.program@, event.function) {
                Some(chunk) => {
                    let first = first_on_line(files, chunk.source_map, span.file_id, line, 0);
                    if first < chunk.source_map.len() && first == event.instruction_ip {
                        Some((span.file_id, line))
                    } else {
                        None
                    }
                },
                None => None,
            },
            None => None,
        },
        None => None,
    }
}

/// The last component of a path.
pub open spec fn file_name(path: Seq<char>) -> Option<Seq<char>>
    decreases path.len(),
{
    if ends(path, "/"@) && path.len() > 0 {
        file_name(path.drop_last())
    } else if ends(path, "/."@) && path.len() > 1 {
        file_name(path.take(path.len() - 2))
    } else {
        let name = path.skip(last_slash(path) + 1);
        if name.len() == 0 || name == "."@ || name == ".."@ {
            None
        } else {
            Some(name)
        }
    }
}

/// The position of the last slash of a path, or -1.
pub open spec fn last_slash(path: Seq<char>) -> int
    decreases path.len(),
{
    if path.len() == 0 {
        -1
    } else if path.last() == '/' {
        path.len() - 1
    } else {
        last_slash(path.drop_last())
    }
}

/// Whether a file is meant by the text of a breakpoint.
pub open spec fn file_meant(name: Seq<char>, text: Seq<char>) -> bool {
    name == text || ends(name, text) || file_name(name) == Some(text)
}

/// Whether a source line breakpoint stands for a line.
pub open spec fn line_meant(
    breakpoint: BreakpointView,
    file_id: FileId,
    line: nat,
    files: Seq<FileView>,
) -> bool {
    match breakpoint {
        BreakpointView::SourceLine { file, line: wanted } => {
            &&& wanted == line
            &&& match file {
                Some(text) => file_meant(files[file_id.0 as int].name, text),
                None => true,
            }
        },
        BreakpointView::Instruction { .. } => false,
    }
}

/// Whether a debugger stops at an event.
pub open spec fn stops(d: DebuggerView, event: DebugEvent, files: Seq<FileView>) -> bool {
    ||| d.stepping
    ||| d.breakpoints.contains(
        BreakpointView::Instruction {
            function: Some(event.function),
            instruction_ip: event.instruction_ip,
        },
    )
    ||| d.breakpoints.contains(
        BreakpointView::Instruction { function: None, instruction_ip: event.instruction_ip },
    )
    ||| (line_entered(event, files) matches Some((file_id, line)) && exists|i: int|
        0 <= i < d.breakpoints.len() && line_meant(
            #[trigger] d.breakpoints[i],
            file_id,
            line,
            files,
        ))
}

// ---------------------------------------------------------------------------
// Commands
// ---------------------------------------------------------------------------

/// The mathematical content of a debugger command.
pub enum DebugCommandView {
    Step,
    Continue,
    Quit,
    Registers,
    Stack,
    Frame,
    SelectFrame(Seq<char>),
    Instruction,
    Disassemble(usize),
    Watch(Seq<char>),
    Watches,
    Unwatch(Seq<char>),
    Help,
    Break(Seq<char>),
    Clear(Seq<char>),
    ClearAll,
    Unknown(Seq<char>),
}

/// A debugger command.
#[derive(Clone, Debug, PartialEq, Eq)]
pub enum DebugCommand {
    Step,
    Continue,
    Quit,
    Registers,
    Stack,
    Frame,
    SelectFrame(String),
    Instruction,
    Disassemble(usize),
    Watch(String),
    Watches,
    Unwatch(String),
    Help,
    Break(String),
    Clear(String),
    ClearAll,
    Unknown(String),
}

impl View for DebugCommand {
    type V = DebugCommandView;

    open spec fn view(&self) -> DebugCommandView {
        match self {
            DebugCommand::Step => DebugCommandView::Step,
            DebugCommand::Continue => DebugCommandView::Continue,
            DebugCommand::Quit => DebugCommandView::Quit,
            DebugCommand::Registers => DebugCommandView::Registers,
            DebugCommand::Stack => DebugCommandView::Stack,
            DebugCommand::Frame => DebugCommandView::Frame,
            DebugCommand::SelectFrame(text) => DebugCommandView::SelectFrame(text@),
            DebugCommand::Instruction => DebugCommandView::Instruction,
            DebugCommand::Disassemble(radius) => DebugCommandView::Disassemble(*radius),
            DebugCommand::Watch(expr) => DebugCommandView::Watch(expr@),
            DebugCommand::Watches => DebugCommandView::Watches,
            DebugCommand::Unwatch(text) => DebugCommandView::Unwatch(text@),
            DebugCommand::Help => DebugCommandView::Help,
            DebugCommand::Break(text) => DebugCommandView::Break(text@),
            DebugCommand::Clear(text) => DebugCommandView::Clear(text@),
            DebugCommand::ClearAll => DebugCommandView::ClearAll,
            DebugCommand::Unknown(text) => DebugCommandView::Unknown(text@),
        }
    }
}

/// What follows a word and a space in a command, trimmed.
pub open spec fn argument(command: Seq<char>, word: Seq<char>) -> Option<Seq<char>> {
    if begins(command, word) {
        Some(trimmed(command.skip(word.len() as int)))
    } else {
        None
    }
}

/// The first of two arguments.
pub open spec fn either(a: Option<Seq<char>>, b: Option<Seq<char>>) -> Option<Seq<char>> {
    if a is Some {
        a
    } else {
        b
    }
}

/// The number of instructions shown on each side, unless a number is given.
pub const DEFAULT_RADIUS: usize = 2;

/// The command of an input line.
pub open spec fn command_of_line(line: Seq<char>) -> DebugCommandView {
    let c = trimmed(line);
    let frame = argument(c, "frame "@);
    let disassemble = either(
        either(argument(c, "disasm "@), argument(c, "disassemble "@)),
        argument(c, "u "@),
    );
    let watch = argument(c, "watch "@);
    let unwatch = either(argument(c, "unwatch "@), argument(c, "uw "@));
    let stop = either(argument(c, "break "@), argument(c, "b "@));
    let clear = either(argument(c, "clear "@), argument(c, "cl "@));
    if c.len() == 0 || c == "s"@ || c == "step"@ || c == "n"@ || c == "next"@ {
        DebugCommandView::Step
    } else if c == "c"@ || c == "continue"@ {
        DebugCommandView::Continue
    } else if c == "q"@ || c == "quit"@ {
        DebugCommandView::Quit
    } else if c == "r"@ || c == "registers"@ || c == "regs"@ {
        DebugCommandView::Registers
    } else if c == "bt"@ || c == "stack"@ || c == "frames"@ {
        DebugCommandView::Stack
    } else if c == "frame"@ {
        DebugCommandView::Frame
    } else if frame is Some {
        DebugCommandView::SelectFrame(frame->0)
    } else if c == "i"@ || c == "instruction"@ {
        DebugCommandView::Instruction
    } else if c == "disasm"@ || c == "disassemble"@ || c == "u"@ {
        DebugCommandView::Disassemble(DEFAULT_RADIUS)
    } else if disassemble is Some {
        DebugCommandView::Disassemble(
            match numeral_within(disassemble->0, usize::MAX as nat) {
                Some(radius) => radius as usize,
                None => DEFAULT_RADIUS,
            },
        )
    } else if watch is Some {
        DebugCommandView::Watch(watch->0)
    } else if c == "watches"@ || c == "watch"@ {
        DebugCommandView::Watches
    } else if unwatch is Some {
        DebugCommandView::Unwatch(unwatch->0)
    } else if c == "h"@ || c == "help"@ {
        DebugCommandView::Help
    } else if stop is Some {
        DebugCommandView::Break(stop->0)
    } else if clear is Some {
        DebugCommandView::Clear(clear->0)
    } else if c == "clear"@ || c == "cl"@ {
        DebugCommandView::ClearAll
    } else {
        DebugCommandView::Unknown(c)
    }
}

/// The first function from `i` on with a name.
pub open spec fn function_named(functions: Seq<FunctionView>, name: Seq<char>, i: int) -> Option<
    FunctionId,
>
    decreases functions.len() - i,
{
    if 0 <= i < functions.len() {
        if functions[i].name == name {
            Some(FunctionId(i as u16))
        } else {
            function_named(functions, name, i + 1)
        }
    } else {
        None
    }
}

/// The function that a text names, by number or by name.
pub open spec fn function_meant(program: ProgramView, text: Seq<char>) -> Option<FunctionId> {
    let id = if begins(text, "fn#"@) {
        text.skip("fn#"@.len() as int)
    } else {
        text
    };
    match numeral_within(id, u16::MAX as nat) {
        Some(n) => Some(FunctionId(n as u16)),
        None => function_named(program.functions, text, 0),
    }
}

/// The breakpoint that a text describes.
pub open spec fn breakpoint_of(program: ProgramView, text: Seq<char>) -> Option<BreakpointView> {
    if begins(text, "line "@) {
        match numeral_within(trimmed(text.skip("line "@.len() as int)), usize::MAX as nat) {
            Some(line) => Some(BreakpointView::SourceLine { file: None, line: line as usize }),
            None => None,
        }
    } else {
        match parted(text, ':') {
            Some((target, number)) => match numeral_within(trimmed(number), usize::MAX as nat) {
                Some(n) => match function_meant(program, trimmed(target)) {
                    Some(function) => Some(
                        BreakpointView::Instruction {
                            function: Some(function),
                            instruction_ip: n as usize,
                        },
                    ),
                    None => Some(
                        BreakpointView::SourceLine {
                            file: Some(trimmed(target)),
                            line: n as usize,
                        },
                    ),
                },
                None => None,
            },
            None => match numeral_within(text, usize::MAX as nat) {
                Some(n) => Some(
                    BreakpointView::Instruction { function: None, instruction_ip: n as usize },
                ),
                None => None,
            },
        }
    }
}

/// The description of a breakpoint.
pub open spec fn breakpoint_text(breakpoint: BreakpointView) -> Seq<char> {
    match breakpoint {
        BreakpointView::Instruction { function, instruction_ip } => match function {
            Some(function) => function.text() + ":"@ + decimal(instruction_ip as nat),
            None => "ip="@ + decimal(instruction_ip as nat),
        },
        BreakpointView::SourceLine { file, line } => match file {
            Some(file) => file + ":"@ + decimal(line as nat),
            None => "line "@ + decimal(line as nat),
        },
    }
}

// ---------------------------------------------------------------------------
// Frames and watches
// ---------------------------------------------------------------------------

/// What is shown of a frame.
pub struct FrameView {
    pub name: Seq<char>,
    pub function: FunctionId,
    pub ip: usize,
    pub registers: Seq<Value>,
}

/// The frame `index` places outside the innermost one. The innermost one has the registers and
/// the instruction of the event.
pub open spec fn frame_at(event: DebugEvent, index: nat) -> Option<FrameView> {
    if index < event.frames@.len() {
        let frame = event.frames@[event.frames@.len() - 1 - index];
        Some(
            FrameView {
                name: match event.program@.function(frame.function_id) {
                    Some(function) => function.name,
                    None => "<unknown>"@,
                },
                function: frame.function_id,
                ip: if index == 0 {
                    event.instruction_ip
                } else {
                    frame.ip
                },
                registers: if index == 0 {
                    event.registers@
                } else {
                    frame.registers@
                },
            },
        )
    } else {
        None
    }
}

/// The name, function and instruction of a frame.
pub open spec fn frame_text(frame: FrameView) -> Seq<char> {
    frame.name + " ("@ + frame.function.text() + ", ip="@ + decimal(frame.ip as nat) + ")"@
}

pub open spec fn frame_unavailable(selected: usize) -> Seq<char> {
    "frame #"@ + decimal(selected as nat) + " is unavailable"@
}

/// The selected frame, or the innermost one where there are fewer frames.
pub open spec fn normalized(selected: usize, event: DebugEvent) -> usize {
    if selected >= event.frames@.len() {
        0
    } else {
        selected
    }
}

/// The first register from `i` on with a debug name.
pub open spec fn register_named(names: Seq<Option<Seq<char>>>, name: Seq<char>, i: int) -> Option<int>
    decreases names.len() - i,
{
    if 0 <= i < names.len() {
        if names[i] == Some(name) {
            Some(i)
        } else {
            register_named(names, name, i + 1)
        }
    } else {
        None
    }
}

/// The register that a text names by number.
pub open spec fn register_of(text: Seq<char>) -> Option<nat> {
    if begins(text, "r"@) {
        numeral_within(text.skip("r"@.len() as int), usize::MAX as nat)
    } else {
        None
    }
}

/// The value of a watch expression, or why it has none.
pub open spec fn watch_value(event: DebugEvent, selected: usize, expr: Seq<char>) -> Result<
    Value,
    Seq<char>,
> {
    match frame_at(event, selected as nat) {
        None => Err(frame_unavailable(selected)),
        Some(frame) => match register_of(expr) {
            Some(register) => if register < frame.registers.len() {
                Ok(frame.registers[register as int])
            } else {
                Err("register r"@ + decimal(register) + " is unavailable"@)
            },
            None => match event.program@.function(frame.function) {
                None => Err("function "@ + frame.function.text() + " is unavailable"@),
                Some(function) => match function.kind {
                    FunctionKindView::Native(_) => Err(
                        frame.function.text() + " is native and has no locals"@,
                    ),
                    FunctionKindView::Bytecode(chunk) => match register_named(
                        chunk.debug_local_names,
                        expr,
                        0,
                    ) {
                        None => Err("unknown watch expression `"@ + expr + "`"@),
                        Some(register) => if register < frame.registers.len() {
                            Ok(frame.registers[register])
                        } else {
                            Err("local `"@ + expr + "` is unavailable"@)
                        },
                    },
                },
            },
        },
    }
}

/// The line that shows a watch.
pub open spec fn watch_line(
    event: DebugEvent,
    selected: usize,
    index: nat,
    expr: Seq<char>,
    floats: Floats,
) -> Seq<char> {
    let head = "watch #"@ + decimal(index) + ": "@ + expr;
    match watch_value(event, selected, expr) {
        Ok(value) => head + " = "@ + heap_text(event.heap.objects@, value, 0, floats) + "\n"@,
        Err(message) => head + " ("@ + message + ")\n"@,
    }
}

/// The lines that show the first `n` watches.
pub open spec fn watch_lines(
    event: DebugEvent,
    selected: usize,
    watches: Seq<Seq<char>>,
    n: nat,
    floats: Floats,
) -> Seq<char>
    decreases n,
{
    if n == 0 {
        Seq::empty()
    } else {
        watch_lines(event, selected, watches, (n - 1) as nat, floats) + watch_line(
            event,
            selected,
            (n - 1) as nat,
            watches[n - 1],
            floats,
        )
    }
}

/// The lines that show the place of an event in its source.
pub open spec fn place_lines(event: DebugEvent, files: Seq<FileView>) -> Seq<char> {
    match event.source_span {
        Some(span) => match place_of(files, span) {
            Some((line, column)) => {
                let head = " --> "@ + files[span.file_id.0 as int].name + ":"@ + decimal(line)
                    + ":"@ + decimal(column) + "\n"@;
                match line_bytes(files[span.file_id.0 as int].bytes(), line) {
                    Some(bytes) => head + "  | "@ + decode_utf8(bytes) + "\n"@,
                    None => head,
                }
            },
            None => Seq::empty(),
        },
        None => Seq::empty(),
    }
}

/// What is shown where the program stops.
pub open spec fn stop_text(
    d: DebuggerView,
    event: DebugEvent,
    files: Seq<FileView>,
    floats: Floats,
) -> Seq<char> {
    "stopped at "@ + event.function.text() + " "@ + event.function_name@ + " ip="@ + decimal(
        event.instruction_ip as nat,
    ) + ": "@ + instruction_text(event.instruction@) + "\n"@ + place_lines(event, files)
        + watch_lines(event, d.selected, d.watches, d.watches.len(), floats)
}

/// The lines that show the first `n` registers.
pub open spec fn register_lines(
    objects: Seq<HeapObject>,
    registers: Seq<Value>,
    n: nat,
    floats: Floats,
) -> Seq<char>
    decreases n,
{
    if n == 0 {
        Seq::empty()
    } else {
        register_lines(objects, registers, (n - 1) as nat, floats) + "r"@ + decimal(
            (n - 1) as nat,
        ) + " = "@ + heap_text(objects, registers[n - 1], 0, floats) + "\n"@
    }
}

/// What is shown of the registers of the selected frame.
pub open spec fn registers_text(d: DebuggerView, event: DebugEvent, floats: Floats) -> Seq<char> {
    match frame_at(event, d.selected as nat) {
        None => frame_unavailable(d.selected) + "\n"@,
        Some(frame) => {
            let head = "registers for frame #"@ + decimal(d.selected as nat) + " "@ + frame_text(
                frame,
            ) + "\n"@;
            if frame.registers.len() == 0 {
                head + "registers: <empty>\n"@
            } else {
                head + register_lines(
                    event.heap.objects@,
                    frame.registers,
                    frame.registers.len(),
                    floats,
                )
            }
        },
    }
}

/// The lines that show the innermost `n` frames.
pub open spec fn frame_lines(event: DebugEvent, selected: usize, n: nat) -> Seq<char>
    decreases n,
{
    if n == 0 {
        Seq::empty()
    } else {
        let mark = if n - 1 == selected {
            " *"@
        } else {
            Seq::empty()
        };
        match frame_at(event, (n - 1) as nat) {
            Some(frame) => frame_lines(event, selected, (n - 1) as nat) + "#"@ + decimal(
                (n - 1) as nat,
            ) + mark + " at "@ + frame_text(frame) + "\n"@,
            None => frame_lines(event, selected, (n - 1) as nat),
        }
    }
}

/// What is shown of the selected frame.
pub open spec fn selected_text(selected: usize, event: DebugEvent) -> Seq<char> {
    match frame_at(event, selected as nat) {
        None => frame_unavailable(selected) + "\n"@,
        Some(frame) => "selected frame #"@ + decimal(selected as nat) + " at "@ + frame_text(frame)
            + "\n"@,
    }
}

/// The lines that show the instructions from `start` up to `end`.
pub open spec fn code_lines(
    instructions: Seq<InstructionView>,
    current: usize,
    start: int,
    end: int,
) -> Seq<char>
    decreases end - start,
{
    if start < end {
        let marker = if end - 1 == current {
            "=> "@
        } else {
            "   "@
        };
        code_lines(instructions, current, start, end - 1) + marker + zero_padded(
            (end - 1) as nat,
            4,
        ) + " "@ + instruction_text(instructions[end - 1]) + "\n"@
    } else {
        Seq::empty()
    }
}

/// What is shown of the code around the selected frame.
pub open spec fn code_text(d: DebuggerView, event: DebugEvent, radius: usize) -> Seq<char> {
    match frame_at(event, d.selected as nat) {
        None => frame_unavailable(d.selected) + "\n"@,
        Some(frame) => match event.program@.function(frame.function) {
            None => "function "@ + frame.function.text() + " is unavailable\n"@,
            Some(function) => match function.kind {
                FunctionKindView::Native(_) => frame.function.text()
                    + " is native and has no bytecode\n"@,
                FunctionKindView::Bytecode(chunk) => {
                    let start = if radius <= frame.ip {
                        frame.ip - radius
                    } else {
                        0
                    };
                    let wanted = frame.ip + radius + 1;
                    let end = if wanted <= chunk.instructions.len() {
                        wanted
                    } else {
                        chunk.instructions.len() as int
                    };
                    "disassembly for frame #"@ + decimal(d.selected as nat) + " "@ + frame_text(
                        frame,
                    ) + "\n"@ + code_lines(chunk.instructions, frame.ip, start, end)
                },
            },
        },
    }
}

/// The help text.
pub const HELP: &'static str = "commands:\n  step | s              execute one instruction\n  continue | c          run until program end or breakpoint\n  break <ip>            stop at instruction ip in any function\n  break <fn>:<ip>       stop at instruction ip in function id or name\n  break line <line>     stop at source line in any file\n  break <file>:<line>   stop at source line in a file/path\n  clear [breakpoint]    clear one breakpoint or all breakpoints\n  registers | r         print selected-frame registers\n  stack | bt | frames   print call stack\n  frame [index]         select or print the inspected frame\n  watch <expr>          watch register rN or a debug local name\n  watches               print watch expressions\n  unwatch <index>       remove a watch expression\n  disasm [radius]       print bytecode around selected frame\n  instruction | i       print current instruction\n  quit | q              stop debugging\n";

/// What a command does: the new state, what is shown, and the action that ends the stop.
pub struct Outcome {
    pub state: DebuggerView,
    pub output: Seq<char>,
    pub action: Option<DebugAction>,
}

pub open spec fn shows(state: DebuggerView, output: Seq<char>) -> Outcome {
    Outcome { state, output, action: None }
}

/// The message of a breakpoint command.
pub open spec fn breakpoint_message(prefix: Seq<char>, breakpoint: BreakpointView) -> Seq<char> {
    prefix + " breakpoint at "@ + breakpoint_text(breakpoint) + "\n"@
}

/// A list of breakpoints with one more, unless it is there.
pub open spec fn with_breakpoint(
    breakpoints: Seq<BreakpointView>,
    breakpoint: BreakpointView,
) -> Seq<BreakpointView> {
    if breakpoints.contains(breakpoint) {
        breakpoints
    } else {
        breakpoints.push(breakpoint)
    }
}

/// The breakpoints from `i` on that differ from one.
pub open spec fn without_breakpoint(
    breakpoints: Seq<BreakpointView>,
    breakpoint: BreakpointView,
    i: int,
) -> Seq<BreakpointView>
    decreases breakpoints.len() - i,
{
    if 0 <= i < breakpoints.len() {
        if breakpoints[i] == breakpoint {
            without_breakpoint(breakpoints, breakpoint, i + 1)
        } else {
            seq![breakpoints[i]] + without_breakpoint(breakpoints, breakpoint, i + 1)
        }
    } else {
        Seq::empty()
    }
}

/// What the selection of a frame does.
pub open spec fn frame_selected(d: DebuggerView, event: DebugEvent, text: Seq<char>) -> Outcome {
    match numeral_within(text, usize::MAX as nat) {
        None => shows(d, "invalid frame `"@ + text + "`\n"@),
        Some(index) => if index >= event.frames@.len() {
            shows(
                d,
                "frame #"@ + decimal(index) + " is unavailable; stack has "@ + decimal(
                    event.frames@.len(),
                ) + " frame(s)\n"@,
            )
        } else {
            shows(
                DebuggerView { selected: index as usize, ..d },
                selected_text(index as usize, event),
            )
        },
    }
}

/// What a new watch expression does.
pub open spec fn watch_added(
    d: DebuggerView,
    event: DebugEvent,
    expr: Seq<char>,
    floats: Floats,
) -> Outcome {
    if expr.len() == 0 {
        shows(d, "watch expression is empty\n"@)
    } else {
        shows(
            DebuggerView { watches: d.watches.push(expr), ..d },
            watch_line(event, d.selected, d.watches.len(), expr, floats),
        )
    }
}

/// What the removal of a watch expression does.
pub open spec fn watch_removed(d: DebuggerView, text: Seq<char>) -> Outcome {
    match numeral_within(text, usize::MAX as nat) {
        None => shows(d, "invalid watch `"@ + text + "`\n"@),
        Some(index) => if index >= d.watches.len() {
            shows(d, "watch #"@ + decimal(index) + " is unavailable\n"@)
        } else {
            shows(
                DebuggerView { watches: d.watches.remove(index as int), ..d },
                "removed watch #"@ + decimal(index) + ": "@ + d.watches[index as int] + "\n"@,
            )
        },
    }
}

/// What a new breakpoint does.
pub open spec fn breakpoint_set(d: DebuggerView, event: DebugEvent, text: Seq<char>) -> Outcome {
    match breakpoint_of(event.program@, text) {
        None => shows(d, "invalid breakpoint `"@ + text + "`\n"@),
        Some(b) => shows(
            DebuggerView { breakpoints: with_breakpoint(d.breakpoints, b), ..d },
            breakpoint_message("set"@, b),
        ),
    }
}

/// What the removal of a breakpoint does.
pub open spec fn breakpoint_cleared(d: DebuggerView, event: DebugEvent, text: Seq<char>) -> Outcome {
    match breakpoint_of(event.program@, text) {
        None => shows(d, "invalid breakpoint `"@ + text + "`\n"@),
        Some(b) => if d.breakpoints.contains(b) {
            shows(
                DebuggerView { breakpoints: without_breakpoint(d.breakpoints, b, 0), ..d },
                breakpoint_message("cleared"@, b),
            )
        } else {
            shows(d, breakpoint_message("not found"@, b))
        },
    }
}

/// What an input line does.
pub open spec fn outcome(
    d: DebuggerView,
    event: DebugEvent,
    line: Seq<char>,
    files: Seq<FileView>,
    floats: Floats,
) -> Outcome {
    let n = DebuggerView { selected: normalized(d.selected, event), ..d };
    match command_of_line(line) {
        DebugCommandView::Step => Outcome {
            state: DebuggerView { stepping: true, ..d },
            output: Seq::empty(),
            action: Some(DebugAction::Step),
        },
        DebugCommandView::Continue => Outcome {
            state: DebuggerView { stepping: false, ..d },
            output: Seq::empty(),
            action: Some(DebugAction::Continue),
        },
        DebugCommandView::Quit => Outcome {
            state: d,
            output: Seq::empty(),
            action: Some(DebugAction::Quit),
        },
        DebugCommandView::Registers => shows(d, registers_text(d, event, floats)),
        DebugCommandView::Stack => shows(n, frame_lines(event, n.selected, event.frames@.len())),
        DebugCommandView::Frame => shows(n, selected_text(n.selected, event)),
        DebugCommandView::SelectFrame(text) => frame_selected(d, event, text),
        DebugCommandView::Instruction => shows(n, stop_text(n, event, files, floats)),
        DebugCommandView::Disassemble(radius) => shows(d, code_text(d, event, radius)),
        DebugCommandView::Watch(expr) => watch_added(d, event, expr, floats),
        DebugCommandView::Watches => shows(
            d,
            watch_lines(event, d.selected, d.watches, d.watches.len(), floats),
        ),
        DebugCommandView::Unwatch(text) => watch_removed(d, text),
        DebugCommandView::Help => shows(d, HELP@),
        DebugCommandView::Break(text) => breakpoint_set(d, event, text),
        DebugCommandView::Clear(text) => breakpoint_cleared(d, event, text),
        DebugCommandView::ClearAll => shows(
            DebuggerView { breakpoints: Seq::empty(), ..d },
            "cleared all breakpoints\n"@,
        ),
        DebugCommandView::Unknown(c) => shows(d, "unknown command `"@ + c + "`; type `help`\n"@),
    }
}

// ---------------------------------------------------------------------------
// The debugger
// ---------------------------------------------------------------------------

/// A frame as it is shown.
struct ShownFrame<'a> {
    name: &'a str,
    function: FunctionId,
    ip: usize,
    registers: &'a Vec<Value>,
}

impl<'a> ShownFrame<'a> {
    spec fn shown(&self) -> FrameView {
        FrameView {
            name: self.name@,
            function: self.function,
            ip: self.ip,
            registers: self.registers@,
        }
    }

    /// Appends the name, function and instruction of the frame.
    fn push_text(&self, out: &mut String)
        ensures
            final(out)@ == old(out)@ + frame_text(self.shown()),
    {
        out.append(self.name);
        out.append(" (");
        let id = self.function.to_string();
        out.append(id.as_str());
        out.append(", ip=");
        push_decimal(out, self.ip as u64);
        out.append(")");
        assert(out@ =~= old(out)@ + frame_text(self.shown()));
    }
}

/// The frame `index` places outside the innermost one.
fn frame_view<'a>(event: &DebugEvent<'a>, index: usize) -> (frame: Option<ShownFrame<'a>>)
    ensures
        match frame {
            Some(frame) => frame_at(*event, index as nat) == Some(frame.shown()),
            None => frame_at(*event, index as nat) is None,
        },
{
    if index >= event.frames.len() {
        return None;
    }
    let frame = &event.frames[event.frames.len() - 1 - index];
    let name = match event.program.function(frame.function_id) {
        Some(function) => function.name.as_str(),
        None => "<unknown>",
    };
    if index == 0 {
        Some(
            ShownFrame {
                name,
                function: frame.function_id,
                ip: event.instruction_ip,
                registers: event.registers,
            },
        )
    } else {
        Some(
            ShownFrame {
                name,
                function: frame.function_id,
                ip: frame.ip,
                registers: &frame.registers,
            },
        )
    }
}

/// The line and column where a span begins.
fn place(sources: &SourceManager, span: SourceSpan) -> (place: Option<(usize, usize)>)
    ensures
        match place {
            Some((line, column)) => place_of(sources@, span) == Some((line as nat, column as nat))
                && span.file_id.0 < sources@.len(),
            None => place_of(sources@, span) is None,
        },
{
    match sources.location(span) {
        Some(location) => Some((location.line, location.column)),
        None => None,
    }
}

/// The source line of an event, where the event is the first instruction of the line.
fn source_line_hit(event: &DebugEvent, sources: &SourceManager) -> (hit: Option<(FileId, usize)>)
    ensures
        match hit {
            Some((file_id, line)) => line_entered(*event, sources@) == Some((file_id, line as nat))
                && file_id.0 < sources@.len(),
            None => line_entered(*event, sources@) is None,
        },
{
    let span = event.source_span?;
    let (line, _) = place(sources, span)?;
    let function = event.program.function(event.function)?;
    let chunk = function.chunk()?;
    let ghost files = sources@;
    let ghost spans = chunk@.source_map;
    let mut i: usize = 0;
    while i < chunk.source_map.len()
        invariant
            i <= chunk.source_map@.len(),
            files == sources@,
            spans == chunk.source_map@,
            event.source_span == Some(span),
            place_of(files, span) matches Some((l, _)) && l == line,
            chunk_of(event.program@, event.function) == Some(chunk@),
            span.file_id.0 < sources@.len(),
            first_on_line(files, spans, span.file_id, line as nat, 0) == first_on_line(
                files,
                spans,
                span.file_id,
                line as nat,
                i as int,
            ),
        decreases chunk.source_map.len() - i,
    {
        if let Some(other) = chunk.source_map[i] {
            if let Some((other_line, _)) = place(sources, other) {
                if other.file_id == span.file_id && other_line == line {
                    if i == event.instruction_ip {
                        return Some((span.file_id, line));
                    }
                    return None;
                }
            }
        }
        i = i + 1;
    }
    None
}

/// Whether a file is meant by the text of a breakpoint.
fn source_file_matches(name: &str, text: &str) -> (found: bool)
    ensures
        found == file_meant(name@, text@),
{
    let path = characters(name);
    if str_equal(name, text) || has_suffix(path.as_slice(), text) {
        return true;
    }
    last_component_is(path.as_slice(), text)
}

/// Whether the last component of a path is a text.
fn last_component_is(path: &[char], text: &str) -> (found: bool)
    ensures
        found == (file_name(path@) == Some(text@)),
    decreases path@.len(),
{
    proof {
        reveal_strlit("/");
        reveal_strlit("/.");
    }
    let n: usize = path.len();
    if n > 0 && has_suffix(path, "/") {
        let shorter = vstd::slice::slice_subrange(path, 0, n - 1);
        assert(shorter@ =~= path@.drop_last());
        return last_component_is(shorter, text);
    }
    if n > 1 && has_suffix(path, "/.") {
        let shorter = vstd::slice::slice_subrange(path, 0, n - 2);
        assert(shorter@ =~= path@.take(path@.len() - 2));
        return last_component_is(shorter, text);
    }
    let mut from: usize = n;
    assert(path@.take(n as int) =~= path@);
    while from > 0 && path[from - 1] != '/'
        invariant
            from <= n == path@.len(),
            last_slash(path@) == last_slash(path@.take(from as int)),
        decreases from,
    {
        assert(path@.take(from as int).drop_last() =~= path@.take(from - 1));
        from = from - 1;
    }
    assert(from > 0 ==> path@.take(from as int).last() == '/');
    let name = vstd::slice::slice_subrange(path, from, n);
    assert(name@ =~= path@.skip(last_slash(path@) + 1));
    if name.len() == 0 || is_word(name, ".") || is_word(name, "..") {
        return false;
    }
    is_word(name, text)
}

/// Whether two breakpoints are the same.
fn same_breakpoint(a: &Breakpoint, b: &Breakpoint) -> (same: bool)
    ensures
        same == (a@ == b@),
{
    match a {
        Breakpoint::Instruction { function, instruction_ip } => match b {
            Breakpoint::Instruction { function: other, instruction_ip: ip } => {
                *function == *other && *instruction_ip == *ip
            },
            Breakpoint::SourceLine { .. } => false,
        },
        Breakpoint::SourceLine { file, line } => match b {
            Breakpoint::Instruction { .. } => false,
            Breakpoint::SourceLine { file: other, line: number } => {
                let same_file = match file {
                    Some(x) => match other {
                        Some(y) => str_equal(x.as_str(), y.as_str()),
                        None => false,
                    },
                    None => other.is_none(),
                };
                same_file && *line == *number
            },
        },
    }
}

/// The function that a text names, by number or by name.
fn parse_function(program: &Program, text: &[char]) -> (function: Option<FunctionId>)
    ensures
        function == function_meant(program@, text@),
{
    let id = match strip_prefix(text, "fn#") {
        Some(rest) => rest,
        None => text,
    };
    if let Some(n) = parse_number(id, u16::MAX as u64) {
        return Some(FunctionId(n as u16));
    }
    let ghost functions = program@.functions;
    let mut i: usize = 0;
    while i < program.functions.len()
        invariant
            i <= program.functions@.len(),
            functions == program@.functions,
            function_meant(program@, text@) == function_named(functions, text@, 0),
            function_named(functions, text@, 0) == function_named(functions, text@, i as int),
        decreases program.functions.len() - i,
    {
        assert(functions[i as int] == program.functions@[i as int]@);
        if is_word(text, program.functions[i].name.as_str()) {
            return Some(FunctionId(i as u16));
        }
        i = i + 1;
    }
    None
}

/// The number that a text writes.
fn parse_size(text: &[char]) -> (n: Option<usize>)
    ensures
        match n {
            Some(n) => numeral_within(text@, usize::MAX as nat) == Some(n as nat),
            None => numeral_within(text@, usize::MAX as nat) is None,
        },
{
    match parse_number(text, usize::MAX as u64) {
        Some(n) => Some(n as usize),
        None => None,
    }
}

/// The breakpoint that a text describes.
fn parse_breakpoint(program: &Program, text: &[char]) -> (breakpoint: Option<Breakpoint>)
    ensures
        match breakpoint {
            Some(breakpoint) => breakpoint_of(program@, text@) == Some(breakpoint@),
            None => breakpoint_of(program@, text@) is None,
        },
{
    if let Some(rest) = strip_prefix(text, "line ") {
        let line = parse_size(trim(rest))?;
        return Some(Breakpoint::SourceLine { file: None, line });
    }
    if let Some((target, number)) = split_once(text, ':') {
        let target = trim(target);
        let n = parse_size(trim(number))?;
        return match parse_function(program, target) {
            Some(function) => Some(
                Breakpoint::Instruction { function: Some(function), instruction_ip: n },
            ),
            None => Some(Breakpoint::SourceLine { file: Some(to_text(target)), line: n }),
        };
    }
    let n = parse_size(text)?;
    Some(Breakpoint::Instruction { function: None, instruction_ip: n })
}

/// The register that a text names by number.
fn parse_register(text: &[char]) -> (register: Option<usize>)
    ensures
        match register {
            Some(register) => register_of(text@) == Some(register as nat),
            None => register_of(text@) is None,
        },
{
    match strip_prefix(text, "r") {
        Some(rest) => parse_size(rest),
        None => None,
    }
}

/// The message of a breakpoint command.
fn breakpoint_line(prefix: &str, breakpoint: &Breakpoint) -> (s: String)
    ensures
        s@ == breakpoint_message(prefix@, breakpoint@),
{
    let mut s = String::from_str(prefix);
    s.append(" breakpoint at ");
    let ghost head = s@;
    match breakpoint {
        Breakpoint::Instruction { function, instruction_ip } => {
            match function {
                Some(function) => {
                    let id = function.to_string();
                    s.append(id.as_str());
                    s.append(":");
                    push_decimal(&mut s, *instruction_ip as u64);
                },
                None => {
                    s.append("ip=");
                    push_decimal(&mut s, *instruction_ip as u64);
                },
            }
        },
        Breakpoint::SourceLine { file, line } => {
            match file {
                Some(file) => {
                    s.append(file.as_str());
                    s.append(":");
                    push_decimal(&mut s, *line as u64);
                },
                None => {
                    s.append("line ");
                    push_decimal(&mut s, *line as u64);
                },
            }
        },
    }
    assert(s@ =~= head + breakpoint_text(breakpoint@));
    s.append("\n");
    s
}

/// What is printed when a debugged program ends with a value.
pub fn finished_line(heap: &HeapSnapshot, value: Value, floats: &FloatTexts) -> (s: String)
    ensures
        s@ == if value == Value::Nil {
            "debug: finished\n"@
        } else {
            "debug: finished with "@ + heap_text(heap.objects@, value, 0, floats@) + "\n"@
        },
{
    if let Value::Nil = value {
        return String::from_str("debug: finished\n");
    }
    let mut s = String::from_str("debug: finished with ");
    let text = heap.display(value, floats);
    s.append(text.as_str());
    s.append("\n");
    s
}

impl CliDebugger {
    /// A debugger that stops before every instruction.
    pub fn new() -> (debugger: Self)
        ensures
            debugger@ == (DebuggerView {
                stepping: true,
                breakpoints: Seq::empty(),
                selected: 0,
                watches: Seq::empty(),
            }),
    {
        let debugger = CliDebugger {
            stepping: true,
            breakpoints: Vec::new(),
            selected_frame: 0,
            watches: Vec::new(),
        };
        assert(debugger@.breakpoints =~= Seq::empty());
        assert(debugger@.watches =~= Seq::empty());
        debugger
    }

    /// Whether a breakpoint is set.
    fn has_breakpoint(&self, breakpoint: &Breakpoint) -> (found: bool)
        ensures
            found == self@.breakpoints.contains(breakpoint@),
    {
        let mut i: usize = 0;
        while i < self.breakpoints.len()
            invariant
                i <= self.breakpoints@.len(),
                forall|k: int| 0 <= k < i ==> #[trigger] self@.breakpoints[k] != breakpoint@,
            decreases self.breakpoints.len() - i,
        {
            assert(self@.breakpoints[i as int] == self.breakpoints@[i as int]@);
            if same_breakpoint(&self.breakpoints[i], breakpoint) {
                assert(self@.breakpoints.contains(breakpoint@));
                return true;
            }
            i = i + 1;
        }
        false
    }

    /// Whether the debugger stops at an event.
    pub fn should_stop(&self, event: &DebugEvent, sources: &SourceManager) -> (stop: bool)
        ensures
            stop == stops(self@, *event, sources@),
    {
        if self.stepping {
            return true;
        }
        let here = Breakpoint::Instruction {
            function: Some(event.function),
            instruction_ip: event.instruction_ip,
        };
        let anywhere = Breakpoint::Instruction {
            function: None,
            instruction_ip: event.instruction_ip,
        };
        if self.has_breakpoint(&here) || self.has_breakpoint(&anywhere) {
            return true;
        }
        self.matches_source_breakpoint(event, sources)
    }

    /// Whether a source line breakpoint stands for the line that an event enters.
    fn matches_source_breakpoint(&self, event: &DebugEvent, sources: &SourceManager) -> (found:
        bool)
        ensures
            found == (line_entered(*event, sources@) matches Some((file_id, line)) && exists|i: int|
                0 <= i < self@.breakpoints.len() && line_meant(
                    #[trigger] self@.breakpoints[i],
                    file_id,
                    line,
                    sources@,
                )),
    {
        match source_line_hit(event, sources) {
            None => false,
            Some((file_id, line)) => {
                let mut i: usize = 0;
                while i < self.breakpoints.len()
                    invariant
                        i <= self.breakpoints@.len(),
                        file_id.0 < sources@.len(),
                        line_entered(*event, sources@) == Some((file_id, line as nat)),
                        forall|k: int|
                            0 <= k < i ==> !line_meant(
                                #[trigger] self@.breakpoints[k],
                                file_id,
                                line as nat,
                                sources@,
                            ),
                    decreases self.breakpoints.len() - i,
                {
                    assert(self@.breakpoints[i as int] == self.breakpoints@[i as int]@);
                    let meant = match &self.breakpoints[i] {
                        Breakpoint::SourceLine { file, line: wanted } => {
                            if *wanted != line {
                                false
                            } else {
                                match file {
                                    None => true,
                                    Some(text) => match sources.file(file_id) {
                                        Some(source) => source_file_matches(
                                            source.name.as_str(),
                                            text.as_str(),
                                        ),
                                        None => false,
                                    },
                                }
                            }
                        },
                        Breakpoint::Instruction { .. } => false,
                    };
                    if meant {
                        return true;
                    }
                    i = i + 1;
                }
                false
            },
        }
    }

    /// Decides whether to stop before an instruction. Where the program stops, the debugger
    /// steps from there on, and what is shown comes back.
    pub fn before_instruction(
        &mut self,
        event: &DebugEvent,
        sources: &SourceManager,
        floats: &FloatTexts,
    ) -> (shown: Option<String>)
        ensures
            match shown {
                Some(text) => {
                    let state = DebuggerView {
                        stepping: true,
                        selected: normalized(old(self)@.selected, *event),
                        ..old(self)@
                    };
                    &&& stops(old(self)@, *event, sources@)
                    &&& final(self)@ == state
                    &&& text@ == stop_text(state, *event, sources@, floats@)
                },
                None => !stops(old(self)@, *event, sources@) && *final(self) == *old(self),
            },
    {
        if !self.should_stop(event, sources) {
            return None;
        }
        self.stepping = true;
        Some(self.show_stop(event, sources, floats))
    }

    /// Falls back to the innermost frame where the selected one is gone.
    fn normalize_selected_frame(&mut self, event: &DebugEvent)
        ensures
            final(self)@ == (DebuggerView {
                selected: normalized(old(self)@.selected, *event),
                ..old(self)@
            }),
    {
        if self.selected_frame >= event.frames.len() {
            self.selected_frame = 0;
        }
    }

    /// Shows where the program stopped.
    fn show_stop(
        &mut self,
        event: &DebugEvent,
        sources: &SourceManager,
        floats: &FloatTexts,
    ) -> (out: String)
        ensures
            final(self)@ == (DebuggerView {
                selected: normalized(old(self)@.selected, *event),
                ..old(self)@
            }),
            out@ == stop_text(final(self)@, *event, sources@, floats@),
    {
        self.normalize_selected_frame(event);
        let mut out = String::from_str("stopped at ");
        let id = event.function.to_string();
        out.append(id.as_str());
        out.append(" ");
        out.append(event.function_name);
        out.append(" ip=");
        push_decimal(&mut out, event.instruction_ip as u64);
        out.append(": ");
        let instruction = format_instruction(event.instruction);
        out.append(instruction.as_str());
        out.append("\n");
        push_place(&mut out, event, sources);
        self.push_watches(&mut out, event, floats);
        out
    }

    /// Appends the lines that show the watches.
    fn push_watches(&self, out: &mut String, event: &DebugEvent, floats: &FloatTexts)
        ensures
            final(out)@ == old(out)@ + watch_lines(
                *event,
                self@.selected,
                self@.watches,
                self@.watches.len(),
                floats@,
            ),
    {
        let mut i: usize = 0;
        assert(out@ =~= old(out)@ + watch_lines(*event, self@.selected, self@.watches, 0, floats@));
        while i < self.watches.len()
            invariant
                i <= self.watches@.len(),
                out@ == old(out)@ + watch_lines(
                    *event,
                    self@.selected,
                    self@.watches,
                    i as nat,
                    floats@,
                ),
            decreases self.watches.len() - i,
        {
            assert(self@.watches[i as int] == self.watches@[i as int]@);
            let line = self.watch_line(event, i, self.watches[i].as_str(), floats);
            out.append(line.as_str());
            i = i + 1;
            assert(out@ =~= old(out)@ + watch_lines(
                *event,
                self@.selected,
                self@.watches,
                i as nat,
                floats@,
            ));
        }
    }

    /// The line that shows a watch.
    fn watch_line(&self, event: &DebugEvent, index: usize, expr: &str, floats: &FloatTexts) -> (line:
        String)
        ensures
            line@ == watch_line(*event, self@.selected, index as nat, expr@, floats@),
    {
        let mut line = String::from_str("watch #");
        push_decimal(&mut line, index as u64);
        line.append(": ");
        line.append(expr);
        match self.evaluate_watch(event, expr) {
            Ok(value) => {
                line.append(" = ");
                let text = event.heap.display(value, floats);
                line.append(text.as_str());
                line.append("\n");
            },
            Err(message) => {
                line.append(" (");
                line.append(message.as_str());
                line.append(")\n");
            },
        }
        line
    }

    /// The value of a watch expression, or why it has none.
    fn evaluate_watch(&self, event: &DebugEvent, expr: &str) -> (result: Result<Value, String>)
        ensures
            match result {
                Ok(value) => watch_value(*event, self@.selected, expr@) == Ok::<Value, Seq<char>>(
                    value,
                ),
                Err(message) => watch_value(*event, self@.selected, expr@) == Err::<
                    Value,
                    Seq<char>,
                >(message@),
            },
    {
        let frame = match frame_view(event, self.selected_frame) {
            Some(frame) => frame,
            None => {
                return Err(self.unavailable_frame());
            },
        };
        let chars = characters(expr);
        if let Some(register) = parse_register(chars.as_slice()) {
            if register < frame.registers.len() {
                return Ok(frame.registers[register]);
            }
            let mut message = String::from_str("register r");
            push_decimal(&mut message, register as u64);
            message.append(" is unavailable");
            return Err(message);
        }
        let id = frame.function.to_string();
        match event.program.function(frame.function) {
            None => {
                let mut message = String::from_str("function ");
                message.append(id.as_str());
                message.append(" is unavailable");
                Err(message)
            },
            Some(function) => match &function.kind {
                FunctionKind::Native { .. } => {
                    let mut message = id;
                    message.append(" is native and has no locals");
                    Err(message)
                },
                FunctionKind::Bytecode(chunk) => match find_register(chunk, expr) {
                    None => {
                        let mut message = String::from_str("unknown watch expression `");
                        message.append(expr);
                        message.append("`");
                        Err(message)
                    },
                    Some(register) => {
                        if register < frame.registers.len() {
                            Ok(frame.registers[register])
                        } else {
                            let mut message = String::from_str("local `");
                            message.append(expr);
                            message.append("` is unavailable");
                            Err(message)
                        }
                    },
                },
            },
        }
    }

    fn unavailable_frame(&self) -> (s: String)
        ensures
            s@ == frame_unavailable(self@.selected),
    {
        let mut s = String::from_str("frame #");
        push_decimal(&mut s, self.selected_frame as u64);
        s.append(" is unavailable");
        s
    }

    /// Shows the registers of the selected frame.
    fn show_registers(&self, event: &DebugEvent, floats: &FloatTexts) -> (out: String)
        ensures
            out@ == registers_text(self@, *event, floats@),
    {
        match frame_view(event, self.selected_frame) {
            None => {
                let mut out = self.unavailable_frame();
                out.append("\n");
                out
            },
            Some(frame) => {
                let mut out = String::from_str("registers for frame #");
                push_decimal(&mut out, self.selected_frame as u64);
                out.append(" ");
                frame.push_text(&mut out);
                out.append("\n");
                if frame.registers.len() == 0 {
                    out.append("registers: <empty>\n");
                    return out;
                }
                let ghost head = out@;
                let ghost objects = event.heap.objects@;
                let mut i: usize = 0;
                assert(out@ =~= head + register_lines(objects, frame.registers@, 0, floats@));
                while i < frame.registers.len()
                    invariant
                        i <= frame.registers@.len(),
                        objects == event.heap.objects@,
                        out@ == head + register_lines(
                            objects,
                            frame.registers@,
                            i as nat,
                            floats@,
                        ),
                    decreases frame.registers.len() - i,
                {
                    out.append("r");
                    push_decimal(&mut out, i as u64);
                    out.append(" = ");
                    let text = event.heap.display(frame.registers[i], floats);
                    out.append(text.as_str());
                    out.append("\n");
                    i = i + 1;
                    assert(out@ =~= head + register_lines(
                        objects,
                        frame.registers@,
                        i as nat,
                        floats@,
                    ));
                }
                out
            },
        }
    }

    /// Shows the call stack.
    fn show_stack(&self, event: &DebugEvent) -> (out: String)
        ensures
            out@ == frame_lines(*event, self@.selected, event.frames@.len()),
    {
        let mut out = String::new();
        let mut i: usize = 0;
        assert(out@ =~= frame_lines(*event, self@.selected, 0));
        while i < event.frames.len()
            invariant
                i <= event.frames@.len(),
                out@ == frame_lines(*event, self@.selected, i as nat),
            decreases event.frames.len() - i,
        {
            if let Some(frame) = frame_view(event, i) {
                out.append("#");
                push_decimal(&mut out, i as u64);
                if i == self.selected_frame {
                    out.append(" *");
                }
                out.append(" at ");
                frame.push_text(&mut out);
                out.append("\n");
            }
            i = i + 1;
            assert(out@ =~= frame_lines(*event, self@.selected, i as nat));
        }
        out
    }

    /// Shows the selected frame.
    fn show_selected_frame(&self, event: &DebugEvent) -> (out: String)
        ensures
            out@ == selected_text(self@.selected, *event),
    {
        match frame_view(event, self.selected_frame) {
            None => {
                let mut out = self.unavailable_frame();
                out.append("\n");
                out
            },
            Some(frame) => {
                let mut out = String::from_str("selected frame #");
                push_decimal(&mut out, self.selected_frame as u64);
                out.append(" at ");
                frame.push_text(&mut out);
                out.append("\n");
                out
            },
        }
    }

    /// Shows the code around the selected frame.
    fn show_disassembly(&self, event: &DebugEvent, radius: usize) -> (out: String)
        ensures
            out@ == code_text(self@, *event, radius),
    {
        let frame = match frame_view(event, self.selected_frame) {
            Some(frame) => frame,
            None => {
                let mut out = self.unavailable_frame();
                out.append("\n");
                return out;
            },
        };
        let id = frame.function.to_string();
        let function = match event.program.function(frame.function) {
            Some(function) => function,
            None => {
                let mut out = String::from_str("function ");
                out.append(id.as_str());
                out.append(" is unavailable\n");
                return out;
            },
        };
        match &function.kind {
            FunctionKind::Native { .. } => {
                let mut out = id;
                out.append(" is native and has no bytecode\n");
                out
            },
            FunctionKind::Bytecode(chunk) => {
                let mut out = String::from_str("disassembly for frame #");
                push_decimal(&mut out, self.selected_frame as u64);
                out.append(" ");
                frame.push_text(&mut out);
                out.append("\n");
                let start: usize = if radius <= frame.ip {
                    frame.ip - radius
                } else {
                    0
                };
                let count: usize = chunk.instructions.len();
                let end: usize = if frame.ip < count && radius < count - frame.ip {
                    frame.ip + radius + 1
                } else {
                    count
                };
                push_code(&mut out, chunk, frame.ip, start, end);
                out
            },
        }
    }

    /// Adds a breakpoint.
    fn set_breakpoint(&mut self, breakpoint: Breakpoint)
        ensures
            final(self)@ == (DebuggerView {
                breakpoints: with_breakpoint(old(self)@.breakpoints, breakpoint@),
                ..old(self)@
            }),
    {
        if !self.has_breakpoint(&breakpoint) {
            self.breakpoints.push(breakpoint);
            assert(self@.breakpoints =~= old(self)@.breakpoints.push(breakpoint@));
        }
    }

    /// Removes a breakpoint.
    fn clear_breakpoint(&mut self, breakpoint: &Breakpoint)
        ensures
            final(self)@ == (DebuggerView {
                breakpoints: without_breakpoint(old(self)@.breakpoints, breakpoint@, 0),
                ..old(self)@
            }),
    {
        let mut old_breakpoints: Vec<Breakpoint> = Vec::new();
        std::mem::swap(&mut old_breakpoints, &mut self.breakpoints);
        let ghost all = old(self)@.breakpoints;
        let ghost rest = without_breakpoint(all, breakpoint@, 0);
        assert(self@.breakpoints =~= Seq::empty());
        assert(self@.breakpoints + rest =~= rest);
        for item in it: old_breakpoints.into_iter()
            invariant
                it.seq() == old(self).breakpoints@,
                all == breakpoint_views(old(self).breakpoints@),
                rest == self@.breakpoints + without_breakpoint(all, breakpoint@, it.index() as int),
                self.stepping == old(self).stepping,
                self.selected_frame == old(self).selected_frame,
                self.watches == old(self).watches,
        {
            let ghost i = it.index() as int;
            assert(all[i] == old(self).breakpoints@[i]@);
            if !same_breakpoint(&item, breakpoint) {
                let ghost before = self@.breakpoints;
                let ghost tail = without_breakpoint(all, breakpoint@, i + 1);
                self.breakpoints.push(item);
                assert(self@.breakpoints =~= before.push(all[i]));
                assert(before + (seq![all[i]] + tail) =~= before.push(all[i]) + tail);
            }
        }
        assert(self@.breakpoints + Seq::<BreakpointView>::empty() =~= self@.breakpoints);
    }

    /// Executes an input line. What is shown comes back, and the action that ends the stop.
    pub fn execute(
        &mut self,
        event: &DebugEvent,
        line: &str,
        sources: &SourceManager,
        floats: &FloatTexts,
    ) -> (result: (String, Option<DebugAction>))
        ensures
            ({
                let expected = outcome(old(self)@, *event, line@, sources@, floats@);
                &&& final(self)@ == expected.state
                &&& result.0@ == expected.output
                &&& result.1 == expected.action
            }),
    {
        match parse_line(line) {
            DebugCommand::Step => {
                self.stepping = true;
                (String::new(), Some(DebugAction::Step))
            },
            DebugCommand::Continue => {
                self.stepping = false;
                (String::new(), Some(DebugAction::Continue))
            },
            DebugCommand::Quit => (String::new(), Some(DebugAction::Quit)),
            DebugCommand::Registers => (self.show_registers(event, floats), None),
            DebugCommand::Stack => {
                self.normalize_selected_frame(event);
                (self.show_stack(event), None)
            },
            DebugCommand::Frame => {
                self.normalize_selected_frame(event);
                (self.show_selected_frame(event), None)
            },
            DebugCommand::SelectFrame(text) => (self.select_frame(event, text.as_str()), None),
            DebugCommand::Instruction => (self.show_stop(event, sources, floats), None),
            DebugCommand::Disassemble(radius) => (self.show_disassembly(event, radius), None),
            DebugCommand::Watch(expr) => (self.add_watch(event, expr, floats), None),
            DebugCommand::Watches => {
                let mut out = String::new();
                self.push_watches(&mut out, event, floats);
                assert(out@ =~= watch_lines(
                    *event,
                    self@.selected,
                    self@.watches,
                    self@.watches.len(),
                    floats@,
                ));
                (out, None)
            },
            DebugCommand::Unwatch(text) => (self.remove_watch(text.as_str()), None),
            DebugCommand::Help => (String::from_str(HELP), None),
            DebugCommand::Break(text) => (self.add_breakpoint(event, text.as_str()), None),
            DebugCommand::Clear(text) => (self.remove_breakpoint(event, text.as_str()), None),
            DebugCommand::ClearAll => {
                self.breakpoints = Vec::new();
                assert(self@.breakpoints =~= Seq::empty());
                (String::from_str("cleared all breakpoints\n"), None)
            },
            DebugCommand::Unknown(command) => {
                (message("unknown command `", command.as_str(), "`; type `help`\n"), None)
            },
        }
    }

    /// Selects a frame.
    fn select_frame(&mut self, event: &DebugEvent, text: &str) -> (out: String)
        ensures
            ({
                let expected = frame_selected(old(self)@, *event, text@);
                &&& final(self)@ == expected.state
                &&& out@ == expected.output
            }),
    {
        let chars = characters(text);
        match parse_size(chars.as_slice()) {
            None => message("invalid frame `", text, "`\n"),
            Some(index) => {
                if index >= event.frames.len() {
                    let mut out = String::from_str("frame #");
                    push_decimal(&mut out, index as u64);
                    out.append(" is unavailable; stack has ");
                    push_decimal(&mut out, event.frames.len() as u64);
                    out.append(" frame(s)\n");
                    out
                } else {
                    self.selected_frame = index;
                    self.show_selected_frame(event)
                }
            },
        }
    }

    /// Adds a watch expression and shows it.
    fn add_watch(&mut self, event: &DebugEvent, expr: String, floats: &FloatTexts) -> (out: String)
        ensures
            ({
                let expected = watch_added(old(self)@, *event, expr@, floats@);
                &&& final(self)@ == expected.state
                &&& out@ == expected.output
            }),
    {
        let chars = characters(expr.as_str());
        if chars.len() == 0 {
            return String::from_str("watch expression is empty\n");
        }
        let index: usize = self.watches.len();
        let line = self.watch_line(event, index, expr.as_str(), floats);
        self.watches.push(expr);
        assert(self@.watches =~= old(self)@.watches.push(expr@));
        line
    }

    /// Removes a watch expression.
    fn remove_watch(&mut self, text: &str) -> (out: String)
        ensures
            ({
                let expected = watch_removed(old(self)@, text@);
                &&& final(self)@ == expected.state
                &&& out@ == expected.output
            }),
    {
        let chars = characters(text);
        match parse_size(chars.as_slice()) {
            None => message("invalid watch `", text, "`\n"),
            Some(index) => {
                if index >= self.watches.len() {
                    let mut out = String::from_str("watch #");
                    push_decimal(&mut out, index as u64);
                    out.append(" is unavailable\n");
                    out
                } else {
                    let expr = self.watches.remove(index);
                    assert(self@.watches =~= old(self)@.watches.remove(index as int));
                    let mut out = String::from_str("removed watch #");
                    push_decimal(&mut out, index as u64);
                    out.append(": ");
                    out.append(expr.as_str());
                    out.append("\n");
                    out
                }
            },
        }
    }

    /// Sets the breakpoint that a text describes.
    fn add_breakpoint(&mut self, event: &DebugEvent, text: &str) -> (out: String)
        ensures
            ({
                let expected = breakpoint_set(old(self)@, *event, text@);
                &&& final(self)@ == expected.state
                &&& out@ == expected.output
            }),
    {
        let chars = characters(text);
        match parse_breakpoint(event.program, chars.as_slice()) {
            None => message("invalid breakpoint `", text, "`\n"),
            Some(breakpoint) => {
                let out = breakpoint_line("set", &breakpoint);
                self.set_breakpoint(breakpoint);
                out
            },
        }
    }

    /// Clears the breakpoint that a text describes.
    fn remove_breakpoint(&mut self, event: &DebugEvent, text: &str) -> (out: String)
        ensures
            ({
                let expected = breakpoint_cleared(old(self)@, *event, text@);
                &&& final(self)@ == expected.state
                &&& out@ == expected.output
            }),
    {
        let chars = characters(text);
        match parse_breakpoint(event.program, chars.as_slice()) {
            None => message("invalid breakpoint `", text, "`\n"),
            Some(breakpoint) => {
                if self.has_breakpoint(&breakpoint) {
                    self.clear_breakpoint(&breakpoint);
                    breakpoint_line("cleared", &breakpoint)
                } else {
                    breakpoint_line("not found", &breakpoint)
                }
            },
        }
    }
}

/// A text between two others.
fn message(before: &str, text: &str, behind: &str) -> (s: String)
    ensures
        s@ == before@ + text@ + behind@,
{
    let mut s = String::from_str(before);
    s.append(text);
    s.append(behind);
    s
}

/// What follows a word and a space in a command, trimmed.
fn argument_of(c: &[char], word: &str) -> (rest: Option<String>)
    ensures
        match rest {
            Some(rest) => argument(c@, word@) == Some(rest@),
            None => argument(c@, word@) is None,
        },
{
    match strip_prefix(c, word) {
        Some(rest) => Some(to_text(trim(rest))),
        None => None,
    }
}

/// The argument of a command with two names.
fn argument_of_either(c: &[char], word: &str, short: &str) -> (rest: Option<String>)
    ensures
        match rest {
            Some(rest) => either(argument(c@, word@), argument(c@, short@)) == Some(rest@),
            None => either(argument(c@, word@), argument(c@, short@)) is None,
        },
{
    match argument_of(c, word) {
        Some(rest) => Some(rest),
        None => argument_of(c, short),
    }
}

/// The command of an input line.
pub fn parse_line(line: &str) -> (command: DebugCommand)
    ensures
        command@ == command_of_line(line@),
{
    let chars = characters(line);
    let c = trim(chars.as_slice());
    if c.len() == 0 || is_word(c, "s") || is_word(c, "step") || is_word(c, "n") || is_word(
        c,
        "next",
    ) {
        return DebugCommand::Step;
    }
    if is_word(c, "c") || is_word(c, "continue") {
        return DebugCommand::Continue;
    }
    if is_word(c, "q") || is_word(c, "quit") {
        return DebugCommand::Quit;
    }
    if is_word(c, "r") || is_word(c, "registers") || is_word(c, "regs") {
        return DebugCommand::Registers;
    }
    if is_word(c, "bt") || is_word(c, "stack") || is_word(c, "frames") {
        return DebugCommand::Stack;
    }
    if is_word(c, "frame") {
        return DebugCommand::Frame;
    }
    if let Some(text) = argument_of(c, "frame ") {
        return DebugCommand::SelectFrame(text);
    }
    if is_word(c, "i") || is_word(c, "instruction") {
        return DebugCommand::Instruction;
    }
    if is_word(c, "disasm") || is_word(c, "disassemble") || is_word(c, "u") {
        return DebugCommand::Disassemble(DEFAULT_RADIUS);
    }
    let radius = match argument_of_either(c, "disasm ", "disassemble ") {
        Some(text) => Some(text),
        None => argument_of(c, "u "),
    };
    if let Some(text) = radius {
        let digits = characters(text.as_str());
        return match parse_size(digits.as_slice()) {
            Some(radius) => DebugCommand::Disassemble(radius),
            None => DebugCommand::Disassemble(DEFAULT_RADIUS),
        };
    }
    if let Some(expr) = argument_of(c, "watch ") {
        return DebugCommand::Watch(expr);
    }
    if is_word(c, "watches") || is_word(c, "watch") {
        return DebugCommand::Watches;
    }
    if let Some(text) = argument_of_either(c, "unwatch ", "uw ") {
        return DebugCommand::Unwatch(text);
    }
    if is_word(c, "h") || is_word(c, "help") {
        return DebugCommand::Help;
    }
    if let Some(text) = argument_of_either(c, "break ", "b ") {
        return DebugCommand::Break(text);
    }
    if let Some(text) = argument_of_either(c, "clear ", "cl ") {
        return DebugCommand::Clear(text);
    }
    if is_word(c, "clear") || is_word(c, "cl") {
        return DebugCommand::ClearAll;
    }
    DebugCommand::Unknown(to_text(c))
}

/// The first register with a debug name.
fn find_register(chunk: &Chunk, name: &str) -> (register: Option<usize>)
    ensures
        match register {
            Some(register) => register_named(chunk@.debug_local_names, name@, 0) == Some(
                register as int,
            ),
            None => register_named(chunk@.debug_local_names, name@, 0) is None,
        },
{
    let ghost names = chunk@.debug_local_names;
    let mut i: usize = 0;
    while i < chunk.debug_local_names.len()
        invariant
            i <= chunk.debug_local_names@.len(),
            names == option_views(chunk.debug_local_names@),
            names == chunk@.debug_local_names,
            register_named(names, name@, 0) == register_named(names, name@, i as int),
        decreases chunk.debug_local_names.len() - i,
    {
        assert(names[i as int] == option_view(chunk.debug_local_names@[i as int]));
        if let Some(local) = &chunk.debug_local_names[i] {
            if str_equal(local.as_str(), name) {
                return Some(i);
            }
        }
        i = i + 1;
    }
    None
}

/// Appends the lines that show the place of an event in its source.
fn push_place(out: &mut String, event: &DebugEvent, sources: &SourceManager)
    ensures
        final(out)@ == old(out)@ + place_lines(*event, sources@),
{
    if let Some(span) = event.source_span {
        if let Some((line, column)) = place(sources, span) {
            if let Some(file) = sources.file(span.file_id) {
                out.append(" --> ");
                out.append(file.name.as_str());
                out.append(":");
                push_decimal(out, line as u64);
                out.append(":");
                push_decimal(out, column as u64);
                out.append("\n");
                if let Some(text) = sources.line_text(span.file_id, line) {
                    proof {
                        encode_utf8_decode_utf8(text@);
                    }
                    out.append("  | ");
                    out.append(text);
                    out.append("\n");
                }
            }
        }
    }
    assert(out@ =~= old(out)@ + place_lines(*event, sources@));
}

/// Appends the lines that show the instructions from `start` up to `end`.
#[verifier::rlimit(40)]
fn push_code(out: &mut String, chunk: &Chunk, current: usize, start: usize, end: usize)
    requires
        end <= chunk.instructions@.len(),
    ensures
        final(out)@ == old(out)@ + code_lines(
            chunk@.instructions,
            current,
            start as int,
            end as int,
        ),
{
    let ghost instructions = chunk@.instructions;
    if start >= end {
        assert(out@ =~= old(out)@ + code_lines(instructions, current, start as int, end as int));
        return;
    }
    let mut ip: usize = start;
    assert(out@ =~= old(out)@ + code_lines(instructions, current, start as int, ip as int));
    while ip < end
        invariant
            start <= ip <= end <= chunk.instructions@.len(),
            instructions == chunk@.instructions,
            out@ == old(out)@ + code_lines(instructions, current, start as int, ip as int),
        decreases end - ip,
    {
        assert(instructions[ip as int] == chunk.instructions@[ip as int]@);
        if ip == current {
            out.append("=> ");
        } else {
            out.append("   ");
        }
        push_zero_padded(out, ip as u64, 4);
        out.append(" ");
        let text = format_instruction(&chunk.instructions[ip]);
        out.append(text.as_str());
        out.append("\n");
        ip = ip + 1;
        assert(out@ =~= old(out)@ + code_lines(instructions, current, start as int, ip as int));
    }
}

} // verus!
