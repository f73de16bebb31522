//! What the lines that are typed into the debugger mean and do.

use vstd::prelude::*;

use crate::bytecode::instruction::FunctionId;
use crate::bytecode::program::{FunctionKindView, FunctionView, ProgramView};
use crate::cli::debugger::{
    argument, breakpoint_of, command_of_line, frame_at, function_meant, function_named, outcome,
    register_named, register_of, watch_value, BreakpointView, DebugAction, DebugCommandView,
    DebugEvent, DebuggerView, FrameView,
};
use crate::cli::display::Floats;
use crate::cli::text_laws::{
    beginnings_and_ends_are_joined, texts_are_parted_at_the_first_place,
};
use crate::cli::words::{begins, numeral, parted, trimmed};
use crate::diagnostics::source::FileView;
use crate::value::Value;

verus! {

/// Whether a command is a word with a space and an argument behind it, white space around the
/// argument left out.
pub open spec fn called(command: Seq<char>, word: Seq<char>, given: Seq<char>) -> bool {
    exists|rest: Seq<char>|
        command == #[trigger] (word + seq![' '] + rest) && given == trimmed(rest)
}

/// Whether a command is a word with a space and something behind it.
pub open spec fn called_with(command: Seq<char>, word: Seq<char>) -> bool {
    exists|given: Seq<char>| #[trigger] called(command, word, given)
}

/// Whether a text is one of three words.
pub open spec fn one_of(text: Seq<char>, a: Seq<char>, b: Seq<char>, c: Seq<char>) -> bool {
    text == a || text == b || text == c
}

/// Whether a number is the one that an argument writes, or two where it writes none.
pub open spec fn around(radius: usize, given: Seq<char>) -> bool {
    match numeral(given) {
        Some(n) if n <= usize::MAX => radius == n,
        _ => radius == 2,
    }
}

/// Whether a command asks for the code around an instruction.
pub open spec fn disassembles(c: Seq<char>, given: Seq<char>) -> bool {
    called(c, "disasm"@, given) || called(c, "disassemble"@, given) || called(c, "u"@, given)
}

/// Whether a text may be read as a command.
pub open spec fn says(c: Seq<char>, command: DebugCommandView) -> bool {
    match command {
        DebugCommandView::Step => c.len() == 0 || c == "s"@ || one_of(c, "step"@, "n"@, "next"@),
        DebugCommandView::Continue => c == "c"@ || c == "continue"@,
        DebugCommandView::Quit => c == "q"@ || c == "quit"@,
        DebugCommandView::Registers => one_of(c, "r"@, "registers"@, "regs"@),
        DebugCommandView::Stack => one_of(c, "bt"@, "stack"@, "frames"@),
        DebugCommandView::Frame => c == "frame"@,
        DebugCommandView::SelectFrame(given) => called(c, "frame"@, given),
        DebugCommandView::Instruction => c == "i"@ || c == "instruction"@,
        DebugCommandView::Disassemble(radius) => {
            ||| one_of(c, "disasm"@, "disassemble"@, "u"@) && radius == 2
            ||| exists|given: Seq<char>|
                #[trigger] disassembles(c, given) && around(radius, given)
        },
        DebugCommandView::Watch(given) => called(c, "watch"@, given),
        DebugCommandView::Watches => c == "watches"@ || c == "watch"@,
        DebugCommandView::Unwatch(given) => called(c, "unwatch"@, given) || called(c, "uw"@, given),
        DebugCommandView::Help => c == "h"@ || c == "help"@,
        DebugCommandView::Break(given) => called(c, "break"@, given) || called(c, "b"@, given),
        DebugCommandView::Clear(given) => called(c, "clear"@, given) || called(c, "cl"@, given),
        DebugCommandView::ClearAll => c == "clear"@ || c == "cl"@,
        DebugCommandView::Unknown(text) => {
            &&& text == c
            &&& c.len() > 0
            &&& c != "s"@ && !one_of(c, "step"@, "n"@, "next"@)
            &&& c != "c"@ && c != "continue"@ && c != "q"@ && c != "quit"@
            &&& !one_of(c, "r"@, "registers"@, "regs"@) && !one_of(c, "bt"@, "stack"@, "frames"@)
            &&& c != "frame"@ && c != "i"@ && c != "instruction"@
            &&& !one_of(c, "disasm"@, "disassemble"@, "u"@)
            &&& !one_of(c, "watch"@, "watches"@, "help"@) && !one_of(c, "h"@, "clear"@, "cl"@)
            &&& !called_with(c, "frame"@) && !called_with(c, "disasm"@)
            &&& !called_with(c, "disassemble"@) && !called_with(c, "u"@)
            &&& !called_with(c, "watch"@) && !called_with(c, "unwatch"@) && !called_with(c, "uw"@)
            &&& !called_with(c, "break"@) && !called_with(c, "b"@)
            &&& !called_with(c, "clear"@) && !called_with(c, "cl"@)
        },
    }
}

proof fn lemma_called(c: Seq<char>, word: Seq<char>, spaced: Seq<char>)
    requires
        spaced == word + seq![' '],
    ensures
        argument(c, spaced) matches Some(given) ==> called(c, word, given),
        argument(c, spaced) is None ==> !called_with(c, word),
{
    let rest = c.skip(spaced.len() as int);
    beginnings_and_ends_are_joined(c, spaced, rest);
    if argument(c, spaced) is Some {
        assert(c == word + seq![' '] + rest);
    } else if called_with(c, word) {
        let given = choose|given: Seq<char>| #[trigger] called(c, word, given);
        let behind = choose|rest: Seq<char>|
            c == #[trigger] (word + seq![' '] + rest) && given == trimmed(rest);
        beginnings_and_ends_are_joined(c, spaced, behind);
    }
}

proof fn lemma_words()
    ensures
        "frame "@ == "frame"@ + seq![' '],
        "disasm "@ == "disasm"@ + seq![' '],
        "disassemble "@ == "disassemble"@ + seq![' '],
        "u "@ == "u"@ + seq![' '],
        "watch "@ == "watch"@ + seq![' '],
        "unwatch "@ == "unwatch"@ + seq![' '],
        "uw "@ == "uw"@ + seq![' '],
        "break "@ == "break"@ + seq![' '],
        "b "@ == "b"@ + seq![' '],
        "clear "@ == "clear"@ + seq![' '],
        "cl "@ == "cl"@ + seq![' '],
{
    reveal_strlit("frame ");
    reveal_strlit("frame");
    assert("frame "@ =~= "frame"@ + seq![' ']);
    reveal_strlit("disasm ");
    reveal_strlit("disasm");
    assert("disasm "@ =~= "disasm"@ + seq![' ']);
    reveal_strlit("disassemble ");
    reveal_strlit("disassemble");
    assert("disassemble "@ =~= "disassemble"@ + seq![' ']);
    reveal_strlit("u ");
    reveal_strlit("u");
    assert("u "@ =~= "u"@ + seq![' ']);
    reveal_strlit("watch ");
    reveal_strlit("watch");
    assert("watch "@ =~= "watch"@ + seq![' ']);
    reveal_strlit("unwatch ");
    reveal_strlit("unwatch");
    assert("unwatch "@ =~= "unwatch"@ + seq![' ']);
    reveal_strlit("uw ");
    reveal_strlit("uw");
    assert("uw "@ =~= "uw"@ + seq![' ']);
    reveal_strlit("break ");
    reveal_strlit("break");
    assert("break "@ =~= "break"@ + seq![' ']);
    reveal_strlit("b ");
    reveal_strlit("b");
    assert("b "@ =~= "b"@ + seq![' ']);
    reveal_strlit("clear ");
    reveal_strlit("clear");
    assert("clear "@ =~= "clear"@ + seq![' ']);
    reveal_strlit("cl ");
    reveal_strlit("cl");
    assert("cl "@ =~= "cl"@ + seq![' ']);
}

/// A line, without the white space around it, is read as one of the commands that it may be read
/// as, and as unknown only where it is none of them.
pub proof fn lines_are_read_as_what_they_say(line: Seq<char>)
    ensures
        says(trimmed(line), command_of_line(line)),
{
    let c = trimmed(line);
    lemma_words();
    lemma_called(c, "frame"@, "frame "@);
    lemma_called(c, "disasm"@, "disasm "@);
    lemma_called(c, "disassemble"@, "disassemble "@);
    lemma_called(c, "u"@, "u "@);
    lemma_called(c, "watch"@, "watch "@);
    lemma_called(c, "unwatch"@, "unwatch "@);
    lemma_called(c, "uw"@, "uw "@);
    lemma_called(c, "break"@, "break "@);
    lemma_called(c, "b"@, "b "@);
    lemma_called(c, "clear"@, "clear "@);
    lemma_called(c, "cl"@, "cl "@);
    match command_of_line(line) {
        DebugCommandView::Disassemble(radius) => {
            if c != "disasm"@ && c != "disassemble"@ && c != "u"@ {
                let given = if argument(c, "disasm "@) is Some {
                    argument(c, "disasm "@)->0
                } else if argument(c, "disassemble "@) is Some {
                    argument(c, "disassemble "@)->0
                } else {
                    argument(c, "u "@)->0
                };
                assert(disassembles(c, given));
                assert(around(radius, given));
            }
        },
        DebugCommandView::Unknown(text) => {
            assert(!called_with(c, "frame"@) && !called_with(c, "disasm"@));
            assert(!called_with(c, "disassemble"@) && !called_with(c, "u"@));
            assert(!called_with(c, "watch"@) && !called_with(c, "unwatch"@));
            assert(!called_with(c, "uw"@) && !called_with(c, "break"@) && !called_with(c, "b"@));
            assert(!called_with(c, "clear"@) && !called_with(c, "cl"@));
        },
        _ => {
            assert(says(c, command_of_line(line)));
        },
    }
}

/// Whether a function is the first one of a program with a name.
pub open spec fn first_named(program: ProgramView, name: Seq<char>, id: FunctionId) -> bool {
    &&& id.0 < program.functions.len()
    &&& program.functions[id.0 as int].name == name
    &&& forall|i: int| 0 <= i < id.0 ==> (#[trigger] program.functions[i]).name != name
}

/// Whether a text is the number of a function, with or without `fn#` before it.
pub open spec fn numbers_function(text: Seq<char>, id: FunctionId) -> bool {
    if begins(text, "fn#"@) {
        numeral(text.skip(3)) == Some(id.0 as nat)
    } else {
        numeral(text) == Some(id.0 as nat)
    }
}

/// Whether a text means a function, by its number or else by its name.
pub open spec fn names_function(program: ProgramView, text: Seq<char>, id: FunctionId) -> bool {
    ||| numbers_function(text, id)
    ||| (forall|other: FunctionId| !#[trigger] numbers_function(text, other)) && first_named(
        program,
        text,
        id,
    )
}

/// Whether a text means no function.
pub open spec fn names_none(program: ProgramView, text: Seq<char>) -> bool {
    forall|id: FunctionId| !#[trigger] names_function(program, text, id)
}

/// Whether a text is two texts with a colon between them, the first one without a colon.
pub open spec fn halves(text: Seq<char>, target: Seq<char>, number: Seq<char>) -> bool {
    text == target + seq![':'] + number && !target.contains(':')
}

/// Whether a text writes a number that fits.
pub open spec fn writes(text: Seq<char>, n: usize) -> bool {
    numeral(text) == Some(n as nat)
}

/// Whether a text describes a breakpoint.
pub open spec fn describes(
    program: ProgramView,
    text: Seq<char>,
    breakpoint: BreakpointView,
) -> bool {
    if begins(text, "line "@) {
        breakpoint matches BreakpointView::SourceLine { file: None, line } && writes(
            trimmed(text.skip(5)),
            line,
        )
    } else if text.contains(':') {
        exists|target: Seq<char>, number: Seq<char>|
            #[trigger] halves(text, target, number) && match breakpoint {
                BreakpointView::Instruction { function: Some(function), instruction_ip } => writes(
                    trimmed(number),
                    instruction_ip,
                ) && names_function(program, trimmed(target), function),
                BreakpointView::SourceLine { file: Some(file), line } => writes(
                    trimmed(number),
                    line,
                ) && file == trimmed(target) && names_none(program, trimmed(target)),
                _ => false,
            }
    } else {
        breakpoint matches BreakpointView::Instruction { function: None, instruction_ip } && writes(
            text,
            instruction_ip,
        )
    }
}

proof fn lemma_named(functions: Seq<FunctionView>, name: Seq<char>, i: int)
    requires
        0 <= i <= functions.len(),
    ensures
        match function_named(functions, name, i) {
            Some(id) => exists|k: int|
                i <= k < functions.len() && (#[trigger] functions[k]).name == name && id
                    == FunctionId(k as u16) && forall|j: int|
                    i <= j < k ==> (#[trigger] functions[j]).name != name,
            None => forall|k: int| i <= k < functions.len() ==> (#[trigger] functions[k]).name != name,
        },
    decreases functions.len() - i,
{
    if i < functions.len() {
        if functions[i].name == name {
            assert(functions[i].name == name);
        } else {
            lemma_named(functions, name, i + 1);
            if let Some(id) = function_named(functions, name, i) {
                let k = choose|k: int|
                    i + 1 <= k < functions.len() && (#[trigger] functions[k]).name == name && id
                        == FunctionId(k as u16) && forall|j: int|
                        i + 1 <= j < k ==> (#[trigger] functions[j]).name != name;
                assert(functions[k].name == name);
                assert forall|j: int| i <= j < k implies (#[trigger] functions[j]).name != name by {
                }
            }
        }
    }
}

proof fn lemma_meant(program: ProgramView, text: Seq<char>)
    requires
        program.functions.len() <= 65536,
    ensures
        match function_meant(program, text) {
            Some(id) => names_function(program, text, id),
            None => forall|id: FunctionId| !#[trigger] names_function(program, text, id),
        },
{
    reveal_strlit("fn#");
    lemma_named(program.functions, text, 0);
    let id = if begins(text, "fn#"@) {
        text.skip(3)
    } else {
        text
    };
    if let Some(n) = numeral(id) {
        if n <= u16::MAX {
            assert(numbers_function(text, FunctionId(n as u16)));
        }
    }
}

/// A text is taken for a breakpoint that it describes, and for none where it describes none: `line`
/// and a number is a line in every file, a number alone an instruction in every function, and a
/// number behind a colon an instruction of the function before the colon, or a line of the file of
/// that name where no function is meant.
pub proof fn breakpoints_are_what_their_texts_describe(program: ProgramView, text: Seq<char>)
    requires
        program.functions.len() <= 65536,
    ensures
        match breakpoint_of(program, text) {
            Some(breakpoint) => describes(program, text, breakpoint),
            None => forall|breakpoint: BreakpointView|
                !#[trigger] describes(program, text, breakpoint),
        },
{
    reveal_strlit("line ");
    texts_are_parted_at_the_first_place(text, ':');
    match parted(text, ':') {
        Some((target, number)) => {
            assert(text[target.len() as int] == ':');
            assert(text.contains(':'));
            assert(halves(text, target, number));
            lemma_meant(program, trimmed(target));
            assert forall|a: Seq<char>, b: Seq<char>| #[trigger] halves(text, a, b) implies a
                == target && b == number by {
                lemma_halves(text, a, b, target, number);
            }
        },
        None => {},
    }
}

proof fn lemma_halves(
    text: Seq<char>,
    a: Seq<char>,
    b: Seq<char>,
    target: Seq<char>,
    number: Seq<char>,
)
    requires
        halves(text, a, b),
        halves(text, target, number),
    ensures
        a == target,
        b == number,
{
    assert(text[a.len() as int] == ':');
    assert(text[target.len() as int] == ':');
    if a.len() < target.len() {
        assert(target[a.len() as int] == ':');
        assert(target.contains(':'));
    }
    if target.len() < a.len() {
        assert(a[target.len() as int] == ':');
        assert(a.contains(':'));
    }
    assert(a =~= text.take(a.len() as int));
    assert(target =~= text.take(a.len() as int));
    assert(b =~= text.skip(a.len() as int + 1));
    assert(number =~= text.skip(a.len() as int + 1));
}

/// Stepping, going on and quitting end a stop, and nothing else does. Stepping and going on say
/// whether the next instruction stops again.
pub proof fn commands_end_stops_as_they_say(
    d: DebuggerView,
    event: DebugEvent,
    line: Seq<char>,
    files: Seq<FileView>,
    floats: Floats,
)
    ensures
        outcome(d, event, line, files, floats).action == (match command_of_line(line) {
            DebugCommandView::Step => Some(DebugAction::Step),
            DebugCommandView::Continue => Some(DebugAction::Continue),
            DebugCommandView::Quit => Some(DebugAction::Quit),
            _ => None,
        }),
        outcome(d, event, line, files, floats).state.stepping == (match command_of_line(line) {
            DebugCommandView::Step => true,
            DebugCommandView::Continue => false,
            _ => d.stepping,
        }),
{
}

/// A watch is put behind the others, an unwatched one is taken out of its place, and no other
/// command changes the watches. Only the commands for breakpoints change the breakpoints. A frame
/// is selected where there is one with the number that is given.
pub proof fn commands_change_what_they_name(
    d: DebuggerView,
    event: DebugEvent,
    line: Seq<char>,
    files: Seq<FileView>,
    floats: Floats,
)
    ensures
        outcome(d, event, line, files, floats).state.watches == (match command_of_line(line) {
            DebugCommandView::Watch(given) if given.len() > 0 => d.watches.push(given),
            DebugCommandView::Unwatch(given) => match numeral(given) {
                Some(n) if n < d.watches.len() && n <= usize::MAX => d.watches.take(n as int)
                    + d.watches.skip(n as int + 1),
                _ => d.watches,
            },
            _ => d.watches,
        }),
        match command_of_line(line) {
            DebugCommandView::Break(_) => d.breakpoints.is_prefix_of(
                outcome(d, event, line, files, floats).state.breakpoints,
            ),
            DebugCommandView::Clear(_) => true,
            DebugCommandView::ClearAll => outcome(
                d,
                event,
                line,
                files,
                floats,
            ).state.breakpoints.len() == 0,
            _ => outcome(d, event, line, files, floats).state.breakpoints == d.breakpoints,
        },
        outcome(d, event, line, files, floats).state.selected == (match command_of_line(line) {
            DebugCommandView::SelectFrame(given) => match numeral(given) {
                Some(n) if n < event.frames@.len() => n as usize,
                _ => d.selected,
            },
            DebugCommandView::Stack | DebugCommandView::Frame | DebugCommandView::Instruction => {
                if d.selected < event.frames@.len() {
                    d.selected
                } else {
                    0
                }
            },
            _ => d.selected,
        }),
{
    assert(event.frames@.len() == event.frames.len());
    let after = outcome(d, event, line, files, floats).state;
    if let DebugCommandView::Unwatch(given) = command_of_line(line) {
        if let Some(n) = numeral(given) {
            if n < d.watches.len() && n <= usize::MAX {
                assert(after.watches =~= d.watches.take(n as int) + d.watches.skip(n as int + 1));
            }
        }
    }
}

/// Whether a frame is the one that a number selects, the innermost one being number zero.
pub open spec fn is_frame(event: DebugEvent, index: nat, frame: FrameView) -> bool {
    let k = event.frames@.len() - 1 - index;
    &&& 0 <= k < event.frames@.len()
    &&& frame.function == event.frames@[k].function_id
    &&& frame.ip == (if k == event.frames@.len() - 1 {
        event.instruction_ip
    } else {
        event.frames@[k].ip
    })
    &&& frame.registers == (if k == event.frames@.len() - 1 {
        event.registers@
    } else {
        event.frames@[k].registers@
    })
    &&& event.program@.function(frame.function) matches Some(function) ==> frame.name
        == function.name
}

proof fn lemma_register(names: Seq<Option<Seq<char>>>, name: Seq<char>, i: int)
    requires
        0 <= i <= names.len(),
    ensures
        match register_named(names, name, i) {
            Some(k) => i <= k < names.len() && names[k] == Some(name) && forall|j: int|
                i <= j < k ==> #[trigger] names[j] != Some(name),
            None => forall|j: int| i <= j < names.len() ==> #[trigger] names[j] != Some(name),
        },
    decreases names.len() - i,
{
    if i < names.len() && names[i] != Some(name) {
        lemma_register(names, name, i + 1);
    }
}

/// Frames are counted from the innermost one, which has the registers and the instruction of the
/// event. The value of `r` and a number is that of the register of the selected frame with that
/// number; the value of another text is that of the first register with that name.
pub proof fn watches_show_registers(event: DebugEvent, selected: usize, expr: Seq<char>)
    ensures
        match frame_at(event, selected as nat) {
            Some(frame) => is_frame(event, selected as nat, frame),
            None => selected >= event.frames@.len(),
        },
        watch_value(event, selected, expr) matches Ok(value) ==> {
            &&& frame_at(event, selected as nat) matches Some(frame)
            &&& exists|register: int|
                0 <= register < frame.registers.len() && value == #[trigger] frame.registers[register]
                    && watched(event, frame, expr, register)
        },
        frame_at(event, selected as nat) matches Some(frame) ==> forall|register: int|
            #![trigger frame.registers[register]]
            0 <= register < frame.registers.len() && register <= usize::MAX && watched(
                event,
                frame,
                expr,
                register,
            ) ==> watch_value(event, selected, expr) == Ok::<Value, Seq<char>>(
                frame.registers[register],
            ),
{
    reveal_strlit("r");
    if let Some(frame) = frame_at(event, selected as nat) {
        assert("r"@ =~= seq!['r']);
        if let Some(chunk) = register_names(event, frame) {
            lemma_register(chunk, expr, 0);
        }
        assert(begins(expr, "r"@) <==> expr.len() > 0 && expr[0] == 'r') by {
            if expr.len() > 0 && expr[0] == 'r' {
                assert(expr.take(1) =~= "r"@);
            }
            if begins(expr, "r"@) {
                assert(expr.take(1)[0] == 'r');
            }
        }
        if let Ok(value) = watch_value(event, selected, expr) {
            let register: int = match register_of(expr) {
                Some(n) => n as int,
                None => register_named(register_names(event, frame)->0, expr, 0)->0,
            };
            assert(value == frame.registers[register]);
            assert(watched(event, frame, expr, register));
        }
    }
}

/// The names of the registers of the function of a frame.
pub open spec fn register_names(event: DebugEvent, frame: FrameView) -> Option<Seq<Option<Seq<char>>>> {
    match event.program@.function(frame.function) {
        Some(function) => match function.kind {
            FunctionKindView::Bytecode(chunk) => Some(
                chunk.debug_local_names,
            ),
            _ => None,
        },
        None => None,
    }
}

/// Whether a register is the one that a text means in a frame.
pub open spec fn watched(
    event: DebugEvent,
    frame: FrameView,
    expr: Seq<char>,
    register: int,
) -> bool {
    let number = if expr.len() > 0 && expr[0] == 'r' {
        numeral(expr.skip(1))
    } else {
        None
    };
    match number {
        Some(n) if n <= usize::MAX => register == n,
        _ => register_names(event, frame) matches Some(names) && 0 <= register < names.len()
            && names[register] == Some(expr) && forall|j: int|
            0 <= j < register ==> #[trigger] names[j] != Some(expr),
    }
}

} // verus!
