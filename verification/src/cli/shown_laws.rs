//! What the debugger shows.

use vstd::prelude::*;

use crate::bytecode::disassembler::instruction_text;
use crate::bytecode::instruction::InstructionView;
use crate::bytecode::program::FunctionKindView;
use crate::cli::debugger::{
    code_lines, code_text, frame_at, frame_lines, frame_text, register_lines, watch_line,
    watch_lines, watch_value, DebugEvent, DebuggerView,
};
use crate::cli::display::{heap_text, Floats, HeapObject};
use crate::text::{decimal, zero_padded};
use crate::value::Value;

verus! {

proof fn lemma_flatten_last(parts: Seq<Seq<char>>, last: Seq<char>)
    ensures
        parts.push(last).flatten() == parts.flatten() + last,
    decreases parts.len(),
{
    let all = parts.push(last);
    if parts.len() == 0 {
        assert(all.drop_first() =~= Seq::empty());
        assert(all.first() == last);
        assert(all.drop_first().flatten() =~= Seq::empty());
        assert(all.flatten() =~= last);
        assert(parts.flatten() + last =~= last);
    } else {
        lemma_flatten_last(parts.drop_first(), last);
        assert(all.drop_first() =~= parts.drop_first().push(last));
        assert(all.first() == parts.first());
        let rest = parts.drop_first().flatten();
        assert(parts.first() + (rest + last) =~= (parts.first() + rest) + last);
    }
}

/// The line of a register.
pub open spec fn register_line(
    objects: Seq<HeapObject>,
    registers: Seq<Value>,
    floats: Floats,
) -> spec_fn(int) -> Seq<char> {
    |i: int|
        seq!['r'] + decimal(i as nat) + seq![' ', '=', ' '] + heap_text(
            objects,
            registers[i],
            0,
            floats,
        ) + seq!['\n']
}

proof fn lemma_registers(
    objects: Seq<HeapObject>,
    registers: Seq<Value>,
    n: nat,
    floats: Floats,
)
    ensures
        register_lines(objects, registers, n, floats) == Seq::new(
            n,
            register_line(objects, registers, floats),
        ).flatten(),
    decreases n,
{
    let f = register_line(objects, registers, floats);
    reveal_strlit("r");
    reveal_strlit(" = ");
    reveal_strlit("\n");
    assert("r"@ =~= seq!['r'] && " = "@ =~= seq![' ', '=', ' '] && "\n"@ =~= seq!['\n']);
    if n == 0 {
        assert(Seq::new(0, f).flatten() =~= Seq::empty());
    } else {
        let m = (n - 1) as nat;
        lemma_registers(objects, registers, m, floats);
        lemma_flatten_last(Seq::new(m, f), f(m as int));
        assert(Seq::new(n, f) =~= Seq::new(m, f).push(f(m as int)));
        let front = register_lines(objects, registers, m, floats);
        let value = heap_text(objects, registers[m as int], 0, floats);
        assert(front + seq!['r'] + decimal(m) + seq![' ', '=', ' '] + value + seq!['\n'] =~= front
            + (seq!['r'] + decimal(m) + seq![' ', '=', ' '] + value + seq!['\n']));
    }
}

/// Registers are shown one to a line, with their numbers and values.
pub proof fn registers_are_shown_in_order(
    objects: Seq<HeapObject>,
    registers: Seq<Value>,
    floats: Floats,
)
    ensures
        register_lines(objects, registers, registers.len(), floats) == Seq::new(
            registers.len(),
            register_line(objects, registers, floats),
        ).flatten(),
{
    lemma_registers(objects, registers, registers.len(), floats);
}

/// The line of a frame; the selected one has a star.
pub open spec fn frame_line(event: DebugEvent, selected: usize) -> spec_fn(int) -> Seq<char> {
    |i: int|
        seq!['#'] + decimal(i as nat) + (if i == selected {
            seq![' ', '*']
        } else {
            Seq::empty()
        }) + seq![' ', 'a', 't', ' '] + frame_text(frame_at(event, i as nat)->0) + seq!['\n']
}

proof fn lemma_frames(event: DebugEvent, selected: usize, n: nat)
    requires
        n <= event.frames@.len(),
    ensures
        frame_lines(event, selected, n) == Seq::new(n, frame_line(event, selected)).flatten(),
    decreases n,
{
    let f = frame_line(event, selected);
    reveal_strlit("#");
    reveal_strlit(" *");
    reveal_strlit(" at ");
    reveal_strlit("\n");
    assert("#"@ =~= seq!['#'] && " *"@ =~= seq![' ', '*'] && "\n"@ =~= seq!['\n']);
    assert(" at "@ =~= seq![' ', 'a', 't', ' ']);
    if n == 0 {
        assert(Seq::new(0, f).flatten() =~= Seq::empty());
    } else {
        let m = (n - 1) as nat;
        lemma_frames(event, selected, m);
        lemma_flatten_last(Seq::new(m, f), f(m as int));
        assert(Seq::new(n, f) =~= Seq::new(m, f).push(f(m as int)));
        let front = frame_lines(event, selected, m);
        let mark = if m == selected {
            seq![' ', '*']
        } else {
            Seq::empty()
        };
        let text = frame_text(frame_at(event, m)->0);
        assert(front + seq!['#'] + decimal(m) + mark + seq![' ', 'a', 't', ' '] + text + seq!['\n']
            =~= front + (seq!['#'] + decimal(m) + mark + seq![' ', 'a', 't', ' '] + text + seq![
            '\n',
        ]));
    }
}

/// Frames are shown one to a line from the innermost one on, and the selected one is marked.
pub proof fn frames_are_shown_in_order(event: DebugEvent, selected: usize)
    ensures
        frame_lines(event, selected, event.frames@.len()) == Seq::new(
            event.frames@.len(),
            frame_line(event, selected),
        ).flatten(),
{
    lemma_frames(event, selected, event.frames@.len());
}

/// Watches are shown one after the other, with their numbers, each with its value where it has one.
pub proof fn watches_are_shown_in_order(
    event: DebugEvent,
    selected: usize,
    watches: Seq<Seq<char>>,
    n: nat,
    floats: Floats,
)
    requires
        n <= watches.len(),
    ensures
        watch_lines(event, selected, watches, n, floats) == Seq::new(
            n,
            |i: int| watch_line(event, selected, i as nat, watches[i], floats),
        ).flatten(),
        forall|i: int|
            0 <= i < watches.len() ==> (watch_value(event, selected, #[trigger] watches[i]) matches
                Ok(value) ==> watch_line(event, selected, i as nat, watches[i], floats)
                == "watch #"@ + decimal(i as nat) + ": "@ + watches[i] + " = "@ + heap_text(
                event.heap.objects@,
                value,
                0,
                floats,
            ) + "\n"@),
    decreases n,
{
    let f = |i: int| watch_line(event, selected, i as nat, watches[i], floats);
    if n == 0 {
        assert(Seq::new(0, f).flatten() =~= Seq::empty());
    } else {
        let m = (n - 1) as nat;
        watches_are_shown_in_order(event, selected, watches, m, floats);
        lemma_flatten_last(Seq::new(m, f), f(m as int));
        assert(Seq::new(n, f) =~= Seq::new(m, f).push(f(m as int)));
    }
}

/// The line of an instruction; the current one has an arrow.
pub open spec fn code_line(
    instructions: Seq<InstructionView>,
    current: usize,
    start: int,
) -> spec_fn(int) -> Seq<char> {
    |i: int|
        (if start + i == current {
            seq!['=', '>', ' ']
        } else {
            seq![' ', ' ', ' ']
        }) + zero_padded((start + i) as nat, 4) + seq![' '] + instruction_text(
            instructions[start + i],
        ) + seq!['\n']
}

proof fn lemma_code(instructions: Seq<InstructionView>, current: usize, start: int, end: int)
    requires
        0 <= start,
    ensures
        code_lines(instructions, current, start, end) == Seq::new(
            (if start < end {
                end - start
            } else {
                0
            }) as nat,
            code_line(instructions, current, start),
        ).flatten(),
    decreases end - start,
{
    let f = code_line(instructions, current, start);
    reveal_strlit("=> ");
    reveal_strlit("   ");
    reveal_strlit(" ");
    reveal_strlit("\n");
    assert("=> "@ =~= seq!['=', '>', ' '] && "   "@ =~= seq![' ', ' ', ' ']);
    assert(" "@ =~= seq![' '] && "\n"@ =~= seq!['\n']);
    if start < end {
        let m = (end - 1 - start) as nat;
        lemma_code(instructions, current, start, end - 1);
        lemma_flatten_last(Seq::new(m, f), f(m as int));
        assert(Seq::new((m + 1) as nat, f) =~= Seq::new(m, f).push(f(m as int)));
        let front = code_lines(instructions, current, start, end - 1);
        let marker = if end - 1 == current {
            seq!['=', '>', ' ']
        } else {
            seq![' ', ' ', ' ']
        };
        let number = zero_padded((end - 1) as nat, 4);
        let text = instruction_text(instructions[end - 1]);
        assert(front + marker + number + seq![' '] + text + seq!['\n'] =~= front + (marker + number
            + seq![' '] + text + seq!['\n']));
    } else {
        assert(Seq::new(0, f).flatten() =~= Seq::empty());
    }
}

/// The code around an instruction is shown one instruction to a line, as many on each side as are
/// asked for and as there are, and the instruction itself is marked.
pub proof fn code_is_shown_around_its_instruction(
    d: DebuggerView,
    event: DebugEvent,
    radius: usize,
) -> (shown: (int, int))
    ensures
        frame_at(event, d.selected as nat) matches Some(frame) ==> (event.program@.function(
            frame.function,
        ) matches Some(function) ==> (function.kind matches FunctionKindView::Bytecode(chunk) ==> {
            let (start, end) = shown;
            let n = chunk.instructions.len();
            &&& 0 <= start
            &&& forall|i: int|
                0 <= i < n ==> (start <= i < end <==> #[trigger] near(i, frame.ip, radius))
            &&& code_text(d, event, radius) == "disassembly for frame #"@ + decimal(
                d.selected as nat,
            ) + " "@ + frame_text(frame) + "\n"@ + Seq::new(
                (if start < end {
                    end - start
                } else {
                    0
                }) as nat,
                code_line(chunk.instructions, frame.ip, start),
            ).flatten()
        })),
{
    let frame = frame_at(event, d.selected as nat)->0;
    let start = if radius <= frame.ip {
        frame.ip - radius
    } else {
        0
    };
    let wanted = frame.ip + radius + 1;
    let instructions = match event.program@.function(frame.function) {
        Some(function) => match function.kind {
            FunctionKindView::Bytecode(chunk) => chunk.instructions,
            _ => Seq::empty(),
        },
        None => Seq::empty(),
    };
    let end = if wanted <= instructions.len() {
        wanted
    } else {
        instructions.len() as int
    };
    lemma_code(instructions, frame.ip, start, end);
    (start, end)
}

/// Whether a position is at most so far from another one.
pub open spec fn near(i: int, ip: usize, radius: usize) -> bool {
    i - ip <= radius && ip - i <= radius
}

} // verus!
