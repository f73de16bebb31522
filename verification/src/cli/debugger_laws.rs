//! What holds of breakpoints over several commands.

use vstd::prelude::*;

use crate::cli::debugger::{
    breakpoint_cleared, breakpoint_of, breakpoint_set, stops, with_breakpoint, without_breakpoint,
    BreakpointView, DebugEvent, DebuggerView,
};
use crate::diagnostics::source::FileView;

verus! {

/// Once a breakpoint is set at an instruction, the program stops there, in every function if the
/// breakpoint names none.
pub proof fn set_breakpoints_stop(
    d: DebuggerView,
    event: DebugEvent,
    text: Seq<char>,
    later: DebugEvent,
    files: Seq<FileView>,
)
    requires
        breakpoint_of(event.program@, text) matches Some(
            BreakpointView::Instruction { function, instruction_ip },
        ) && instruction_ip == later.instruction_ip && (function is None || function == Some(
            later.function,
        )),
    ensures
        stops(breakpoint_set(d, event, text).state, later, files),
{
    let b = breakpoint_of(event.program@, text)->0;
    let all = with_breakpoint(d.breakpoints, b);
    if !d.breakpoints.contains(b) {
        assert(all.last() == b);
    }
    assert(all.contains(b));
}

/// A cleared breakpoint is gone, and all others stay.
pub proof fn cleared_breakpoints_are_gone(
    d: DebuggerView,
    event: DebugEvent,
    text: Seq<char>,
    b: BreakpointView,
    other: BreakpointView,
)
    requires
        breakpoint_of(event.program@, text) == Some(b),
    ensures
        !breakpoint_cleared(d, event, text).state.breakpoints.contains(b),
        other != b ==> (breakpoint_cleared(d, event, text).state.breakpoints.contains(other)
            <==> d.breakpoints.contains(other)),
{
    lemma_without(d.breakpoints, b, 0, b);
    lemma_without(d.breakpoints, b, 0, other);
    assert(d.breakpoints.skip(0) =~= d.breakpoints);
}

proof fn lemma_without(
    breakpoints: Seq<BreakpointView>,
    b: BreakpointView,
    i: int,
    other: BreakpointView,
)
    requires
        0 <= i <= breakpoints.len(),
    ensures
        without_breakpoint(breakpoints, b, i).contains(other) <==> other != b && breakpoints.skip(
            i,
        ).contains(other),
    decreases breakpoints.len() - i,
{
    let kept = without_breakpoint(breakpoints, b, i);
    let rest = breakpoints.skip(i);
    if i < breakpoints.len() {
        lemma_without(breakpoints, b, i + 1, other);
        let later = without_breakpoint(breakpoints, b, i + 1);
        assert(rest =~= seq![breakpoints[i]] + breakpoints.skip(i + 1));
        lemma_in_front(breakpoints[i], breakpoints.skip(i + 1), other);
        lemma_in_front(breakpoints[i], later, other);
    } else {
        assert(kept =~= Seq::empty());
        assert(rest =~= Seq::empty());
    }
}

proof fn lemma_in_front(first: BreakpointView, rest: Seq<BreakpointView>, other: BreakpointView)
    ensures
        (seq![first] + rest).contains(other) <==> first == other || rest.contains(other),
{
    let all = seq![first] + rest;
    assert(all[0] == first);
    if rest.contains(other) {
        let i = choose|i: int| 0 <= i < rest.len() && rest[i] == other;
        assert(all[i + 1] == other);
    }
    if all.contains(other) && first != other {
        let i = choose|i: int| 0 <= i < all.len() && all[i] == other;
        assert(rest[i - 1] == other);
    }
}

/// Clearing a breakpoint that was not there before it was set undoes the setting.
pub proof fn clearing_undoes_setting(d: DebuggerView, event: DebugEvent, text: Seq<char>)
    requires
        breakpoint_of(event.program@, text) matches Some(b) ==> !d.breakpoints.contains(b),
    ensures
        breakpoint_cleared(breakpoint_set(d, event, text).state, event, text).state == d,
{
    if let Some(b) = breakpoint_of(event.program@, text) {
        let all = d.breakpoints.push(b);
        assert(all.last() == b);
        assert(all.contains(b));
        lemma_without_last(d.breakpoints, b, 0);
        assert(d.breakpoints.skip(0) =~= d.breakpoints);
    }
}

proof fn lemma_without_last(breakpoints: Seq<BreakpointView>, b: BreakpointView, i: int)
    requires
        0 <= i <= breakpoints.len(),
        !breakpoints.contains(b),
    ensures
        without_breakpoint(breakpoints.push(b), b, i) == breakpoints.skip(i),
    decreases breakpoints.len() - i,
{
    let all = breakpoints.push(b);
    if i < breakpoints.len() {
        lemma_without_last(breakpoints, b, i + 1);
        assert(all[i] == breakpoints[i]);
        assert(breakpoints.skip(i) =~= seq![breakpoints[i]] + breakpoints.skip(i + 1));
    } else {
        assert(all[i] == b);
        assert(without_breakpoint(all, b, i + 1) =~= Seq::empty());
        assert(breakpoints.skip(i) =~= Seq::empty());
    }
}

} // verus!
