//! What finishing a chunk reports.

use vstd::prelude::*;

use crate::assembler::builder::{AssemblerErrorView, AssemblerView};
use crate::assembler::label::LabelPatchKind;
use crate::bytecode::instruction::InstructionView;
use crate::value::Value;

verus! {

proof fn lemma_undefined(a: AssemblerView, from: nat)
    requires
        from <= a.patches.len(),
    ensures
        match a.first_undefined(from) {
            Some(label) => exists|k: int|
                from <= k < a.patches.len() && (#[trigger] a.patches[k]).label == label
                    && !a.labels.contains_key(label) && forall|j: int|
                    from <= j < k ==> a.labels.contains_key((#[trigger] a.patches[j]).label),
            None => forall|k: int|
                from <= k < a.patches.len() ==> a.labels.contains_key(
                    (#[trigger] a.patches[k]).label,
                ),
        },
    decreases a.patches.len() - from,
{
    if from < a.patches.len() {
        if !a.labels.contains_key(a.patches[from as int].label) {
            assert(a.patches[from as int].label == a.first_undefined(from)->0);
        } else {
            lemma_undefined(a, from + 1);
            if let Some(label) = a.first_undefined(from) {
                let k = choose|k: int|
                    from + 1 <= k < a.patches.len() && (#[trigger] a.patches[k]).label == label
                        && !a.labels.contains_key(label) && forall|j: int|
                        from + 1 <= j < k ==> a.labels.contains_key((#[trigger] a.patches[j]).label);
                assert(a.patches[k].label == label);
                assert forall|j: int| from <= j < k implies a.labels.contains_key(
                    (#[trigger] a.patches[j]).label,
                ) by {}
            }
        }
    }
}

/// A chunk without an earlier error is finished just where every label that is jumped to has been
/// declared; else the first one that has not is reported.
pub proof fn undeclared_labels_are_reported(a: AssemblerView)
    requires
        a.pending_error is None,
    ensures
        match a.finish_error() {
            None => forall|k: int|
                0 <= k < a.patches.len() ==> a.labels.contains_key((#[trigger] a.patches[k]).label),
            Some(error) => exists|k: int|
                0 <= k < a.patches.len() && error == AssemblerErrorView::UndefinedLabel(
                    (#[trigger] a.patches[k]).label,
                ) && !a.labels.contains_key(a.patches[k].label) && forall|j: int|
                    0 <= j < k ==> a.labels.contains_key((#[trigger] a.patches[j]).label),
        },
{
    lemma_undefined(a, 0);
    if let Some(label) = a.first_undefined(0) {
        let k = choose|k: int|
            0 <= k < a.patches.len() && (#[trigger] a.patches[k]).label == label
                && !a.labels.contains_key(label) && forall|j: int|
                0 <= j < k ==> a.labels.contains_key((#[trigger] a.patches[j]).label);
        assert(a.patches[k].label == label);
    }
}

/// The first error stays: nothing that follows it is assembled or replaces it.
pub proof fn first_errors_stay(a: AssemblerView, label: Seq<char>)
    requires
        a.pending_error is Some,
    ensures
        a.with_label(label) == a,
        a.with_string(label) == a,
        a.finish_error() == a.pending_error,
{
}

/// A label stands where it is declared first; another declaration of it is an error.
pub proof fn labels_are_declared_once(a: AssemblerView, label: Seq<char>)
    requires
        a.pending_error is None,
        a.chunk.instructions.len() <= u32::MAX,
    ensures
        a.with_label(label).labels[label] == a.chunk.instructions.len(),
        a.with_label(label).pending_error == (if a.labels.contains_key(label) {
            Some(AssemblerErrorView::DuplicateLabel(label))
        } else {
            None
        }),
        forall|other: Seq<char>|
            other != label && a.labels.contains_key(other) ==> #[trigger] a.with_label(
                label,
            ).labels[other] == a.labels[other],
{
}

/// A constant or a string is put behind the others, and its number is how many there were; only a
/// full pool is an error.
pub proof fn pools_are_filled_in_order(a: AssemblerView, value: Value, text: Seq<char>)
    requires
        a.pending_error is None,
    ensures
        a.chunk.constants.len() < 65536 ==> a.with_constant(value).chunk.constants
            == a.chunk.constants + seq![value] && a.with_constant(value).pending_error is None,
        a.chunk.constants.len() >= 65536 ==> a.with_constant(value).chunk == a.chunk
            && a.with_constant(value).pending_error is Some,
        a.chunk.strings.len() < 65536 ==> a.with_string(text).chunk.strings == a.chunk.strings
            + seq![text] && a.with_string(text).pending_error is None,
        a.chunk.strings.len() >= 65536 ==> a.with_string(text).chunk == a.chunk && a.with_string(
            text,
        ).pending_error is Some,
        a.with_constant(value).chunk.instructions == a.chunk.instructions,
        a.with_string(text).chunk.instructions == a.chunk.instructions,
{
    assert(a.chunk.constants.push(value) =~= a.chunk.constants + seq![value]);
    assert(a.chunk.strings.push(text) =~= a.chunk.strings + seq![text]);
}

/// A jump to a label is put behind the other instructions, and is remembered with its label.
pub proof fn label_jumps_are_remembered(
    a: AssemblerView,
    kind: LabelPatchKind,
    label: Seq<char>,
    jump: InstructionView,
)
    requires
        a.pending_error is None,
    ensures
        ({
            let b = a.with_label_jump(kind, label, jump);
            &&& b.chunk.instructions == a.chunk.instructions + seq![jump]
            &&& b.patches.len() == a.patches.len() + 1
            &&& b.patches.last().label == label
            &&& b.patches.last().kind == kind
            &&& b.chunk.instructions[b.patches.last().instruction_index as int] == jump
            &&& b.patches.drop_last() == a.patches
            &&& b.labels == a.labels
        }),
{
    let b = a.with_label_jump(kind, label, jump);
    assert(a.chunk.instructions.push(jump) =~= a.chunk.instructions + seq![jump]);
    assert(b.patches.drop_last() =~= a.patches);
}

} // verus!
