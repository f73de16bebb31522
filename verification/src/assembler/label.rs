//! Label patch records used by the fluent assembler.

use vstd::prelude::*;

use crate::bytecode::instruction::{
    Instruction, InstructionView, JumpTarget, Operand, OP_JUMP, OP_JUMP_IF_FALSE, OP_JUMP_IF_TRUE,
};

verus! {

/// Deferred jump target that will be patched once all labels are known.
#[derive(Clone, Debug, PartialEq, Eq)]
pub struct LabelPatch {
    /// Instruction index containing the placeholder jump target.
    pub instruction_index: usize,
    /// User-declared label name to resolve.
    pub label: String,
    /// Shape of jump instruction that must be patched.
    pub kind: LabelPatchKind,
}

/// Jump instruction variants that can carry an assembler label.
#[derive(Clone, Copy, Debug, PartialEq, Eq, Structural)]
pub enum LabelPatchKind {
    Jump,
    JumpIfFalse,
    JumpIfTrue,
}

/// The mathematical content of a patch.
pub struct PatchView {
    pub instruction_index: nat,
    pub label: Seq<char>,
    pub kind: LabelPatchKind,
}

impl View for LabelPatch {
    type V = PatchView;

    open spec fn view(&self) -> PatchView {
        PatchView {
            instruction_index: self.instruction_index as nat,
            label: self.label@,
            kind: self.kind,
        }
    }
}

/// An instruction of the patch's kind with its target resolved; others stay as they are.
pub open spec fn patched(
    kind: LabelPatchKind,
    v: InstructionView,
    target: JumpTarget,
) -> InstructionView {
    if kind.fits(v) {
        InstructionView {
            operands: v.operands.update(v.operands.len() - 1, Operand::Target(target)),
            ..v
        }
    } else {
        v
    }
}

impl LabelPatchKind {
    /// Whether an instruction is a jump of this kind.
    pub open spec fn fits(self, v: InstructionView) -> bool {
        match self {
            LabelPatchKind::Jump => v.opcode == OP_JUMP && v.operands.len() == 1,
            LabelPatchKind::JumpIfFalse => v.opcode == OP_JUMP_IF_FALSE && v.operands.len() == 2,
            LabelPatchKind::JumpIfTrue => v.opcode == OP_JUMP_IF_TRUE && v.operands.len() == 2,
        }
    }

    /// The instruction with the resolved target, if it is a jump of this kind.
    pub fn apply(self, instruction: &Instruction, target: JumpTarget) -> (changed: Option<
        Instruction,
    >)
        ensures
            match changed {
                Some(jump) => jump@ == patched(self, instruction@, target),
                None => patched(self, instruction@, target) == instruction@,
            },
    {
        match (self, instruction) {
            (LabelPatchKind::Jump, Instruction::Jump { .. }) => {
                let jump = Instruction::Jump { target };
                assert(jump@.operands =~= patched(self, instruction@, target).operands);
                Some(jump)
            },
            (LabelPatchKind::JumpIfFalse, Instruction::JumpIfFalse { condition, .. }) => {
                let jump = Instruction::JumpIfFalse { condition: *condition, target };
                assert(jump@.operands =~= patched(self, instruction@, target).operands);
                Some(jump)
            },
            (LabelPatchKind::JumpIfTrue, Instruction::JumpIfTrue { condition, .. }) => {
                let jump = Instruction::JumpIfTrue { condition: *condition, target };
                assert(jump@.operands =~= patched(self, instruction@, target).operands);
                Some(jump)
            },
            _ => None,
        }
    }
}

} // verus!
