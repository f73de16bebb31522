//! Fluent bytecode assembler for tests and low-level tooling.
//!
//! The assembler builds a chunk instruction by instruction, supports named
//! labels for forward/backward jumps, and verifies the final chunk by default.

use vstd::prelude::*;
use vstd::string::StringExecFns;

use crate::assembler::label::{
    patched, LabelPatch, LabelPatchKind, PatchView,
};
use crate::bytecode::chunk::{Chunk, ChunkBuildError, ChunkView};
use crate::bytecode::instruction::{
    field_count_byte, text_operands, ConstId, FunctionId, Instruction, InstructionView, JumpTarget,
    Operand, Register, StringId, OP_RECORD_NEW,
};
use crate::bytecode::verification::{
    error_text, structural_error, valid_chunk, VerificationError, VerifiedChunk,
};
use crate::names::NameMap;
use crate::text::{decimal, push_decimal};
use crate::value::Value;

verus! {

/// Builder-style assembler for constructing a single bytecode chunk.
#[derive(Debug)]
pub struct Assembler {
    chunk: Chunk,
    labels: NameMap<u32>,
    patches: Vec<LabelPatch>,
    pending_error: Option<AssemblerError>,
}

/// Errors that can happen while assembling or verifying a chunk.
#[derive(Clone, Debug, PartialEq, Eq)]
pub enum AssemblerError {
    /// Constant or string table construction failed.
    ChunkBuild(ChunkBuildError),
    /// Final bytecode verification failed.
    Verification(VerificationError),
    /// A label was declared more than once.
    DuplicateLabel { label: String },
    /// A jump referenced a label that was never declared.
    UndefinedLabel { label: String },
    /// The chunk exceeded the jump target address range.
    TooManyInstructions { max: usize },
}

/// The mathematical content of an assembler error.
pub enum AssemblerErrorView {
    ChunkBuild(ChunkBuildError),
    Verification(VerificationError),
    DuplicateLabel(Seq<char>),
    UndefinedLabel(Seq<char>),
    TooManyInstructions(nat),
}

impl View for AssemblerError {
    type V = AssemblerErrorView;

    open spec fn view(&self) -> AssemblerErrorView {
        match *self {
            AssemblerError::ChunkBuild(error) => AssemblerErrorView::ChunkBuild(error),
            AssemblerError::Verification(error) => AssemblerErrorView::Verification(error),
            AssemblerError::DuplicateLabel { label } => AssemblerErrorView::DuplicateLabel(label@),
            AssemblerError::UndefinedLabel { label } => AssemblerErrorView::UndefinedLabel(label@),
            AssemblerError::TooManyInstructions { max } =>
                AssemblerErrorView::TooManyInstructions(max as nat),
        }
    }
}

/// The state of an assembler.
#[verifier::ext_equal]
pub struct AssemblerView {
    /// The chunk so far, with placeholders for jumps to labels.
    pub chunk: ChunkView,
    /// The positions of the labels declared so far.
    pub labels: Map<Seq<char>, u32>,
    /// The jumps to labels.
    pub patches: Seq<PatchView>,
    /// The first error.
    pub pending_error: Option<AssemblerErrorView>,
}

/// The contents of some patches.
pub open spec fn patch_views(patches: Seq<LabelPatch>) -> Seq<PatchView> {
    Seq::new(patches.len(), |i: int| patches[i]@)
}

/// The content of an optional error.
pub open spec fn pending_view(error: Option<AssemblerError>) -> Option<AssemblerErrorView> {
    match error {
        Some(error) => Some(error@),
        None => None,
    }
}

impl View for Assembler {
    type V = AssemblerView;

    closed spec fn view(&self) -> AssemblerView {
        AssemblerView {
            chunk: self.chunk@,
            labels: self.labels@,
            patches: patch_views(self.patches@),
            pending_error: pending_view(self.pending_error),
        }
    }
}

impl AssemblerView {
    /// Each patch stands for one jump of its kind, in the order of the instructions. Nothing has
    /// been verified yet.
    pub open spec fn wf(self) -> bool {
        &&& forall|i: int|
            0 <= i < self.patches.len() ==> {
                &&& (#[trigger] self.patches[i]).instruction_index < self.chunk.instructions.len()
                &&& self.patches[i].kind.fits(
                    self.chunk.instructions[self.patches[i].instruction_index as int],
                )
            }
        &&& forall|i: int, j: int|
            0 <= i < j < self.patches.len() ==> self.patches[i].instruction_index
                < self.patches[j].instruction_index
        &&& !(self.pending_error matches Some(AssemblerErrorView::Verification(_)))
    }

    /// The state after an instruction has been added.
    pub open spec fn pushed(self, v: InstructionView) -> AssemblerView {
        AssemblerView {
            chunk: ChunkView {
                instructions: self.chunk.instructions.push(v),
                source_map: self.chunk.source_map.push(None),
                ..self.chunk
            },
            ..self
        }
    }

    /// The state after a constant has been added, unless there is an error already.
    pub open spec fn with_constant(self, value: Value) -> AssemblerView {
        if self.pending_error is Some {
            self
        } else if self.chunk.constants.len() > u16::MAX {
            AssemblerView {
                pending_error: Some(
                    AssemblerErrorView::ChunkBuild(
                        ChunkBuildError::TooManyConstants { max: 0x1_0000 },
                    ),
                ),
                ..self
            }
        } else {
            AssemblerView {
                chunk: ChunkView {
                    constants: self.chunk.constants.push(value),
                    ..self.chunk
                },
                ..self
            }
        }
    }

    /// The state after a string has been added, unless there is an error already.
    pub open spec fn with_string(self, value: Seq<char>) -> AssemblerView {
        if self.pending_error is Some {
            self
        } else if self.chunk.strings.len() > u16::MAX {
            AssemblerView {
                pending_error: Some(
                    AssemblerErrorView::ChunkBuild(
                        ChunkBuildError::TooManyStrings { max: 0x1_0000 },
                    ),
                ),
                ..self
            }
        } else {
            AssemblerView {
                chunk: ChunkView { strings: self.chunk.strings.push(value), ..self.chunk },
                ..self
            }
        }
    }

    /// The state after a jump to a label has been added, unless there is an error already.
    pub open spec fn with_label_jump(
        self,
        kind: LabelPatchKind,
        label: Seq<char>,
        jump: InstructionView,
    ) -> AssemblerView {
        if self.pending_error is Some {
            self
        } else {
            AssemblerView {
                patches: self.patches.push(
                    PatchView {
                        instruction_index: self.chunk.instructions.len(),
                        label,
                        kind,
                    },
                ),
                ..self.pushed(jump)
            }
        }
    }

    /// The state after a label has been declared here, unless there is an error already.
    pub open spec fn with_label(self, label: Seq<char>) -> AssemblerView {
        if self.pending_error is Some {
            self
        } else if self.chunk.instructions.len() > u32::MAX {
            AssemblerView {
                pending_error: Some(AssemblerErrorView::TooManyInstructions(0x1_0000_0000)),
                ..self
            }
        } else {
            AssemblerView {
                labels: self.labels.insert(label, self.chunk.instructions.len() as u32),
                pending_error: if self.labels.contains_key(label) {
                    Some(AssemblerErrorView::DuplicateLabel(label))
                } else {
                    None
                },
                ..self
            }
        }
    }

    /// The first patch from `from` on whose label is not declared.
    pub open spec fn first_undefined(self, from: nat) -> Option<Seq<char>>
        decreases self.patches.len() - from,
    {
        if from >= self.patches.len() {
            None
        } else if !self.labels.contains_key(self.patches[from as int].label) {
            Some(self.patches[from as int].label)
        } else {
            self.first_undefined(from + 1)
        }
    }

    /// The instructions after the first `n` patches.
    pub open spec fn resolved_instructions(self, n: nat) -> Seq<InstructionView>
        decreases n,
    {
        if n == 0 {
            self.chunk.instructions
        } else {
            let before = self.resolved_instructions((n - 1) as nat);
            let patch = self.patches[n - 1];
            let index = patch.instruction_index as int;
            if index < before.len() {
                before.update(
                    index,
                    patched(patch.kind, before[index], JumpTarget(self.labels[patch.label])),
                )
            } else {
                before
            }
        }
    }

    /// The error that finishing reports before verification: the first pending one, or a label
    /// that is not declared.
    pub open spec fn finish_error(self) -> Option<AssemblerErrorView> {
        if self.pending_error is Some {
            self.pending_error
        } else if let Some(label) = self.first_undefined(0) {
            Some(AssemblerErrorView::UndefinedLabel(label))
        } else {
            None
        }
    }

    /// The chunk with all labels resolved.
    pub open spec fn finished(self) -> ChunkView {
        ChunkView {
            instructions: self.resolved_instructions(self.patches.len()),
            ..self.chunk
        }
    }
}

// ---------------------------------------------------------------------------
// Laws
// ---------------------------------------------------------------------------

proof fn lemma_resolved_shape(a: AssemblerView, n: nat)
    requires
        n <= a.patches.len(),
    ensures
        a.resolved_instructions(n).len() == a.chunk.instructions.len(),
        forall|i: int|
            0 <= i < a.chunk.instructions.len() ==> (#[trigger] a.resolved_instructions(n)[i]).opcode
                == a.chunk.instructions[i].opcode && a.resolved_instructions(n)[i].operands.len()
                == a.chunk.instructions[i].operands.len(),
    decreases n,
{
    if n > 0 {
        lemma_resolved_shape(a, (n - 1) as nat);
    }
}

proof fn lemma_later_patches(a: AssemblerView, k: int, n: nat)
    requires
        a.wf(),
        0 <= k < n <= a.patches.len(),
    ensures
        a.resolved_instructions(n)[a.patches[k].instruction_index as int]
            == a.resolved_instructions((k + 1) as nat)[a.patches[k].instruction_index as int],
    decreases n - k,
{
    if k + 1 < n {
        lemma_later_patches(a, k, (n - 1) as nat);
        lemma_resolved_shape(a, (n - 1) as nat);
        assert(a.patches[k].instruction_index < a.patches[n - 1].instruction_index);
    }
}

/// In the finished chunk every jump to a label goes to the position at which the label was
/// declared.
pub proof fn label_jumps_reach_their_labels(a: AssemblerView, k: int)
    requires
        a.wf(),
        a.finish_error() is None,
        0 <= k < a.patches.len(),
    ensures
        a.labels.contains_key(a.patches[k].label),
        a.finished().instructions[a.patches[k].instruction_index as int].target() == Some(
            JumpTarget(a.labels[a.patches[k].label]),
        ),
{
    let index = a.patches[k].instruction_index as int;
    lemma_defined(a, 0, k as nat);
    lemma_later_patches(a, k, a.patches.len());
    lemma_resolved_shape(a, k as nat);
    lemma_resolved_shape(a, (k + 1) as nat);
    let before = a.resolved_instructions(k as nat);
    assert(a.patches[k].kind.fits(a.chunk.instructions[index]));
    assert(before[index].opcode == a.chunk.instructions[index].opcode);
}

proof fn lemma_defined(a: AssemblerView, from: nat, k: nat)
    requires
        a.first_undefined(from) is None,
        from <= k < a.patches.len(),
    ensures
        a.labels.contains_key(a.patches[k as int].label),
    decreases k - from,
{
    if from < k {
        lemma_defined(a, from + 1, k);
    }
}

// ---------------------------------------------------------------------------
// The builder
// ---------------------------------------------------------------------------

impl Clone for Assembler {
    fn clone(&self) -> (copy: Self)
        ensures
            copy@ == self@,
    {
        proof {
            use_type_invariant(self);
        }
        let mut patches: Vec<LabelPatch> = Vec::new();
        let mut i: usize = 0;
        while i < self.patches.len()
            invariant
                i <= self.patches@.len(),
                patches@.len() == i,
                forall|k: int| 0 <= k < i ==> (#[trigger] patches@[k])@ == self.patches@[k]@,
            decreases self.patches.len() - i,
        {
            let patch = &self.patches[i];
            patches.push(
                LabelPatch {
                    instruction_index: patch.instruction_index,
                    label: patch.label.clone(),
                    kind: patch.kind,
                },
            );
            i = i + 1;
        }
        let pending_error = match &self.pending_error {
            None => None,
            Some(AssemblerError::ChunkBuild(error)) => Some(AssemblerError::ChunkBuild(*error)),
            Some(AssemblerError::DuplicateLabel { label }) => Some(
                AssemblerError::DuplicateLabel { label: label.clone() },
            ),
            Some(AssemblerError::UndefinedLabel { label }) => Some(
                AssemblerError::UndefinedLabel { label: label.clone() },
            ),
            Some(AssemblerError::TooManyInstructions { max }) => Some(
                AssemblerError::TooManyInstructions { max: *max },
            ),
            Some(AssemblerError::Verification(error)) => Some(
                AssemblerError::Verification(error.clone()),
            ),
        };
        let chunk = self.chunk.clone();
        let labels = self.labels.clone();
        assert(patch_views(patches@) =~= patch_views(self.patches@));
        Assembler { chunk, labels, patches, pending_error }
    }
}

impl Assembler {
    #[verifier::type_invariant]
    spec fn well_formed(self) -> bool {
        self@.wf()
    }

    /// Creates an assembler for a chunk with the given function/chunk name.
    pub fn new(name: &str) -> (assembler: Self)
        ensures
            assembler@ == (AssemblerView {
                chunk: ChunkView {
                    name: name@,
                    arity: 0,
                    register_count: 0,
                    capture_count: 0,
                    constants: Seq::empty(),
                    strings: Seq::empty(),
                    instructions: Seq::empty(),
                    source_map: Seq::empty(),
                    debug_local_names: Seq::empty(),
                },
                labels: Map::empty(),
                patches: Seq::empty(),
                pending_error: None,
            }),
    {
        Assembler {
            chunk: Chunk::new(name, 0),
            labels: NameMap::new(),
            patches: Vec::new(),
            pending_error: None,
        }
    }

    /// Sets the register count required by the assembled chunk.
    pub fn registers(self, count: u8) -> (assembler: Self)
        ensures
            assembler@ == (AssemblerView {
                chunk: ChunkView { register_count: count, ..self@.chunk },
                ..self@
            }),
    {
        proof {
            use_type_invariant(&self);
        }
        let Assembler { chunk, labels, patches, pending_error } = self;
        let mut chunk = chunk;
        chunk.register_count = count;
        Assembler { chunk, labels, patches, pending_error }
    }

    /// Sets the number of arguments expected by the assembled chunk.
    pub fn arity(self, arity: u8) -> (assembler: Self)
        ensures
            assembler@ == (AssemblerView { chunk: ChunkView { arity, ..self@.chunk }, ..self@ }),
    {
        proof {
            use_type_invariant(&self);
        }
        let Assembler { chunk, labels, patches, pending_error } = self;
        let mut chunk = chunk;
        chunk.arity = arity;
        Assembler { chunk, labels, patches, pending_error }
    }

    /// Appends an integer constant to the chunk constant table.
    pub fn integer(self, value: i64) -> (assembler: Self)
        ensures
            assembler@ == self@.with_constant(Value::Int(value)),
    {
        self.constant(Value::Int(value))
    }

    /// Appends a boolean constant to the chunk constant table.
    pub fn bool(self, value: bool) -> (assembler: Self)
        ensures
            assembler@ == self@.with_constant(Value::Bool(value)),
    {
        self.constant(Value::Bool(value))
    }

    /// Appends a nil constant to the chunk constant table.
    pub fn nil(self) -> (assembler: Self)
        ensures
            assembler@ == self@.with_constant(Value::Nil),
    {
        self.constant(Value::Nil)
    }

    /// Appends a string literal to the chunk string table.
    pub fn string(self, value: &str) -> (assembler: Self)
        ensures
            assembler@ == self@.with_string(value@),
    {
        proof {
            use_type_invariant(&self);
        }
        if self.pending_error.is_some() {
            return self;
        }
        let Assembler { chunk, labels, patches, pending_error } = self;
        let mut chunk = chunk;
        let pending_error = match chunk.add_string(value) {
            Ok(_) => pending_error,
            Err(error) => Some(AssemblerError::ChunkBuild(error)),
        };
        Assembler { chunk, labels, patches, pending_error }
    }

    /// Emits `LoadConst` into a destination register.
    pub fn load_const(self, dst: u8, constant: u16) -> (assembler: Self)
        ensures
            assembler@ == self@.pushed((Instruction::LoadConst { dst: Register(dst), constant: ConstId(constant) })@),
    {
        self.push(Instruction::LoadConst { dst: Register(dst), constant: ConstId(constant) })
    }

    /// Emits `LoadString` into a destination register.
    pub fn load_string(self, dst: u8, string: u16) -> (assembler: Self)
        ensures
            assembler@ == self@.pushed((Instruction::LoadString { dst: Register(dst), string: StringId(string) })@),
    {
        self.push(Instruction::LoadString { dst: Register(dst), string: StringId(string) })
    }

    /// Emits a register-to-register move.
    pub fn mov(self, dst: u8, src: u8) -> (assembler: Self)
        ensures
            assembler@ == self@.pushed((Instruction::Move { dst: Register(dst), src: Register(src) })@),
    {
        self.push(Instruction::Move { dst: Register(dst), src: Register(src) })
    }

    /// Emits checked integer addition.
    pub fn add(self, dst: u8, lhs: u8, rhs: u8) -> (assembler: Self)
        ensures
            assembler@ == self@.pushed((Instruction::Add { dst: Register(dst), lhs: Register(lhs), rhs: Register(rhs) })@),
    {
        self.push(Instruction::Add { dst: Register(dst), lhs: Register(lhs), rhs: Register(rhs) })
    }

    /// Emits checked integer subtraction.
    pub fn sub(self, dst: u8, lhs: u8, rhs: u8) -> (assembler: Self)
        ensures
            assembler@ == self@.pushed((Instruction::Sub { dst: Register(dst), lhs: Register(lhs), rhs: Register(rhs) })@),
    {
        self.push(Instruction::Sub { dst: Register(dst), lhs: Register(lhs), rhs: Register(rhs) })
    }

    /// Emits checked integer multiplication.
    pub fn mul(self, dst: u8, lhs: u8, rhs: u8) -> (assembler: Self)
        ensures
            assembler@ == self@.pushed((Instruction::Mul { dst: Register(dst), lhs: Register(lhs), rhs: Register(rhs) })@),
    {
        self.push(Instruction::Mul { dst: Register(dst), lhs: Register(lhs), rhs: Register(rhs) })
    }

    /// Emits checked integer division.
    pub fn div(self, dst: u8, lhs: u8, rhs: u8) -> (assembler: Self)
        ensures
            assembler@ == self@.pushed((Instruction::Div { dst: Register(dst), lhs: Register(lhs), rhs: Register(rhs) })@),
    {
        self.push(Instruction::Div { dst: Register(dst), lhs: Register(lhs), rhs: Register(rhs) })
    }

    /// Emits equality comparison.
    pub fn equal(self, dst: u8, lhs: u8, rhs: u8) -> (assembler: Self)
        ensures
            assembler@ == self@.pushed((Instruction::Equal { dst: Register(dst), lhs: Register(lhs), rhs: Register(rhs) })@),
    {
        self.push(Instruction::Equal { dst: Register(dst), lhs: Register(lhs), rhs: Register(rhs) })
    }

    /// Emits inequality comparison.
    pub fn not_equal(self, dst: u8, lhs: u8, rhs: u8) -> (assembler: Self)
        ensures
            assembler@ == self@.pushed((Instruction::NotEqual { dst: Register(dst), lhs: Register(lhs), rhs: Register(rhs) })@),
    {
        self.push(Instruction::NotEqual { dst: Register(dst), lhs: Register(lhs), rhs: Register(rhs) })
    }

    /// Emits integer less-than comparison.
    pub fn less(self, dst: u8, lhs: u8, rhs: u8) -> (assembler: Self)
        ensures
            assembler@ == self@.pushed((Instruction::Less { dst: Register(dst), lhs: Register(lhs), rhs: Register(rhs) })@),
    {
        self.push(Instruction::Less { dst: Register(dst), lhs: Register(lhs), rhs: Register(rhs) })
    }

    /// Emits integer less-than-or-equal comparison.
    pub fn less_equal(self, dst: u8, lhs: u8, rhs: u8) -> (assembler: Self)
        ensures
            assembler@ == self@.pushed((Instruction::LessEqual { dst: Register(dst), lhs: Register(lhs), rhs: Register(rhs) })@),
    {
        self.push(Instruction::LessEqual { dst: Register(dst), lhs: Register(lhs), rhs: Register(rhs) })
    }

    /// Emits integer greater-than comparison.
    pub fn greater(self, dst: u8, lhs: u8, rhs: u8) -> (assembler: Self)
        ensures
            assembler@ == self@.pushed((Instruction::Greater { dst: Register(dst), lhs: Register(lhs), rhs: Register(rhs) })@),
    {
        self.push(Instruction::Greater { dst: Register(dst), lhs: Register(lhs), rhs: Register(rhs) })
    }

    /// Emits integer greater-than-or-equal comparison.
    pub fn greater_equal(self, dst: u8, lhs: u8, rhs: u8) -> (assembler: Self)
        ensures
            assembler@ == self@.pushed((Instruction::GreaterEqual { dst: Register(dst), lhs: Register(lhs), rhs: Register(rhs) })@),
    {
        self.push(Instruction::GreaterEqual { dst: Register(dst), lhs: Register(lhs), rhs: Register(rhs) })
    }

    /// Emits an unconditional jump to a concrete instruction index.
    pub fn jump_to(self, target: u32) -> (assembler: Self)
        ensures
            assembler@ == self@.pushed((Instruction::Jump { target: JumpTarget(target) })@),
    {
        self.push(Instruction::Jump { target: JumpTarget(target) })
    }

    /// Emits a false-branch jump to a concrete instruction index.
    pub fn jump_if_false_to(self, condition: u8, target: u32) -> (assembler: Self)
        ensures
            assembler@ == self@.pushed((Instruction::JumpIfFalse { condition: Register(condition), target: JumpTarget(target) })@),
    {
        self.push(Instruction::JumpIfFalse { condition: Register(condition), target: JumpTarget(target) })
    }

    /// Emits a true-branch jump to a concrete instruction index.
    pub fn jump_if_true_to(self, condition: u8, target: u32) -> (assembler: Self)
        ensures
            assembler@ == self@.pushed((Instruction::JumpIfTrue { condition: Register(condition), target: JumpTarget(target) })@),
    {
        self.push(Instruction::JumpIfTrue { condition: Register(condition), target: JumpTarget(target) })
    }

    /// Emits boolean negation.
    pub fn not(self, dst: u8, src: u8) -> (assembler: Self)
        ensures
            assembler@ == self@.pushed((Instruction::Not { dst: Register(dst), src: Register(src) })@),
    {
        self.push(Instruction::Not { dst: Register(dst), src: Register(src) })
    }

    /// Emits a function call using a contiguous argument register range.
    pub fn call_function(self, dst: u8, function: u16, args_start: u8, arg_count: u8) -> (assembler: Self)
        ensures
            assembler@ == self@.pushed((Instruction::CallFunction { dst: Register(dst), function: FunctionId(function), args_start: Register(args_start), arg_count })@),
    {
        self.push(Instruction::CallFunction { dst: Register(dst), function: FunctionId(function), args_start: Register(args_start), arg_count })
    }

    /// Emits array allocation from a contiguous element register range.
    pub fn array_new(self, dst: u8, elements_start: u8, element_count: u8) -> (assembler: Self)
        ensures
            assembler@ == self@.pushed((Instruction::ArrayNew { dst: Register(dst), elements_start: Register(elements_start), element_count })@),
    {
        self.push(Instruction::ArrayNew { dst: Register(dst), elements_start: Register(elements_start), element_count })
    }

    /// Emits map allocation from contiguous key/value register pairs.
    pub fn map_new(self, dst: u8, entries_start: u8, entry_count: u8) -> (assembler: Self)
        ensures
            assembler@ == self@.pushed((Instruction::MapNew { dst: Register(dst), entries_start: Register(entries_start), entry_count })@),
    {
        self.push(Instruction::MapNew { dst: Register(dst), entries_start: Register(entries_start), entry_count })
    }

    /// Emits generic index read for arrays and maps.
    pub fn index_get(self, dst: u8, target: u8, index: u8) -> (assembler: Self)
        ensures
            assembler@ == self@.pushed((Instruction::IndexGet { dst: Register(dst), target: Register(target), index: Register(index) })@),
    {
        self.push(Instruction::IndexGet { dst: Register(dst), target: Register(target), index: Register(index) })
    }

    /// Emits generic index write for arrays and maps.
    pub fn index_set(self, target: u8, index: u8, value: u8) -> (assembler: Self)
        ensures
            assembler@ == self@.pushed((Instruction::IndexSet { target: Register(target), index: Register(index), value: Register(value) })@),
    {
        self.push(Instruction::IndexSet { target: Register(target), index: Register(index), value: Register(value) })
    }

    /// Emits direct array index read.
    pub fn array_get(self, dst: u8, array: u8, index: u8) -> (assembler: Self)
        ensures
            assembler@ == self@.pushed((Instruction::ArrayGet { dst: Register(dst), array: Register(array), index: Register(index) })@),
    {
        self.push(Instruction::ArrayGet { dst: Register(dst), array: Register(array), index: Register(index) })
    }

    /// Emits direct array index write.
    pub fn array_set(self, array: u8, index: u8, value: u8) -> (assembler: Self)
        ensures
            assembler@ == self@.pushed((Instruction::ArraySet { array: Register(array), index: Register(index), value: Register(value) })@),
    {
        self.push(Instruction::ArraySet { array: Register(array), index: Register(index), value: Register(value) })
    }

    /// Emits a record field read.
    pub fn field_get(self, dst: u8, target: u8, field: u16) -> (assembler: Self)
        ensures
            assembler@ == self@.pushed((Instruction::FieldGet { dst: Register(dst), target: Register(target), field: StringId(field) })@),
    {
        self.push(Instruction::FieldGet { dst: Register(dst), target: Register(target), field: StringId(field) })
    }

    /// Emits a record field write.
    pub fn field_set(self, target: u8, field: u16, value: u8) -> (assembler: Self)
        ensures
            assembler@ == self@.pushed((Instruction::FieldSet { target: Register(target), field: StringId(field), value: Register(value) })@),
    {
        self.push(Instruction::FieldSet { target: Register(target), field: StringId(field), value: Register(value) })
    }

    /// Emits a return from the source register.
    pub fn ret(self, src: u8) -> (assembler: Self)
        ensures
            assembler@ == self@.pushed((Instruction::Return { src: Register(src) })@),
    {
        self.push(Instruction::Return { src: Register(src) })
    }

    /// Emits a record construction from a contiguous field register range.
    pub fn record_new(self, dst: u8, fields_start: u8, fields: Vec<u16>) -> (assembler: Self)
        ensures
            assembler@ == self@.pushed(
                InstructionView {
                    opcode: OP_RECORD_NEW,
                    operands: seq![
                        Operand::Register(Register(dst)),
                        Operand::Register(Register(fields_start)),
                        Operand::Count(field_count_byte(fields@.len())),
                    ] + text_operands(fields@.map_values(|id: u16| StringId(id))),
                },
            ),
    {
        let mut ids: Vec<StringId> = Vec::new();
        let mut i: usize = 0;
        while i < fields.len()
            invariant
                i <= fields@.len(),
                ids@.len() == i,
                forall|k: int| 0 <= k < i ==> #[trigger] ids@[k] == StringId(fields@[k]),
            decreases fields.len() - i,
        {
            ids.push(StringId(fields[i]));
            i = i + 1;
        }
        assert(ids@ =~= fields@.map_values(|id: u16| StringId(id)));
        self.push(
            Instruction::RecordNew {
                dst: Register(dst),
                fields_start: Register(fields_start),
                fields: ids,
            },
        )
    }

    /// Emits an unconditional jump to a named label.
    pub fn jump(self, label: &str) -> (assembler: Self)
        ensures
            assembler@ == self@.with_label_jump(
                LabelPatchKind::Jump,
                label@,
                (Instruction::Jump { target: JumpTarget(u32::MAX) })@,
            ),
    {
        self.push_label_jump(
            LabelPatchKind::Jump,
            label,
            Instruction::Jump { target: JumpTarget(u32::MAX) },
        )
    }

    /// Emits a false-branch jump to a named label.
    pub fn jump_if_false(self, condition: u8, label: &str) -> (assembler: Self)
        ensures
            assembler@ == self@.with_label_jump(
                LabelPatchKind::JumpIfFalse,
                label@,
                (Instruction::JumpIfFalse {
                    condition: Register(condition),
                    target: JumpTarget(u32::MAX),
                })@,
            ),
    {
        self.push_label_jump(
            LabelPatchKind::JumpIfFalse,
            label,
            Instruction::JumpIfFalse {
                condition: Register(condition),
                target: JumpTarget(u32::MAX),
            },
        )
    }

    /// Emits a true-branch jump to a named label.
    pub fn jump_if_true(self, condition: u8, label: &str) -> (assembler: Self)
        ensures
            assembler@ == self@.with_label_jump(
                LabelPatchKind::JumpIfTrue,
                label@,
                (Instruction::JumpIfTrue {
                    condition: Register(condition),
                    target: JumpTarget(u32::MAX),
                })@,
            ),
    {
        self.push_label_jump(
            LabelPatchKind::JumpIfTrue,
            label,
            Instruction::JumpIfTrue {
                condition: Register(condition),
                target: JumpTarget(u32::MAX),
            },
        )
    }

    /// Declares a named label at the current instruction index.
    pub fn label(self, name: &str) -> (assembler: Self)
        ensures
            assembler@ == self@.with_label(name@),
    {
        proof {
            use_type_invariant(&self);
        }
        if self.pending_error.is_some() {
            return self;
        }
        let Assembler { chunk, labels, patches, pending_error } = self;
        let mut labels = labels;
        if chunk.instructions.len() > u32::MAX as usize {
            let error = AssemblerError::TooManyInstructions { max: u32::MAX as usize + 1 };
            return Assembler { chunk, labels, patches, pending_error: Some(error) };
        }
        let target: u32 = chunk.instructions.len() as u32;
        let pending_error = if labels.insert(name, target) {
            Some(AssemblerError::DuplicateLabel { label: name.to_owned() })
        } else {
            None
        };
        Assembler { chunk, labels, patches, pending_error }
    }

    /// Resolves labels, verifies the chunk, and returns verified bytecode.
    pub fn finish(self) -> (result: Result<VerifiedChunk, AssemblerError>)
        ensures
            match result {
                Ok(verified) => {
                    &&& self@.finish_error() is None
                    &&& valid_chunk(self@.finished())
                    &&& verified@ == self@.finished()
                },
                Err(error) => if let Some(reason) = self@.finish_error() {
                    error@ == reason
                } else {
                    structural_error(self@.finished()) matches Some(reason) && error@
                        == AssemblerErrorView::Verification(reason)
                },
            },
    {
        let chunk = self.finish_unverified()?;
        match VerifiedChunk::new(chunk) {
            Ok(verified) => Ok(verified),
            Err(error) => Err(AssemblerError::Verification(error)),
        }
    }

    /// Resolves labels and returns the raw chunk without verification.
    pub fn finish_unverified(self) -> (result: Result<Chunk, AssemblerError>)
        ensures
            match result {
                Ok(chunk) => self@.finish_error() is None && chunk@ == self@.finished(),
                Err(error) => self@.finish_error() == Some(error@),
            },
    {
        let ghost a = self@;
        let Assembler { chunk, labels, patches, pending_error } = self;
        if let Some(error) = pending_error {
            return Err(error);
        }
        let mut chunk = chunk;
        let mut i: usize = 0;
        while i < patches.len()
            invariant
                i <= patches@.len(),
                a == self@,
                a.pending_error is None,
                a.labels == labels@,
                a.patches == patch_views(patches@),
                a.first_undefined(0) == a.first_undefined(i as nat),
                chunk@ == (ChunkView {
                    instructions: a.resolved_instructions(i as nat),
                    ..a.chunk
                }),
            decreases patches.len() - i,
        {
            let patch = &patches[i];
            assert(a.patches[i as int] == patch@);
            let target: u32 = match labels.get(patch.label.as_str()) {
                Some(target) => target,
                None => return Err(AssemblerError::UndefinedLabel { label: patch.label.clone() }),
            };
            let ghost before = chunk@.instructions;
            if patch.instruction_index < chunk.instructions.len() {
                let patched_jump = patch.kind.apply(
                    &chunk.instructions[patch.instruction_index],
                    JumpTarget(target),
                );
                assert(before[patch.instruction_index as int]
                    == chunk.instructions@[patch.instruction_index as int]@);
                if let Some(jump) = patched_jump {
                    chunk.instructions[patch.instruction_index] = jump;
                }
            }
            i = i + 1;
            assert(chunk@.instructions =~= a.resolved_instructions(i as nat));
        }
        Ok(chunk)
    }

    /// Adds a constant.
    fn constant(self, value: Value) -> (assembler: Self)
        ensures
            assembler@ == self@.with_constant(value),
    {
        proof {
            use_type_invariant(&self);
        }
        if self.pending_error.is_some() {
            return self;
        }
        let Assembler { chunk, labels, patches, pending_error } = self;
        let mut chunk = chunk;
        let pending_error = match chunk.add_constant(value) {
            Ok(_) => pending_error,
            Err(error) => Some(AssemblerError::ChunkBuild(error)),
        };
        Assembler { chunk, labels, patches, pending_error }
    }

    /// Adds an instruction.
    fn push(self, instruction: Instruction) -> (assembler: Self)
        ensures
            assembler@ == self@.pushed(instruction@),
    {
        proof {
            use_type_invariant(&self);
        }
        let Assembler { chunk, labels, patches, pending_error } = self;
        let mut chunk = chunk;
        chunk.push_instruction(instruction);
        Assembler { chunk, labels, patches, pending_error }
    }

    /// Adds a jump to a label.
    fn push_label_jump(self, kind: LabelPatchKind, label: &str, jump: Instruction) -> (assembler: Self)
        requires
            kind.fits(jump@),
        ensures
            assembler@ == self@.with_label_jump(kind, label@, jump@),
    {
        proof {
            use_type_invariant(&self);
        }
        if self.pending_error.is_some() {
            return self;
        }
        let Assembler { chunk, labels, patches, pending_error } = self;
        let mut chunk = chunk;
        let mut patches = patches;
        let ghost before = patch_views(patches@);
        let instruction_index: usize = chunk.instructions.len();
        chunk.push_instruction(jump);
        patches.push(LabelPatch { instruction_index, label: label.to_owned(), kind });
        assert(patch_views(patches@) =~= before.push(
            PatchView { instruction_index: instruction_index as nat, label: label@, kind },
        ));
        Assembler { chunk, labels, patches, pending_error }
    }
}

/// The message of an assembler error.
pub open spec fn assembler_error_text(error: AssemblerErrorView) -> Seq<char> {
    match error {
        AssemblerErrorView::ChunkBuild(ChunkBuildError::TooManyConstants { max }) =>
            "too many constants; maximum is "@ + decimal(max as nat),
        AssemblerErrorView::ChunkBuild(ChunkBuildError::TooManyStrings { max }) =>
            "too many strings; maximum is "@ + decimal(max as nat),
        AssemblerErrorView::Verification(error) => error_text(error),
        AssemblerErrorView::DuplicateLabel(label) => "duplicate label `"@ + label + "`"@,
        AssemblerErrorView::UndefinedLabel(label) => "undefined label `"@ + label + "`"@,
        AssemblerErrorView::TooManyInstructions(max) => "too many instructions; maximum is "@
            + decimal(max),
    }
}

impl AssemblerError {
    /// Renders the error.
    pub fn to_string(&self) -> (s: String)
        ensures
            s@ == assembler_error_text(self@),
    {
        match self {
            AssemblerError::ChunkBuild(ChunkBuildError::TooManyConstants { max }) => {
                let mut s = String::from_str("too many constants; maximum is ");
                push_decimal(&mut s, *max as u64);
                s
            },
            AssemblerError::ChunkBuild(ChunkBuildError::TooManyStrings { max }) => {
                let mut s = String::from_str("too many strings; maximum is ");
                push_decimal(&mut s, *max as u64);
                s
            },
            AssemblerError::Verification(error) => error.to_string(),
            AssemblerError::DuplicateLabel { label } => {
                let mut s = String::from_str("duplicate label `");
                s.append(label.as_str());
                s.append("`");
                s
            },
            AssemblerError::UndefinedLabel { label } => {
                let mut s = String::from_str("undefined label `");
                s.append(label.as_str());
                s.append("`");
                s
            },
            AssemblerError::TooManyInstructions { max } => {
                let mut s = String::from_str("too many instructions; maximum is ");
                push_decimal(&mut s, *max as u64);
                s
            },
        }
    }
}

} // verus!
