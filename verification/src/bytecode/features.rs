//! Optional bytecode features and the flags that stand for them.

use vstd::prelude::*;

use crate::bytecode::chunk::{instruction_views, Chunk, ChunkView};
use crate::bytecode::instruction::{
    Instruction, InstructionView, OP_ADD_INT, OP_ARRAY_GET, OP_ARRAY_NEW, OP_ARRAY_SET,
    OP_CALL_EXTENSION, OP_CALL_VALUE, OP_DIV_INT, OP_FIELD_GET, OP_FIELD_SET, OP_GREATER_EQUAL_INT,
    OP_GREATER_INT, OP_LESS_EQUAL_INT, OP_LESS_INT, OP_LOAD_CAPTURE, OP_LOAD_CAPTURE_CELL,
    OP_LOAD_UPVALUE, OP_MAKE_CLOSURE, OP_MAKE_UPVALUE, OP_MAP_NEW, OP_MUL_INT, OP_POP_HANDLER,
    OP_PUSH_HANDLER, OP_RECORD_NEW, OP_STORE_CAPTURE, OP_STORE_UPVALUE, OP_SUB_INT, OP_THROW,
};
use crate::bytecode::program::{FunctionKind, FunctionKindView, FunctionView, Program, ProgramView};

verus! {

/// Array construction and access.
pub const FEATURE_ARRAYS: u32 = 0x1;

/// Map construction.
pub const FEATURE_MAPS: u32 = 0x2;

/// Record construction and field access.
pub const FEATURE_RECORDS: u32 = 0x4;

/// Closures, captured values and calls of values.
pub const FEATURE_CLOSURES: u32 = 0x8;

/// Exception handlers.
pub const FEATURE_EXCEPTIONS: u32 = 0x10;

/// Linked modules.
pub const FEATURE_MODULES: u32 = 0x20;

/// Native functions.
pub const FEATURE_NATIVE_CALLS: u32 = 0x40;

/// Source maps and register names.
pub const FEATURE_DEBUG_SYMBOLS: u32 = 0x80;

/// Integer-only arithmetic and comparisons.
pub const FEATURE_OPTIMIZED_INT_OPS: u32 = 0x100;

/// Calls of host extensions.
pub const FEATURE_CUSTOM_EXTENSIONS: u32 = 0x200;

/// Every feature flag that this library knows.
pub const SUPPORTED_BYTECODE_FEATURE_FLAGS: u32 = 0x3ff;

/// An optional bytecode feature.
#[derive(Clone, Copy, Debug, PartialEq, Eq, Structural)]
pub enum BytecodeFeature {
    Arrays,
    Maps,
    Records,
    Closures,
    Exceptions,
    Modules,
    NativeCalls,
    DebugSymbols,
    OptimizedIntOps,
    CustomExtensions,
}

impl BytecodeFeature {
    /// The flag of the feature.
    pub open spec fn spec_flag(self) -> u32 {
        match self {
            BytecodeFeature::Arrays => FEATURE_ARRAYS,
            BytecodeFeature::Maps => FEATURE_MAPS,
            BytecodeFeature::Records => FEATURE_RECORDS,
            BytecodeFeature::Closures => FEATURE_CLOSURES,
            BytecodeFeature::Exceptions => FEATURE_EXCEPTIONS,
            BytecodeFeature::Modules => FEATURE_MODULES,
            BytecodeFeature::NativeCalls => FEATURE_NATIVE_CALLS,
            BytecodeFeature::DebugSymbols => FEATURE_DEBUG_SYMBOLS,
            BytecodeFeature::OptimizedIntOps => FEATURE_OPTIMIZED_INT_OPS,
            BytecodeFeature::CustomExtensions => FEATURE_CUSTOM_EXTENSIONS,
        }
    }

    /// The name of the feature.
    pub open spec fn name(self) -> Seq<char> {
        match self {
            BytecodeFeature::Arrays => "arrays"@,
            BytecodeFeature::Maps => "maps"@,
            BytecodeFeature::Records => "records"@,
            BytecodeFeature::Closures => "closures"@,
            BytecodeFeature::Exceptions => "exceptions"@,
            BytecodeFeature::Modules => "modules"@,
            BytecodeFeature::NativeCalls => "native-calls"@,
            BytecodeFeature::DebugSymbols => "debug-symbols"@,
            BytecodeFeature::OptimizedIntOps => "optimized-int-ops"@,
            BytecodeFeature::CustomExtensions => "custom-extensions"@,
        }
    }

    /// Returns the flag of the feature.
    pub fn flag(self) -> (flag: u32)
        ensures
            flag == self.spec_flag(),
    {
        match self {
            BytecodeFeature::Arrays => FEATURE_ARRAYS,
            BytecodeFeature::Maps => FEATURE_MAPS,
            BytecodeFeature::Records => FEATURE_RECORDS,
            BytecodeFeature::Closures => FEATURE_CLOSURES,
            BytecodeFeature::Exceptions => FEATURE_EXCEPTIONS,
            BytecodeFeature::Modules => FEATURE_MODULES,
            BytecodeFeature::NativeCalls => FEATURE_NATIVE_CALLS,
            BytecodeFeature::DebugSymbols => FEATURE_DEBUG_SYMBOLS,
            BytecodeFeature::OptimizedIntOps => FEATURE_OPTIMIZED_INT_OPS,
            BytecodeFeature::CustomExtensions => FEATURE_CUSTOM_EXTENSIONS,
        }
    }

    /// Returns the name of the feature.
    pub fn as_str(self) -> (name: &'static str)
        ensures
            name@ == self.name(),
    {
        match self {
            BytecodeFeature::Arrays => "arrays",
            BytecodeFeature::Maps => "maps",
            BytecodeFeature::Records => "records",
            BytecodeFeature::Closures => "closures",
            BytecodeFeature::Exceptions => "exceptions",
            BytecodeFeature::Modules => "modules",
            BytecodeFeature::NativeCalls => "native-calls",
            BytecodeFeature::DebugSymbols => "debug-symbols",
            BytecodeFeature::OptimizedIntOps => "optimized-int-ops",
            BytecodeFeature::CustomExtensions => "custom-extensions",
        }
    }
}

/// All features, by ascending flag.
pub open spec fn all_features() -> Seq<BytecodeFeature> {
    seq![
        BytecodeFeature::Arrays,
        BytecodeFeature::Maps,
        BytecodeFeature::Records,
        BytecodeFeature::Closures,
        BytecodeFeature::Exceptions,
        BytecodeFeature::Modules,
        BytecodeFeature::NativeCalls,
        BytecodeFeature::DebugSymbols,
        BytecodeFeature::OptimizedIntOps,
        BytecodeFeature::CustomExtensions,
    ]
}

/// Those of the listed features whose flags are set.
pub open spec fn features_among(features: Seq<BytecodeFeature>, flags: u32) -> Seq<BytecodeFeature>
    decreases features.len(),
{
    if features.len() == 0 {
        Seq::empty()
    } else {
        let before = features_among(features.drop_last(), flags);
        if flags & features.last().spec_flag() != 0 {
            before.push(features.last())
        } else {
            before
        }
    }
}

/// Lists the features whose flags are set, by ascending flag.
pub fn bytecode_features(flags: u32) -> (features: Vec<BytecodeFeature>)
    ensures
        features@ == features_among(all_features(), flags),
{
    let all = vec![
        BytecodeFeature::Arrays,
        BytecodeFeature::Maps,
        BytecodeFeature::Records,
        BytecodeFeature::Closures,
        BytecodeFeature::Exceptions,
        BytecodeFeature::Modules,
        BytecodeFeature::NativeCalls,
        BytecodeFeature::DebugSymbols,
        BytecodeFeature::OptimizedIntOps,
        BytecodeFeature::CustomExtensions,
    ];
    assert(all@ =~= all_features());
    let mut features: Vec<BytecodeFeature> = Vec::new();
    let mut i: usize = 0;
    assert(all@.take(0) =~= Seq::empty());
    while i < all.len()
        invariant
            i <= all@.len(),
            features@ == features_among(all@.take(i as int), flags),
        decreases all.len() - i,
    {
        assert(all@.take(i + 1).drop_last() =~= all@.take(i as int));
        if flags & all[i].flag() != 0 {
            features.push(all[i]);
        }
        i = i + 1;
    }
    assert(all@.take(i as int) =~= all@);
    features
}

/// The flags that this library does not know.
pub fn unsupported_feature_flags(flags: u32) -> (unsupported: u32)
    ensures
        unsupported == flags & !SUPPORTED_BYTECODE_FEATURE_FLAGS,
{
    flags & !SUPPORTED_BYTECODE_FEATURE_FLAGS
}

// ---------------------------------------------------------------------------
// Features that a program uses
// ---------------------------------------------------------------------------

/// The flag of the feature that an opcode belongs to, or no flag.
pub open spec fn opcode_feature(opcode: u8) -> u32 {
    if opcode == OP_ARRAY_NEW || opcode == OP_ARRAY_GET || opcode == OP_ARRAY_SET {
        FEATURE_ARRAYS
    } else if opcode == OP_MAP_NEW {
        FEATURE_MAPS
    } else if opcode == OP_RECORD_NEW || opcode == OP_FIELD_GET || opcode == OP_FIELD_SET {
        FEATURE_RECORDS
    } else if opcode == OP_MAKE_CLOSURE || opcode == OP_CALL_VALUE || opcode == OP_MAKE_UPVALUE
        || opcode == OP_LOAD_UPVALUE || opcode == OP_STORE_UPVALUE || opcode == OP_LOAD_CAPTURE
        || opcode == OP_LOAD_CAPTURE_CELL || opcode == OP_STORE_CAPTURE {
        FEATURE_CLOSURES
    } else if opcode == OP_PUSH_HANDLER || opcode == OP_POP_HANDLER || opcode == OP_THROW {
        FEATURE_EXCEPTIONS
    } else if opcode == OP_ADD_INT || opcode == OP_SUB_INT || opcode == OP_MUL_INT || opcode
        == OP_DIV_INT || opcode == OP_LESS_INT || opcode == OP_LESS_EQUAL_INT || opcode
        == OP_GREATER_INT || opcode == OP_GREATER_EQUAL_INT {
        FEATURE_OPTIMIZED_INT_OPS
    } else if opcode == OP_CALL_EXTENSION {
        FEATURE_CUSTOM_EXTENSIONS
    } else {
        0
    }
}

/// The flags of the features that some instructions use.
pub open spec fn instruction_flags(instructions: Seq<InstructionView>) -> u32
    decreases instructions.len(),
{
    if instructions.len() == 0 {
        0
    } else {
        instruction_flags(instructions.drop_last()) | opcode_feature(instructions.last().opcode)
    }
}

/// Whether a chunk holds a source span or a register name.
pub open spec fn has_debug_metadata(c: ChunkView) -> bool {
    ||| exists|i: int| 0 <= i < c.source_map.len() && #[trigger] c.source_map[i] is Some
    ||| exists|i: int|
        0 <= i < c.debug_local_names.len() && #[trigger] c.debug_local_names[i] is Some
}

/// The flags of the features that a function uses.
pub open spec fn function_flags(f: FunctionView) -> u32 {
    match f.kind {
        FunctionKindView::Bytecode(c) => if has_debug_metadata(c) {
            instruction_flags(c.instructions) | FEATURE_DEBUG_SYMBOLS
        } else {
            instruction_flags(c.instructions)
        },
        FunctionKindView::Native(_) => FEATURE_NATIVE_CALLS,
    }
}

/// The flags of the features that some functions use.
pub open spec fn functions_flags(functions: Seq<FunctionView>) -> u32
    decreases functions.len(),
{
    if functions.len() == 0 {
        0
    } else {
        functions_flags(functions.drop_last()) | function_flags(functions.last())
    }
}

/// The flag of the feature that an opcode belongs to.
fn feature_of_opcode(opcode: u8) -> (flag: u32)
    ensures
        flag == opcode_feature(opcode),
{
    if opcode == OP_ARRAY_NEW || opcode == OP_ARRAY_GET || opcode == OP_ARRAY_SET {
        FEATURE_ARRAYS
    } else if opcode == OP_MAP_NEW {
        FEATURE_MAPS
    } else if opcode == OP_RECORD_NEW || opcode == OP_FIELD_GET || opcode == OP_FIELD_SET {
        FEATURE_RECORDS
    } else if opcode == OP_MAKE_CLOSURE || opcode == OP_CALL_VALUE || opcode == OP_MAKE_UPVALUE
        || opcode == OP_LOAD_UPVALUE || opcode == OP_STORE_UPVALUE || opcode == OP_LOAD_CAPTURE
        || opcode == OP_LOAD_CAPTURE_CELL || opcode == OP_STORE_CAPTURE {
        FEATURE_CLOSURES
    } else if opcode == OP_PUSH_HANDLER || opcode == OP_POP_HANDLER || opcode == OP_THROW {
        FEATURE_EXCEPTIONS
    } else if opcode == OP_ADD_INT || opcode == OP_SUB_INT || opcode == OP_MUL_INT || opcode
        == OP_DIV_INT || opcode == OP_LESS_INT || opcode == OP_LESS_EQUAL_INT || opcode
        == OP_GREATER_INT || opcode == OP_GREATER_EQUAL_INT {
        FEATURE_OPTIMIZED_INT_OPS
    } else if opcode == OP_CALL_EXTENSION {
        FEATURE_CUSTOM_EXTENSIONS
    } else {
        0
    }
}

/// Whether a chunk holds a source span or a register name.
fn chunk_has_debug_metadata(chunk: &Chunk) -> (found: bool)
    ensures
        found == has_debug_metadata(chunk@),
{
    let mut i: usize = 0;
    while i < chunk.source_map.len()
        invariant
            i <= chunk.source_map@.len(),
            forall|k: int| 0 <= k < i ==> #[trigger] chunk@.source_map[k] is None,
        decreases chunk.source_map.len() - i,
    {
        if chunk.source_map[i].is_some() {
            assert(chunk@.source_map[i as int] is Some);
            return true;
        }
        i = i + 1;
    }
    let mut j: usize = 0;
    while j < chunk.debug_local_names.len()
        invariant
            j <= chunk.debug_local_names@.len(),
            forall|k: int| 0 <= k < j ==> #[trigger] chunk@.debug_local_names[k] is None,
        decreases chunk.debug_local_names.len() - j,
    {
        if chunk.debug_local_names[j].is_some() {
            assert(chunk@.debug_local_names[j as int] is Some);
            return true;
        }
        j = j + 1;
    }
    false
}

/// Whether a function of the program holds a source span or a register name.
pub open spec fn program_debuggable(p: ProgramView) -> bool {
    exists|i: int|
        0 <= i < p.functions.len() && #[trigger] p.functions[i].kind is Bytecode
            && has_debug_metadata(p.functions[i].kind->Bytecode_0)
}

/// Whether a function of the program holds a source span or a register name.
pub fn program_has_debug_metadata(program: &Program) -> (found: bool)
    ensures
        found == program_debuggable(program@),
{
    let mut i: usize = 0;
    while i < program.functions.len()
        invariant
            i <= program.functions@.len(),
            program.functions@.len() == program@.functions.len(),
            forall|k: int|
                0 <= k < i && #[trigger] program@.functions[k].kind is Bytecode
                    ==> !has_debug_metadata(program@.functions[k].kind->Bytecode_0),
        decreases program.functions.len() - i,
    {
        assert(program@.functions[i as int] == program.functions@[i as int]@);
        if let FunctionKind::Bytecode(chunk) = &program.functions[i].kind {
            if chunk_has_debug_metadata(chunk) {
                return true;
            }
        }
        i = i + 1;
    }
    false
}

/// The flags of the features that a chunk's instructions use.
fn flags_of_instructions(instructions: &Vec<Instruction>) -> (flags: u32)
    ensures
        flags == instruction_flags(instruction_views(instructions@)),
{
    let ghost views = instruction_views(instructions@);
    let mut flags: u32 = 0;
    let mut i: usize = 0;
    while i < instructions.len()
        invariant
            i <= instructions@.len(),
            views == instruction_views(instructions@),
            flags == instruction_flags(views.take(i as int)),
        decreases instructions.len() - i,
    {
        assert(views.take(i + 1).drop_last() =~= views.take(i as int));
        flags = flags | feature_of_opcode(instructions[i].opcode_byte());
        i = i + 1;
    }
    assert(views.take(i as int) =~= views);
    flags
}

/// The flags of the features that a program uses.
pub fn infer_program_feature_flags(program: &Program) -> (flags: u32)
    ensures
        flags == functions_flags(program@.functions),
{
    let ghost views = program@.functions;
    let mut flags: u32 = 0;
    let mut i: usize = 0;
    while i < program.functions.len()
        invariant
            i <= program.functions@.len(),
            views == program@.functions,
            flags == functions_flags(views.take(i as int)),
        decreases program.functions.len() - i,
    {
        assert(views.take(i + 1).drop_last() =~= views.take(i as int));
        assert(views.take(i + 1).last() == program.functions@[i as int]@);
        match &program.functions[i].kind {
            FunctionKind::Bytecode(chunk) => {
                let mut used: u32 = flags_of_instructions(&chunk.instructions);
                if chunk_has_debug_metadata(chunk) {
                    used = used | FEATURE_DEBUG_SYMBOLS;
                }
                flags = flags | used;
            },
            FunctionKind::Native { .. } => {
                flags = flags | FEATURE_NATIVE_CALLS;
            },
        }
        i = i + 1;
    }
    assert(views.take(i as int) =~= views);
    flags
}

proof fn lemma_or_supported(a: u32, b: u32)
    requires
        a & !SUPPORTED_BYTECODE_FEATURE_FLAGS == 0,
        b & !SUPPORTED_BYTECODE_FEATURE_FLAGS == 0,
    ensures
        (a | b) & !SUPPORTED_BYTECODE_FEATURE_FLAGS == 0,
{
    assert((a & !0x3ffu32) == 0 && (b & !0x3ffu32) == 0 ==> ((a | b) & !0x3ffu32) == 0)
        by (bit_vector);
}

proof fn lemma_known_flags(flag: u32)
    requires
        flag == 0 || flag == FEATURE_ARRAYS || flag == FEATURE_MAPS || flag == FEATURE_RECORDS
            || flag == FEATURE_CLOSURES || flag == FEATURE_EXCEPTIONS || flag
            == FEATURE_NATIVE_CALLS || flag == FEATURE_DEBUG_SYMBOLS || flag
            == FEATURE_OPTIMIZED_INT_OPS || flag == FEATURE_CUSTOM_EXTENSIONS,
    ensures
        flag & !SUPPORTED_BYTECODE_FEATURE_FLAGS == 0,
{
    assert(flag <= 0x3ff ==> (flag & !0x3ffu32) == 0) by (bit_vector);
}

proof fn lemma_instruction_flags_supported(instructions: Seq<InstructionView>)
    ensures
        instruction_flags(instructions) & !SUPPORTED_BYTECODE_FEATURE_FLAGS == 0,
    decreases instructions.len(),
{
    if instructions.len() == 0 {
        lemma_known_flags(0);
    } else {
        lemma_instruction_flags_supported(instructions.drop_last());
        lemma_known_flags(opcode_feature(instructions.last().opcode));
        lemma_or_supported(
            instruction_flags(instructions.drop_last()),
            opcode_feature(instructions.last().opcode),
        );
    }
}

/// The features inferred for a program are all supported.
pub proof fn inferred_features_are_supported(functions: Seq<FunctionView>)
    ensures
        functions_flags(functions) & !SUPPORTED_BYTECODE_FEATURE_FLAGS == 0,
    decreases functions.len(),
{
    if functions.len() == 0 {
        lemma_known_flags(0);
    } else {
        inferred_features_are_supported(functions.drop_last());
        let last = functions.last();
        lemma_known_flags(FEATURE_NATIVE_CALLS);
        lemma_known_flags(FEATURE_DEBUG_SYMBOLS);
        if let FunctionKindView::Bytecode(c) = last.kind {
            lemma_instruction_flags_supported(c.instructions);
            lemma_or_supported(instruction_flags(c.instructions), FEATURE_DEBUG_SYMBOLS);
        }
        lemma_or_supported(functions_flags(functions.drop_last()), function_flags(last));
    }
}

} // verus!
