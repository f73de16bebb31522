//! What the feature flags of a program say of it.

use vstd::prelude::*;

use crate::bytecode::chunk::{instruction_views, Chunk};
use crate::bytecode::features::{
    all_features, features_among, function_flags, functions_flags, has_debug_metadata,
    instruction_flags, opcode_feature, program_debuggable, BytecodeFeature,
};
use crate::bytecode::instruction::Instruction;
use crate::bytecode::program::{Function, FunctionKind, Program};
use crate::bytecode::serialization::{recorded_metadata, MetadataView};

verus! {

/// The flag of a feature.
pub open spec fn flag_of(feature: BytecodeFeature) -> u32 {
    match feature {
        BytecodeFeature::Arrays => 1,
        BytecodeFeature::Maps => 2,
        BytecodeFeature::Records => 4,
        BytecodeFeature::Closures => 8,
        BytecodeFeature::Exceptions => 16,
        BytecodeFeature::Modules => 32,
        BytecodeFeature::NativeCalls => 64,
        BytecodeFeature::DebugSymbols => 128,
        BytecodeFeature::OptimizedIntOps => 256,
        BytecodeFeature::CustomExtensions => 512,
    }
}

/// Whether an instruction belongs to a feature.
pub open spec fn belongs(instruction: Instruction, feature: BytecodeFeature) -> bool {
    match feature {
        BytecodeFeature::Arrays => instruction is ArrayNew || instruction is ArrayGet
            || instruction is ArraySet,
        BytecodeFeature::Maps => instruction is MapNew,
        BytecodeFeature::Records => instruction is RecordNew || instruction is FieldGet
            || instruction is FieldSet,
        BytecodeFeature::Closures => instruction is MakeClosure || instruction is CallValue
            || instruction is MakeUpvalue || instruction is LoadUpvalue
            || instruction is StoreUpvalue || instruction is LoadCapture
            || instruction is LoadCaptureCell || instruction is StoreCapture,
        BytecodeFeature::Exceptions => instruction is PushHandler || instruction is PopHandler
            || instruction is Throw,
        BytecodeFeature::OptimizedIntOps => instruction is AddInt || instruction is SubInt
            || instruction is MulInt || instruction is DivInt || instruction is LessInt
            || instruction is LessEqualInt || instruction is GreaterInt
            || instruction is GreaterEqualInt,
        BytecodeFeature::CustomExtensions => instruction is CallExtension,
        BytecodeFeature::Modules | BytecodeFeature::NativeCalls | BytecodeFeature::DebugSymbols =>
            false,
    }
}

/// Whether a chunk says where its instructions come from or what its registers are called.
pub open spec fn has_symbols(chunk: Chunk) -> bool {
    ||| exists|i: int| 0 <= i < chunk.source_map@.len() && #[trigger] chunk.source_map@[i] is Some
    ||| exists|i: int|
        0 <= i < chunk.debug_local_names@.len() && #[trigger] chunk.debug_local_names@[i] is Some
}

/// Whether a function uses a feature.
pub open spec fn uses(function: Function, feature: BytecodeFeature) -> bool {
    match function.kind {
        FunctionKind::Bytecode(chunk) => {
            ||| exists|i: int|
                0 <= i < chunk.instructions@.len() && belongs(
                    #[trigger] chunk.instructions@[i],
                    feature,
                )
            ||| feature is DebugSymbols && has_symbols(chunk)
        },
        FunctionKind::Native { .. } => feature is NativeCalls,
    }
}

/// Whether a feature's flag is set.
pub open spec fn set_in(feature: BytecodeFeature, flags: u32) -> bool {
    flags & flag_of(feature) != 0
}

proof fn lemma_or(a: u32, b: u32, feature: BytecodeFeature)
    ensures
        set_in(feature, a | b) <==> set_in(feature, a) || set_in(feature, b),
{
    let flag = flag_of(feature);
    assert((a | b) & flag != 0 <==> (a & flag != 0 || b & flag != 0)) by (bit_vector);
}

proof fn lemma_flags(feature: BytecodeFeature)
    ensures
        !set_in(feature, 0),
        forall|other: BytecodeFeature| #[trigger]
            set_in(feature, flag_of(other)) <==> other == feature,
{
    let flag = flag_of(feature);
    assert(0 & flag == 0) by (bit_vector);
    assert forall|other: BytecodeFeature| #[trigger]
        set_in(feature, flag_of(other)) <==> other == feature by {
        let a = flag_of(other);
        assert((a == 1 || a == 2 || a == 4 || a == 8 || a == 16 || a == 32 || a == 64 || a == 128
            || a == 256 || a == 512) && (flag == 1 || flag == 2 || flag == 4 || flag == 8 || flag
            == 16 || flag == 32 || flag == 64 || flag == 128 || flag == 256 || flag == 512) ==> (a
            & flag != 0 <==> a == flag)) by (bit_vector);
    }
}

proof fn lemma_instruction(instruction: Instruction, feature: BytecodeFeature)
    ensures
        set_in(feature, opcode_feature(instruction@.opcode)) <==> belongs(instruction, feature),
{
    let flag = opcode_feature(instruction@.opcode);
    lemma_flags(feature);
    if flag != 0 {
        let own = if flag == 1 {
            BytecodeFeature::Arrays
        } else if flag == 2 {
            BytecodeFeature::Maps
        } else if flag == 4 {
            BytecodeFeature::Records
        } else if flag == 8 {
            BytecodeFeature::Closures
        } else if flag == 16 {
            BytecodeFeature::Exceptions
        } else if flag == 256 {
            BytecodeFeature::OptimizedIntOps
        } else {
            BytecodeFeature::CustomExtensions
        };
        assert(flag == flag_of(own));
        assert(set_in(feature, flag_of(own)) <==> own == feature);
    }
}

proof fn lemma_instructions(instructions: Seq<Instruction>, feature: BytecodeFeature)
    ensures
        set_in(feature, instruction_flags(instruction_views(instructions))) <==> exists|i: int|
            0 <= i < instructions.len() && belongs(#[trigger] instructions[i], feature),
    decreases instructions.len(),
{
    let views = instruction_views(instructions);
    if instructions.len() == 0 {
        lemma_flags(feature);
    } else {
        let front = instructions.drop_last();
        lemma_instructions(front, feature);
        lemma_instruction(instructions.last(), feature);
        assert(views.drop_last() =~= instruction_views(front));
        lemma_or(
            instruction_flags(views.drop_last()),
            opcode_feature(views.last().opcode),
            feature,
        );
        if exists|i: int| 0 <= i < front.len() && belongs(#[trigger] front[i], feature) {
            let i = choose|i: int| 0 <= i < front.len() && belongs(#[trigger] front[i], feature);
            assert(belongs(instructions[i], feature));
        }
        if exists|i: int|
            0 <= i < instructions.len() && belongs(#[trigger] instructions[i], feature) {
            let i = choose|i: int|
                0 <= i < instructions.len() && belongs(#[trigger] instructions[i], feature);
            if i < front.len() {
                assert(belongs(front[i], feature));
            }
        }
    }
}

proof fn lemma_symbols(chunk: Chunk)
    ensures
        has_debug_metadata(chunk@) == has_symbols(chunk),
{
    if has_symbols(chunk) {
        if exists|i: int|
            0 <= i < chunk.source_map@.len() && #[trigger] chunk.source_map@[i] is Some {
            let i = choose|i: int|
                0 <= i < chunk.source_map@.len() && #[trigger] chunk.source_map@[i] is Some;
            assert(chunk@.source_map[i] is Some);
        } else {
            let i = choose|i: int|
                0 <= i < chunk.debug_local_names@.len()
                    && #[trigger] chunk.debug_local_names@[i] is Some;
            assert(chunk@.debug_local_names[i] is Some);
        }
    }
    if has_debug_metadata(chunk@) {
        if exists|i: int|
            0 <= i < chunk@.source_map.len() && #[trigger] chunk@.source_map[i] is Some {
            let i = choose|i: int|
                0 <= i < chunk@.source_map.len() && #[trigger] chunk@.source_map[i] is Some;
            assert(chunk.source_map@[i] is Some);
        } else {
            let i = choose|i: int|
                0 <= i < chunk@.debug_local_names.len()
                    && #[trigger] chunk@.debug_local_names[i] is Some;
            assert(chunk.debug_local_names@[i] is Some);
        }
    }
}

proof fn lemma_function(function: Function, feature: BytecodeFeature)
    ensures
        set_in(feature, function_flags(function@)) <==> uses(function, feature),
{
    lemma_flags(feature);
    match function.kind {
        FunctionKind::Bytecode(chunk) => {
            let used = instruction_flags(chunk@.instructions);
            lemma_instructions(chunk.instructions@, feature);
            lemma_symbols(chunk);
            lemma_or(used, flag_of(BytecodeFeature::DebugSymbols), feature);
            assert(set_in(feature, flag_of(BytecodeFeature::DebugSymbols)) <==> feature
                == BytecodeFeature::DebugSymbols);
            assert(function@.kind->Bytecode_0 == chunk@);
        },
        FunctionKind::Native { .. } => {
            assert(set_in(feature, flag_of(BytecodeFeature::NativeCalls)) <==> feature
                == BytecodeFeature::NativeCalls);
        },
    }
}

proof fn lemma_functions(functions: Seq<Function>, feature: BytecodeFeature)
    ensures
        set_in(
            feature,
            functions_flags(functions.map_values(|f: Function| f@)),
        ) <==> exists|i: int| 0 <= i < functions.len() && uses(#[trigger] functions[i], feature),
    decreases functions.len(),
{
    let views = functions.map_values(|f: Function| f@);
    if functions.len() == 0 {
        lemma_flags(feature);
    } else {
        let front = functions.drop_last();
        lemma_functions(front, feature);
        lemma_function(functions.last(), feature);
        assert(views.drop_last() =~= front.map_values(|f: Function| f@));
        lemma_or(functions_flags(views.drop_last()), function_flags(views.last()), feature);
        if exists|i: int| 0 <= i < front.len() && uses(#[trigger] front[i], feature) {
            let i = choose|i: int| 0 <= i < front.len() && uses(#[trigger] front[i], feature);
            assert(uses(functions[i], feature));
        }
        if exists|i: int| 0 <= i < functions.len() && uses(#[trigger] functions[i], feature) {
            let i = choose|i: int|
                0 <= i < functions.len() && uses(#[trigger] functions[i], feature);
            if i < front.len() {
                assert(uses(front[i], feature));
            }
        }
    }
}

/// The flag of a feature is set in the flags of a program just where a function of the program
/// uses the feature, and a program is debuggable just where one of its functions has symbols.
pub proof fn flags_are_the_features_in_use(program: Program, feature: BytecodeFeature)
    ensures
        functions_flags(program@.functions) & feature.spec_flag() != 0 <==> exists|i: int|
            0 <= i < program.functions@.len() && uses(#[trigger] program.functions@[i], feature),
        program_debuggable(program@) <==> exists|i: int|
            0 <= i < program.functions@.len() && (#[trigger] program.functions@[i].kind matches
                FunctionKind::Bytecode(chunk) && has_symbols(chunk)),
{
    lemma_functions(program.functions@, feature);
    assert(program@.functions =~= program.functions@.map_values(|f: Function| f@));
    assert forall|i: int| 0 <= i < program.functions@.len() implies (
    #[trigger] program@.functions[i].kind is Bytecode && has_debug_metadata(
        program@.functions[i].kind->Bytecode_0,
    ) <==> (program.functions@[i].kind matches FunctionKind::Bytecode(chunk) && has_symbols(
        chunk,
    ))) by {
        assert(program@.functions[i] == program.functions@[i]@);
        if let FunctionKind::Bytecode(chunk) = program.functions@[i].kind {
            lemma_symbols(chunk);
        }
    }
    if program_debuggable(program@) {
        let i = choose|i: int|
            0 <= i < program@.functions.len() && #[trigger] program@.functions[i].kind is Bytecode
                && has_debug_metadata(program@.functions[i].kind->Bytecode_0);
        assert(program.functions@[i].kind is Bytecode);
    }
    if exists|i: int|
        0 <= i < program.functions@.len() && (#[trigger] program.functions@[i].kind matches
            FunctionKind::Bytecode(chunk) && has_symbols(chunk)) {
        let i = choose|i: int|
            0 <= i < program.functions@.len() && (#[trigger] program.functions@[i].kind matches
                FunctionKind::Bytecode(chunk) && has_symbols(chunk));
        assert(program@.functions[i].kind is Bytecode);
    }
}

proof fn lemma_among(features: Seq<BytecodeFeature>, flags: u32)
    requires
        forall|i: int, j: int|
            0 <= i < j < features.len() ==> flag_of(#[trigger] features[i]) < flag_of(
                #[trigger] features[j],
            ),
    ensures
        forall|feature: BytecodeFeature|
            #![trigger features_among(features, flags).contains(feature)]
            features_among(features, flags).contains(feature) <==> features.contains(feature)
                && set_in(feature, flags),
        forall|i: int, j: int|
            0 <= i < j < features_among(features, flags).len() ==> flag_of(
                #[trigger] features_among(features, flags)[i],
            ) < flag_of(#[trigger] features_among(features, flags)[j]),
    decreases features.len(),
{
    let among = features_among(features, flags);
    if features.len() > 0 {
        let front = features.drop_last();
        let last = features.last();
        let before = features_among(front, flags);
        lemma_among(front, flags);
        assert forall|feature: BytecodeFeature|
            #![trigger among.contains(feature)]
            among.contains(feature) <==> features.contains(feature) && set_in(feature, flags) by {
            assert(before.contains(feature) <==> front.contains(feature) && set_in(feature, flags));
            if front.contains(feature) {
                let i = choose|i: int| 0 <= i < front.len() && front[i] == feature;
                assert(features[i] == feature);
            }
            if features.contains(feature) && feature != last {
                let i = choose|i: int| 0 <= i < features.len() && features[i] == feature;
                assert(front[i] == feature);
            }
            if before.contains(feature) {
                let i = choose|i: int| 0 <= i < before.len() && before[i] == feature;
                assert(among[i] == feature);
            }
            if among.contains(feature) {
                let i = choose|i: int| 0 <= i < among.len() && among[i] == feature;
                if i < before.len() {
                    assert(before[i] == feature);
                }
            }
            if feature == last {
                assert(features[features.len() - 1] == feature);
                if set_in(last, flags) {
                    assert(among[among.len() - 1] == feature);
                }
            }
        }
        assert forall|i: int, j: int| 0 <= i < j < among.len() implies flag_of(
            #[trigger] among[i],
        ) < flag_of(#[trigger] among[j]) by {
            assert(among[i] == before[i]);
            if j < before.len() {
                assert(among[j] == before[j]);
            } else {
                assert(before.contains(before[i]));
                let k = choose|k: int| 0 <= k < front.len() && front[k] == before[i];
                assert(features[k] == before[i]);
                assert(features[features.len() - 1] == last);
            }
        }
    }
}

/// The features listed for some flags are those whose flags are set, by ascending flag.
pub proof fn listed_features_are_set(flags: u32, feature: BytecodeFeature)
    ensures
        features_among(all_features(), flags).contains(feature) <==> flags & feature.spec_flag()
            != 0,
        forall|i: int, j: int|
            0 <= i < j < features_among(all_features(), flags).len() ==> flag_of(
                #[trigger] features_among(all_features(), flags)[i],
            ) < flag_of(#[trigger] features_among(all_features(), flags)[j]),
        feature.spec_flag() == flag_of(feature),
{
    let all = all_features();
    lemma_among(all, flags);
    assert(all.contains(feature)) by {
        let i: int = match feature {
            BytecodeFeature::Arrays => 0,
            BytecodeFeature::Maps => 1,
            BytecodeFeature::Records => 2,
            BytecodeFeature::Closures => 3,
            BytecodeFeature::Exceptions => 4,
            BytecodeFeature::Modules => 5,
            BytecodeFeature::NativeCalls => 6,
            BytecodeFeature::DebugSymbols => 7,
            BytecodeFeature::OptimizedIntOps => 8,
            BytecodeFeature::CustomExtensions => 9,
        };
        assert(all[i] == feature);
    }
}

/// Whether a function of a program uses a feature.
pub open spec fn program_uses(program: Program, feature: BytecodeFeature) -> bool {
    exists|i: int|
        0 <= i < program.functions@.len() && uses(#[trigger] program.functions@[i], feature)
}

/// The metadata of a container says of its program what the program is: its version, its entry, the
/// features that it uses, and whether it has symbols. Features and symbols that are given stay. The
/// rest is what is given, or nothing.
pub proof fn containers_describe_their_program(
    program: Program,
    given: Option<MetadataView>,
    feature: BytecodeFeature,
)
    ensures
        ({
            let m = recorded_metadata(program@, given);
            &&& m.bytecode_format_version == program@.version
            &&& m.entry == program@.entry
            &&& set_in(feature, m.feature_flags) <==> program_uses(program, feature) || (
            given matches Some(g) && set_in(feature, g.feature_flags))
            &&& m.debug_section_present <==> program_uses(program, BytecodeFeature::DebugSymbols)
                || (given matches Some(g) && g.debug_section_present)
            &&& m.required_capabilities == (match given {
                Some(g) => g.required_capabilities,
                None => Seq::empty(),
            })
            &&& m.module_name == (match given {
                Some(g) => g.module_name,
                None => None,
            })
            &&& m.optimization_level == (match given {
                Some(g) => g.optimization_level,
                None => 0,
            })
        }),
{
    let own = functions_flags(program@.functions);
    flags_are_the_features_in_use(program, feature);
    flags_are_the_features_in_use(program, BytecodeFeature::DebugSymbols);
    match given {
        Some(g) => {
            lemma_or(g.feature_flags, own, feature);
        },
        None => {
            lemma_or(own, own, feature);
        },
    }
    assert(program_debuggable(program@) <==> program_uses(program, BytecodeFeature::DebugSymbols)) by {
        if program_uses(program, BytecodeFeature::DebugSymbols) {
            let i = choose|i: int|
                0 <= i < program.functions@.len() && uses(
                    #[trigger] program.functions@[i],
                    BytecodeFeature::DebugSymbols,
                );
            assert(program.functions@[i].kind matches FunctionKind::Bytecode(chunk) && has_symbols(
                chunk,
            ));
        }
        if program_debuggable(program@) {
            let i = choose|i: int|
                0 <= i < program.functions@.len() && (#[trigger] program.functions@[i].kind matches
                    FunctionKind::Bytecode(chunk) && has_symbols(chunk));
            assert(uses(program.functions@[i], BytecodeFeature::DebugSymbols));
        }
    }
}

/// Features have different names.
pub proof fn features_are_told_apart(a: BytecodeFeature, b: BytecodeFeature)
    ensures
        a.name() == b.name() ==> a == b,
        flag_of(a) == flag_of(b) ==> a == b,
{
    reveal_strlit("arrays");
    reveal_strlit("maps");
    reveal_strlit("records");
    reveal_strlit("closures");
    reveal_strlit("exceptions");
    reveal_strlit("modules");
    reveal_strlit("native-calls");
    reveal_strlit("debug-symbols");
    reveal_strlit("optimized-int-ops");
    reveal_strlit("custom-extensions");
    assert("records"@[0] != "modules"@[0]);
    assert("optimized-int-ops"@[0] != "custom-extensions"@[0]);
    assert("arrays"@.len() == 6 && "maps"@.len() == 4 && "records"@.len() == 7);
    assert("closures"@.len() == 8 && "exceptions"@.len() == 10 && "modules"@.len() == 7);
    assert("native-calls"@.len() == 12 && "debug-symbols"@.len() == 13);
    assert("optimized-int-ops"@.len() == 17 && "custom-extensions"@.len() == 17);
}

} // verus!
