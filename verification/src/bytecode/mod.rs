//! Bytecode model, verification, optimization, disassembly and binary format.

pub mod bounds_laws;
pub mod chunk;
pub mod decoding;
pub mod disassembler;
pub mod effect_laws;
pub mod encoding;
pub mod execution;
pub mod execution_laws;
pub mod feature_laws;
pub mod features;
pub mod format;
pub mod format_laws;
pub mod framing_laws;
pub mod instruction;
pub mod layout;
pub mod listing_laws;
pub mod optimizer;
pub mod optimizer_laws;
pub mod program;
pub mod round_trip;
pub mod serialization;
pub mod text_laws;
pub mod verification;
pub mod wire;

pub use chunk::{Chunk, ChunkBuildError};
pub use disassembler::{format_instruction, Disassembler};
pub use features::{
    bytecode_features, infer_program_feature_flags, unsupported_feature_flags, BytecodeFeature,
    FEATURE_ARRAYS, FEATURE_CLOSURES, FEATURE_CUSTOM_EXTENSIONS, FEATURE_DEBUG_SYMBOLS,
    FEATURE_EXCEPTIONS, FEATURE_MAPS, FEATURE_MODULES, FEATURE_NATIVE_CALLS,
    FEATURE_OPTIMIZED_INT_OPS, FEATURE_RECORDS, SUPPORTED_BYTECODE_FEATURE_FLAGS,
};
pub use format::{
    BytecodeFormat, BytecodeLimits, BYTECODE_MAGIC, CURRENT_BYTECODE_VERSION, NO_FEATURE_FLAGS,
};
pub use instruction::{
    CaptureId, ConstId, FunctionId, Instruction, JumpTarget, Register, StringId,
};
pub use optimizer::{optimize_chunk, optimize_chunk_with_report};
pub use program::{Function, FunctionKind, Program, ProgramBuildError};
pub use serialization::{
    decode_bytecode, decode_container, decode_program, encode_container, encode_program,
    inspect_container, BytecodeContainer, BytecodeContainerMetadata, BytecodeSectionEntry,
    BytecodeSectionKind, BYTECODE_CONTAINER_MAGIC, CURRENT_CONTAINER_VERSION,
};
pub use verification::{
    ProgramVerifier, StructuralVerifier, VerificationError, VerificationErrorKind, VerifiedChunk,
    VerifiedProgram,
};
pub use wire::{BytecodeDecodeError, BytecodeEncodeError};
