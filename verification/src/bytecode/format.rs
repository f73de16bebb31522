//! Bytecode format constants, version metadata, feature flags and size limits.

use vstd::prelude::*;

verus! {

/// Version marker stored on bytecode programs.
#[derive(Clone, Copy, Debug, PartialEq, Eq)]
pub struct BytecodeFormat {
    /// Magic string identifying Ferrix bytecode.
    pub magic: &'static str,
    /// Bytecode instruction/schema version.
    pub version: u16,
    /// Feature flags for optional format extensions.
    pub feature_flags: u32,
}

/// Maximum supported sizes for bytecode structures.
#[derive(Clone, Copy, Debug, PartialEq, Eq, Structural)]
pub struct BytecodeLimits {
    /// Maximum constants per chunk.
    pub max_constants: usize,
    /// Maximum strings per chunk.
    pub max_strings: usize,
    /// Maximum functions per program.
    pub max_functions: usize,
    /// Maximum instruction count per bytecode function.
    pub max_instructions_per_function: usize,
    /// Maximum registers per function.
    pub max_registers_per_function: usize,
}

/// Magic text at the start of a serialized program.
pub const BYTECODE_MAGIC: &'static str = "FERRIXBC";

/// The bytecode version this library reads and writes.
pub const CURRENT_BYTECODE_VERSION: u16 = 1;

/// No optional features.
pub const NO_FEATURE_FLAGS: u32 = 0;

impl BytecodeFormat {
    /// Whether this is the format that the library writes.
    pub open spec fn is_current(self) -> bool {
        self.magic@ == BYTECODE_MAGIC@ && self.version == CURRENT_BYTECODE_VERSION
            && self.feature_flags == NO_FEATURE_FLAGS
    }

    /// The format that the library writes.
    pub fn current() -> (format: Self)
        ensures
            format.is_current(),
    {
        BytecodeFormat {
            magic: BYTECODE_MAGIC,
            version: CURRENT_BYTECODE_VERSION,
            feature_flags: NO_FEATURE_FLAGS,
        }
    }
}

impl Default for BytecodeFormat {
    fn default() -> (format: Self)
        ensures
            format.is_current(),
    {
        Self::current()
    }
}

/// The number of instructions that a 32-bit target can address, or the largest `usize`
/// where that is smaller.
pub open spec fn max_instruction_count() -> nat {
    if usize::MAX > u32::MAX {
        0x1_0000_0000
    } else {
        usize::MAX as nat
    }
}

impl BytecodeLimits {
    /// The limits that the operand widths impose, as far as a `usize` can hold them.
    pub open spec fn is_current(self) -> bool {
        &&& self.max_constants == 0x1_0000
        &&& self.max_strings == 0x1_0000
        &&& self.max_functions == 0x1_0000
        &&& self.max_instructions_per_function == max_instruction_count()
        &&& self.max_registers_per_function == 0x100
    }

    /// The limits that the operand widths impose.
    pub fn current() -> (limits: Self)
        ensures
            limits.is_current(),
    {
        BytecodeLimits {
            max_constants: u16::MAX as usize + 1,
            max_strings: u16::MAX as usize + 1,
            max_functions: u16::MAX as usize + 1,
            max_instructions_per_function: (u32::MAX as usize).saturating_add(1),
            max_registers_per_function: u8::MAX as usize + 1,
        }
    }
}

impl Default for BytecodeLimits {
    fn default() -> (limits: Self)
        ensures
            limits.is_current(),
    {
        Self::current()
    }
}

} // verus!
