//! Binary bytecode serialization.
//!
//! Encodes programs into a compact deterministic byte format and decodes them
//! back through the verifier. A container wraps an encoded program with metadata.

use vstd::prelude::*;
use vstd::string::{StrSliceExecFns, StringExecFns, StringSliceAdditionalSpecFns};
use vstd::utf8::encode_utf8;

use crate::bytecode::chunk::{clone_strings, option_view, string_views};
use crate::bytecode::decoding::{
    parsed_program, read_byte, read_counted, read_flag, read_magic, read_option_text, read_text,
    text_reader, Decoder,
};
use crate::bytecode::encoding::{
    encoded, first_of, flag_bytes, length_bytes, list_bytes, option_text_bytes, oversized_program,
    oversized_text, oversized_texts, program_bytes, text_bytes, text_encoder, too_long, Encoder,
};
use crate::bytecode::features::{
    functions_flags, infer_program_feature_flags, program_debuggable, program_has_debug_metadata,
};
use crate::bytecode::instruction::FunctionId;
use crate::bytecode::program::{Program, ProgramView};
use crate::bytecode::verification::{error_text, rejected_with, valid_program, VerifiedProgram};
use crate::bytecode::wire::{
    le_bytes, lemma_byte_ranges, lemma_prepend_push, prepend, read_bytes, read_number,
    BytecodeDecodeError, BytecodeEncodeError, Parse,
};
use crate::text::{decimal, push_decimal};

verus! {

/// Magic text at the start of a bytecode container.
pub const BYTECODE_CONTAINER_MAGIC: &'static str = "FERRIXCN";

/// The container version this library reads and writes.
pub const CURRENT_CONTAINER_VERSION: u16 = 1;

/// The version of this library, recorded as the least version that can read a container.
pub const FERRIX_VERSION: &'static str = "0.1.0";

/// Optional section kind in a Ferrix bytecode container.
#[derive(Clone, Copy, Debug, PartialEq, Eq, Structural)]
pub enum BytecodeSectionKind {
    /// Encoded program payload.
    ProgramPayload,
    /// Reserved import table metadata.
    ImportTable,
    /// Reserved export table metadata.
    ExportTable,
    /// Reserved interface metadata.
    InterfaceMetadata,
    /// Reserved debug/source-map metadata.
    Debug,
}

/// The section kind with the given tag.
pub open spec fn section_kind(tag: u8) -> Option<BytecodeSectionKind> {
    if tag == 0 {
        Some(BytecodeSectionKind::ProgramPayload)
    } else if tag == 1 {
        Some(BytecodeSectionKind::ImportTable)
    } else if tag == 2 {
        Some(BytecodeSectionKind::ExportTable)
    } else if tag == 3 {
        Some(BytecodeSectionKind::InterfaceMetadata)
    } else if tag == 4 {
        Some(BytecodeSectionKind::Debug)
    } else {
        None
    }
}

impl BytecodeSectionKind {
    /// The tag of the section kind.
    fn tag(self) -> (tag: u8)
        ensures
            section_kind(tag) == Some(self),
    {
        match self {
            BytecodeSectionKind::ProgramPayload => 0,
            BytecodeSectionKind::ImportTable => 1,
            BytecodeSectionKind::ExportTable => 2,
            BytecodeSectionKind::InterfaceMetadata => 3,
            BytecodeSectionKind::Debug => 4,
        }
    }

    /// The section kind with the given tag.
    fn from_tag(tag: u8) -> (result: Result<Self, BytecodeDecodeError>)
        ensures
            match result {
                Ok(kind) => section_kind(tag) == Some(kind),
                Err(error) => section_kind(tag) is None && error
                    == (BytecodeDecodeError::InvalidSectionKind { tag }),
            },
    {
        match tag {
            0 => Ok(BytecodeSectionKind::ProgramPayload),
            1 => Ok(BytecodeSectionKind::ImportTable),
            2 => Ok(BytecodeSectionKind::ExportTable),
            3 => Ok(BytecodeSectionKind::InterfaceMetadata),
            4 => Ok(BytecodeSectionKind::Debug),
            _ => Err(BytecodeDecodeError::InvalidSectionKind { tag }),
        }
    }
}

/// One section entry discovered in a bytecode container.
#[derive(Clone, Copy, Debug, PartialEq, Eq, Structural)]
pub struct BytecodeSectionEntry {
    /// Section kind.
    pub kind: BytecodeSectionKind,
    /// Byte offset in the container where the section payload starts.
    pub offset: usize,
    /// Section payload length in bytes.
    pub len: usize,
}

/// Stable metadata wrapper for serialized bytecode containers.
#[derive(Debug, PartialEq, Eq)]
pub struct BytecodeContainerMetadata {
    /// Bytecode instruction/schema version required by the payload.
    pub bytecode_format_version: u16,
    /// Minimum Ferrix version expected by producer/tooling.
    pub min_ferrix_version: String,
    /// Required bytecode feature flags.
    pub feature_flags: u32,
    /// Dotted host capabilities required by the payload.
    pub required_capabilities: Vec<String>,
    /// Entry function encoded in the payload.
    pub entry: FunctionId,
    /// Optional module or package name.
    pub module_name: Option<String>,
    /// Whether debug/source metadata is present.
    pub debug_section_present: bool,
    /// Simple checksum of the program payload.
    pub checksum: u64,
    /// Producer optimization level.
    pub optimization_level: u8,
    /// Whether an import table section is present.
    pub import_table_present: bool,
    /// Whether an export table section is present.
    pub export_table_present: bool,
    /// Whether an interface metadata section is present.
    pub interface_metadata_present: bool,
}

/// The mathematical content of container metadata.
#[verifier::ext_equal]
pub struct MetadataView {
    pub bytecode_format_version: u16,
    pub min_ferrix_version: Seq<char>,
    pub feature_flags: u32,
    pub required_capabilities: Seq<Seq<char>>,
    pub entry: FunctionId,
    pub module_name: Option<Seq<char>>,
    pub debug_section_present: bool,
    pub checksum: u64,
    pub optimization_level: u8,
    pub import_table_present: bool,
    pub export_table_present: bool,
    pub interface_metadata_present: bool,
}

impl View for BytecodeContainerMetadata {
    type V = MetadataView;

    open spec fn view(&self) -> MetadataView {
        MetadataView {
            bytecode_format_version: self.bytecode_format_version,
            min_ferrix_version: self.min_ferrix_version@,
            feature_flags: self.feature_flags,
            required_capabilities: string_views(self.required_capabilities@),
            entry: self.entry,
            module_name: option_view(self.module_name),
            debug_section_present: self.debug_section_present,
            checksum: self.checksum,
            optimization_level: self.optimization_level,
            import_table_present: self.import_table_present,
            export_table_present: self.export_table_present,
            interface_metadata_present: self.interface_metadata_present,
        }
    }
}

/// The metadata that a program alone gives.
pub open spec fn default_metadata(p: ProgramView) -> MetadataView {
    MetadataView {
        bytecode_format_version: p.version,
        min_ferrix_version: FERRIX_VERSION@,
        feature_flags: functions_flags(p.functions),
        required_capabilities: Seq::empty(),
        entry: p.entry,
        module_name: None,
        debug_section_present: program_debuggable(p),
        checksum: 0,
        optimization_level: 0,
        import_table_present: false,
        export_table_present: false,
        interface_metadata_present: false,
    }
}

impl BytecodeContainerMetadata {
    /// Builds metadata from the current program model.
    pub fn for_program(program: &Program) -> (metadata: Self)
        ensures
            metadata@ == default_metadata(program@),
    {
        BytecodeContainerMetadata {
            bytecode_format_version: program.format.version,
            min_ferrix_version: FERRIX_VERSION.to_owned(),
            feature_flags: infer_program_feature_flags(program),
            required_capabilities: Vec::new(),
            entry: program.entry,
            module_name: None,
            debug_section_present: program_has_debug_metadata(program),
            checksum: 0,
            optimization_level: 0,
            import_table_present: false,
            export_table_present: false,
            interface_metadata_present: false,
        }
    }

    /// Adds one required host capability by dotted name.
    pub fn with_required_capability(self, capability: &str) -> (metadata: Self)
        ensures
            metadata@ == (MetadataView {
                required_capabilities: self@.required_capabilities.push(capability@),
                ..self@
            }),
    {
        let mut metadata = self;
        metadata.required_capabilities.push(capability.to_owned());
        assert(metadata@.required_capabilities == self@.required_capabilities.push(capability@));
        metadata
    }

    /// Sets optional module or package name.
    pub fn with_module_name(self, module_name: &str) -> (metadata: Self)
        ensures
            metadata@ == (MetadataView { module_name: Some(module_name@), ..self@ }),
    {
        let mut metadata = self;
        metadata.module_name = Some(module_name.to_owned());
        metadata
    }
}

impl Clone for BytecodeContainerMetadata {
    fn clone(&self) -> (copy: Self)
        ensures
            copy@ == self@,
    {
        let module_name = match &self.module_name {
            Some(name) => Some(name.clone()),
            None => None,
        };
        BytecodeContainerMetadata {
            bytecode_format_version: self.bytecode_format_version,
            min_ferrix_version: self.min_ferrix_version.clone(),
            feature_flags: self.feature_flags,
            required_capabilities: clone_strings(&self.required_capabilities),
            entry: self.entry,
            module_name,
            debug_section_present: self.debug_section_present,
            checksum: self.checksum,
            optimization_level: self.optimization_level,
            import_table_present: self.import_table_present,
            export_table_present: self.export_table_present,
            interface_metadata_present: self.interface_metadata_present,
        }
    }
}

/// Decoded bytecode container with metadata and verified program payload.
#[derive(Debug, PartialEq, Eq)]
pub struct BytecodeContainer {
    /// Stable container metadata.
    pub metadata: BytecodeContainerMetadata,
    /// Section entries discovered while decoding.
    pub sections: Vec<BytecodeSectionEntry>,
    /// Verified program payload.
    pub program: VerifiedProgram,
}

impl Clone for BytecodeContainer {
    fn clone(&self) -> (copy: Self)
        ensures
            copy.metadata@ == self.metadata@,
            copy.sections@ == self.sections@,
            copy.program@ == self.program@,
    {
        BytecodeContainer {
            metadata: self.metadata.clone(),
            sections: self.sections.clone(),
            program: self.program.clone(),
        }
    }
}

// ---------------------------------------------------------------------------
// Checksum
// ---------------------------------------------------------------------------

/// The 64-bit FNV-1a hash of some bytes.
pub open spec fn fnv1a(bytes: Seq<u8>) -> u64
    decreases bytes.len(),
{
    if bytes.len() == 0 {
        0xcbf29ce484222325
    } else {
        (fnv1a(bytes.drop_last()) ^ (bytes.last() as u64)).wrapping_mul(0x100000001b3)
    }
}

/// The checksum of a program payload.
fn checksum64(bytes: &[u8]) -> (hash: u64)
    ensures
        hash == fnv1a(bytes@),
{
    let mut hash: u64 = 0xcbf29ce484222325;
    let mut i: usize = 0;
    assert(bytes@.take(0) =~= Seq::empty());
    while i < bytes.len()
        invariant
            i <= bytes@.len(),
            hash == fnv1a(bytes@.take(i as int)),
        decreases bytes.len() - i,
    {
        assert(bytes@.take(i + 1).drop_last() =~= bytes@.take(i as int));
        hash = (hash ^ (bytes[i] as u64)).wrapping_mul(0x100000001b3);
        i = i + 1;
    }
    assert(bytes@.take(i as int) =~= bytes@);
    hash
}

// ---------------------------------------------------------------------------
// Programs
// ---------------------------------------------------------------------------

/// Encodes a bytecode program to bytes.
pub fn encode_program(program: &Program) -> (result: Result<Vec<u8>, BytecodeEncodeError>)
    ensures
        match result {
            Ok(bytes) => oversized_program(program@) is None && bytes@ == program_bytes(program@),
            Err(BytecodeEncodeError::LengthTooLarge { field }) => oversized_program(program@)
                == Some(field),
        },
{
    let mut encoder = Encoder::new();
    encoder.program(program)?;
    assert(Seq::<u8>::empty() + program_bytes(program@) =~= program_bytes(program@));
    Ok(encoder.bytes)
}

/// Whether decoding some bytes gives the program `p`.
pub open spec fn decodes_to(bytes: Seq<u8>, p: ProgramView) -> bool {
    parsed_program(bytes) == Ok::<ProgramView, BytecodeDecodeError>(p) && valid_program(p)
}

/// Whether decoding some bytes fails with `error`: either they stand for no program, or the
/// program does not pass verification.
pub open spec fn decode_fails_with(bytes: Seq<u8>, error: BytecodeDecodeError) -> bool {
    match parsed_program(bytes) {
        Err(parse_error) => error == parse_error,
        Ok(p) => {
            &&& !valid_program(p)
            &&& error matches BytecodeDecodeError::InvalidBytecode(reason)
            &&& rejected_with(p, reason)
        },
    }
}

/// Decodes bytes into a verified bytecode program.
pub fn decode_program(bytes: &[u8]) -> (result: Result<VerifiedProgram, BytecodeDecodeError>)
    ensures
        match result {
            Ok(program) => decodes_to(bytes@, program@),
            Err(error) => decode_fails_with(bytes@, error),
        },
{
    let mut decoder = Decoder::new(bytes);
    let program = decoder.program()?;
    match VerifiedProgram::new(program) {
        Ok(verified) => Ok(verified),
        Err(error) => Err(BytecodeDecodeError::InvalidBytecode(error)),
    }
}

// ---------------------------------------------------------------------------
// Encoding containers
// ---------------------------------------------------------------------------

/// The encoding of the metadata fields up to the module name.
pub open spec fn metadata_head_bytes(m: MetadataView) -> Seq<u8> {
    le_bytes(m.bytecode_format_version as nat, 2) + text_bytes(m.min_ferrix_version) + le_bytes(
        m.feature_flags as nat,
        4,
    ) + list_bytes(m.required_capabilities, text_encoder()) + le_bytes(m.entry.0 as nat, 2)
        + option_text_bytes(m.module_name)
}

/// The encoding of the metadata fields behind the module name.
pub open spec fn metadata_tail_bytes(m: MetadataView) -> Seq<u8> {
    flag_bytes(m.debug_section_present) + le_bytes(m.checksum as nat, 8) + seq![
        m.optimization_level,
    ] + flag_bytes(m.import_table_present) + flag_bytes(m.export_table_present) + flag_bytes(
        m.interface_metadata_present,
    )
}

/// The encoding of container metadata.
#[verifier::opaque]
pub open spec fn metadata_bytes(m: MetadataView) -> Seq<u8> {
    metadata_head_bytes(m) + metadata_tail_bytes(m)
}

/// The first part of the metadata that is too long to encode.
#[verifier::opaque]
pub open spec fn oversized_metadata(m: MetadataView) -> Option<&'static str> {
    first_of(
        oversized_text("metadata.min_ferrix_version", m.min_ferrix_version),
        first_of(
            first_of(
                too_long("metadata.required_capabilities", m.required_capabilities.len()),
                oversized_texts("metadata.required_capability", m.required_capabilities),
            ),
            match m.module_name {
                Some(name) => oversized_text("metadata.module_name", name),
                None => None,
            },
        ),
    )
}

/// The metadata that a container records: what was given, or the program's own, with the
/// fields that the program determines.
pub open spec fn recorded_metadata(p: ProgramView, given: Option<MetadataView>) -> MetadataView {
    let m = match given {
        Some(m) => m,
        None => default_metadata(p),
    };
    MetadataView {
        bytecode_format_version: p.version,
        feature_flags: m.feature_flags | functions_flags(p.functions),
        entry: p.entry,
        debug_section_present: m.debug_section_present || program_debuggable(p),
        checksum: fnv1a(program_bytes(p)),
        ..m
    }
}

/// The encoding of a container: magic, version, metadata, and one section with the program.
pub open spec fn container_bytes(p: ProgramView, m: MetadataView) -> Seq<u8> {
    encode_utf8(BYTECODE_CONTAINER_MAGIC@) + le_bytes(CURRENT_CONTAINER_VERSION as nat, 2)
        + metadata_bytes(m) + length_bytes(1) + seq![0u8] + length_bytes(program_bytes(p).len())
        + program_bytes(p)
}

/// The first part of a container that is too long to encode.
pub open spec fn oversized_container(p: ProgramView, m: MetadataView) -> Option<&'static str> {
    first_of(
        oversized_program(p),
        first_of(
            oversized_metadata(m),
            too_long("section.program_payload", program_bytes(p).len()),
        ),
    )
}

impl Encoder {
    /// Writes container metadata.
    fn container_metadata(&mut self, metadata: &BytecodeContainerMetadata) -> (result: Result<
        (),
        BytecodeEncodeError,
    >)
        ensures
            encoded(
                result,
                old(self).bytes@,
                final(self).bytes@,
                metadata_bytes(metadata@),
                oversized_metadata(metadata@),
            ),
    {
        reveal(metadata_bytes);
        reveal(oversized_metadata);
        self.number(metadata.bytecode_format_version as u64, 2);
        self.text("metadata.min_ferrix_version", metadata.min_ferrix_version.as_str())?;
        self.number(metadata.feature_flags as u64, 4);
        self.texts(
            "metadata.required_capabilities",
            "metadata.required_capability",
            &metadata.required_capabilities,
        )?;
        self.number(metadata.entry.0 as u64, 2);
        self.option_text("metadata.module_name", &metadata.module_name)?;
        assert(self.bytes@ =~= old(self).bytes@ + metadata_head_bytes(metadata@));
        self.metadata_tail(metadata);
        assert(self.bytes@ =~= old(self).bytes@ + metadata_bytes(metadata@));
        Ok(())
    }

    /// Writes the metadata fields behind the module name.
    fn metadata_tail(&mut self, metadata: &BytecodeContainerMetadata)
        ensures
            final(self).bytes@ == old(self).bytes@ + metadata_tail_bytes(metadata@),
    {
        self.flag(metadata.debug_section_present);
        self.number(metadata.checksum, 8);
        self.byte(metadata.optimization_level);
        self.flag(metadata.import_table_present);
        self.flag(metadata.export_table_present);
        self.flag(metadata.interface_metadata_present);
        assert(self.bytes@ =~= old(self).bytes@ + metadata_tail_bytes(metadata@));
    }
}

/// The view of optional metadata.
pub open spec fn metadata_view(metadata: Option<BytecodeContainerMetadata>) -> Option<
    MetadataView,
> {
    match metadata {
        Some(m) => Some(m@),
        None => None,
    }
}

/// Encodes a program into a metadata-rich bytecode container.
pub fn encode_container(
    program: &Program,
    metadata: Option<BytecodeContainerMetadata>,
) -> (result: Result<Vec<u8>, BytecodeEncodeError>)
    ensures
        ({
            let m = recorded_metadata(program@, metadata_view(metadata));
            match result {
                Ok(bytes) => {
                    &&& oversized_container(program@, m) is None
                    &&& bytes@ == container_bytes(program@, m)
                },
                Err(BytecodeEncodeError::LengthTooLarge { field }) => oversized_container(
                    program@,
                    m,
                ) == Some(field),
            }
        }),
{
    let payload = encode_program(program)?;
    let mut recorded = match metadata {
        Some(metadata) => metadata,
        None => BytecodeContainerMetadata::for_program(program),
    };
    recorded.bytecode_format_version = program.format.version;
    recorded.feature_flags = recorded.feature_flags | infer_program_feature_flags(program);
    recorded.entry = program.entry;
    recorded.debug_section_present = recorded.debug_section_present || program_has_debug_metadata(
        program,
    );
    recorded.checksum = checksum64(payload.as_slice());
    let ghost m = recorded_metadata(program@, metadata_view(metadata));
    assert(recorded@ =~= m);
    let mut encoder = Encoder::new();
    encoder.raw(BYTECODE_CONTAINER_MAGIC.as_bytes());
    encoder.number(CURRENT_CONTAINER_VERSION as u64, 2);
    encoder.container_metadata(&recorded)?;
    encoder.length("sections", 1)?;
    encoder.byte(BytecodeSectionKind::ProgramPayload.tag());
    encoder.length("section.program_payload", payload.len())?;
    encoder.raw(payload.as_slice());
    assert(encoder.bytes@ =~= container_bytes(program@, m));
    Ok(encoder.bytes)
}

// ---------------------------------------------------------------------------
// Decoding containers
// ---------------------------------------------------------------------------

/// Reads the metadata of a container.
#[verifier::opaque]
pub open spec fn read_metadata(rest: Seq<u8>) -> Parse<MetadataView> {
    match read_number(2, rest) {
        Err(error) => Err(error),
        Ok((version, rest)) => match read_text(rest) {
            Err(error) => Err(error),
            Ok((min_ferrix_version, rest)) => match read_number(4, rest) {
                Err(error) => Err(error),
                Ok((flags, rest)) => match read_counted(rest, text_reader()) {
                    Err(error) => Err(error),
                    Ok((required_capabilities, rest)) => match read_number(2, rest) {
                        Err(error) => Err(error),
                        Ok((entry, rest)) => match read_option_text(rest) {
                            Err(error) => Err(error),
                            Ok((module_name, rest)) => match read_metadata_tail(rest) {
                                Err(error) => Err(error),
                                Ok((tail, rest)) => Ok(
                                    (
                                        MetadataView {
                                            bytecode_format_version: version as u16,
                                            min_ferrix_version,
                                            feature_flags: flags as u32,
                                            required_capabilities,
                                            entry: FunctionId(entry as u16),
                                            module_name,
                                            debug_section_present: tail.0,
                                            checksum: tail.1,
                                            optimization_level: tail.2,
                                            import_table_present: tail.3,
                                            export_table_present: tail.4,
                                            interface_metadata_present: tail.5,
                                        },
                                        rest,
                                    ),
                                ),
                            },
                        },
                    },
                },
            },
        },
    }
}

/// Reads the fixed-size fields at the end of the metadata.
pub open spec fn read_metadata_tail(rest: Seq<u8>) -> Parse<(bool, u64, u8, bool, bool, bool)> {
    match read_flag(rest) {
        Err(error) => Err(error),
        Ok((debug, rest)) => match read_number(8, rest) {
            Err(error) => Err(error),
            Ok((checksum, rest)) => match read_byte(rest) {
                Err(error) => Err(error),
                Ok((level, rest)) => match read_flag(rest) {
                    Err(error) => Err(error),
                    Ok((imports, rest)) => match read_flag(rest) {
                        Err(error) => Err(error),
                        Ok((exports, rest)) => match read_flag(rest) {
                            Err(error) => Err(error),
                            Ok((interface, rest)) => Ok(
                                (
                                    (debug, checksum as u64, level, imports, exports, interface),
                                    rest,
                                ),
                            ),
                        },
                    },
                },
            },
        },
    }
}

/// A section of a container with its bytes.
pub struct SectionView {
    pub entry: BytecodeSectionEntry,
    pub payload: Seq<u8>,
}

/// Reads one section of a container of `total` bytes.
pub open spec fn read_section(total: nat, rest: Seq<u8>) -> Parse<SectionView> {
    match read_byte(rest) {
        Err(error) => Err(error),
        Ok((tag, rest)) => match section_kind(tag) {
            None => Err(BytecodeDecodeError::InvalidSectionKind { tag }),
            Some(kind) => match read_number(4, rest) {
                Err(error) => Err(error),
                Ok((len, rest)) => match read_bytes(len, rest) {
                    Err(error) => Err(error),
                    Ok((payload, behind)) => Ok(
                        (
                            SectionView {
                                entry: BytecodeSectionEntry {
                                    kind,
                                    offset: (total - rest.len()) as usize,
                                    len: len as usize,
                                },
                                payload,
                            },
                            behind,
                        ),
                    ),
                },
            },
        },
    }
}

/// Reads `n` sections.
pub open spec fn read_sections(n: nat, total: nat, rest: Seq<u8>) -> Parse<Seq<SectionView>>
    decreases n,
{
    if n == 0 {
        Ok((Seq::empty(), rest))
    } else {
        match read_section(total, rest) {
            Err(error) => Err(error),
            Ok((section, rest)) => prepend(
                seq![section],
                read_sections((n - 1) as nat, total, rest),
            ),
        }
    }
}

/// The entries of some sections.
pub open spec fn section_entries(sections: Seq<SectionView>) -> Seq<BytecodeSectionEntry> {
    Seq::new(sections.len(), |i: int| sections[i].entry)
}

/// The bytes of the last section that holds a program.
pub open spec fn program_payload(sections: Seq<SectionView>) -> Option<Seq<u8>>
    decreases sections.len(),
{
    if sections.len() == 0 {
        None
    } else if sections.last().entry.kind == BytecodeSectionKind::ProgramPayload {
        Some(sections.last().payload)
    } else {
        program_payload(sections.drop_last())
    }
}

/// Reads a container up to its sections.
pub open spec fn read_container(bytes: Seq<u8>) -> Parse<(MetadataView, Seq<SectionView>)> {
    match read_magic(encode_utf8(BYTECODE_CONTAINER_MAGIC@), bytes) {
        Err(error) => Err(error),
        Ok((_, rest)) => match read_number(2, rest) {
            Err(error) => Err(error),
            Ok((version, rest)) => if version != CURRENT_CONTAINER_VERSION {
                Err(BytecodeDecodeError::UnsupportedContainerVersion { version: version as u16 })
            } else {
                match read_metadata(rest) {
                    Err(error) => Err(error),
                    Ok((metadata, rest)) => match read_number(4, rest) {
                        Err(error) => Err(error),
                        Ok((count, rest)) => match read_sections(count, bytes.len(), rest) {
                            Err(error) => Err(error),
                            Ok((sections, rest)) => Ok(((metadata, sections), rest)),
                        },
                    },
                }
            },
        },
    }
}

/// What a container holds: its metadata, its sections, and a payload with a matching
/// checksum. A recorded checksum of zero matches every payload.
pub open spec fn parsed_container(bytes: Seq<u8>) -> Result<
    (MetadataView, Seq<BytecodeSectionEntry>, Seq<u8>),
    BytecodeDecodeError,
> {
    match read_container(bytes) {
        Err(error) => Err(error),
        Ok(((metadata, sections), rest)) => if rest.len() != 0 {
            Err(BytecodeDecodeError::TrailingBytes { count: rest.len() as usize })
        } else {
            match program_payload(sections) {
                None => Err(BytecodeDecodeError::MissingProgramSection),
                Some(payload) => if metadata.checksum != 0 && metadata.checksum != fnv1a(payload) {
                    Err(
                        BytecodeDecodeError::ChecksumMismatch {
                            expected: metadata.checksum,
                            actual: fnv1a(payload),
                        },
                    )
                } else {
                    Ok((metadata, section_entries(sections), payload))
                },
            }
        },
    }
}

/// Whether decoding some bytes gives a container with the given content.
pub open spec fn container_decodes_to(
    bytes: Seq<u8>,
    metadata: MetadataView,
    sections: Seq<BytecodeSectionEntry>,
    program: ProgramView,
) -> bool {
    match parsed_container(bytes) {
        Err(_) => false,
        Ok((m, s, payload)) => m == metadata && s == sections && decodes_to(payload, program),
    }
}

/// Whether decoding some bytes as a container fails with `error`.
pub open spec fn container_fails_with(bytes: Seq<u8>, error: BytecodeDecodeError) -> bool {
    match parsed_container(bytes) {
        Err(parse_error) => error == parse_error,
        Ok((_, _, payload)) => decode_fails_with(payload, error),
    }
}

impl<'a> Decoder<'a> {
    /// Reads the metadata of a container.
    fn container_metadata(&mut self) -> (result: Result<
        BytecodeContainerMetadata,
        BytecodeDecodeError,
    >)
        requires
            old(self).wf(),
        ensures
            final(self).follows(*old(self)),
            match result {
                Ok(metadata) => read_metadata(old(self).rest()) == Ok::<
                    (MetadataView, Seq<u8>),
                    BytecodeDecodeError,
                >((metadata@, final(self).rest())),
                Err(error) => read_metadata(old(self).rest()) == Err::<
                    (MetadataView, Seq<u8>),
                    BytecodeDecodeError,
                >(error),
            },
    {
        reveal(read_metadata);
        proof {
            lemma_byte_ranges();
        }
        let version: u64 = self.number(2)?;
        let min_ferrix_version = self.text()?;
        let flags: u64 = self.number(4)?;
        let required_capabilities = self.texts()?;
        let entry: u64 = self.number(2)?;
        let module_name = self.option_text()?;
        let debug_section_present = self.flag()?;
        let checksum: u64 = self.number(8)?;
        let optimization_level: u8 = self.byte()?;
        let import_table_present = self.flag()?;
        let export_table_present = self.flag()?;
        let interface_metadata_present = self.flag()?;
        Ok(
            BytecodeContainerMetadata {
                bytecode_format_version: version as u16,
                min_ferrix_version,
                feature_flags: flags as u32,
                required_capabilities,
                entry: FunctionId(entry as u16),
                module_name,
                debug_section_present,
                checksum,
                optimization_level,
                import_table_present,
                export_table_present,
                interface_metadata_present,
            },
        )
    }

    /// Reads one section.
    fn section(&mut self) -> (result: Result<
        (BytecodeSectionEntry, &'a [u8]),
        BytecodeDecodeError,
    >)
        requires
            old(self).wf(),
        ensures
            final(self).follows(*old(self)),
            match result {
                Ok(section) => read_section(old(self).bytes@.len(), old(self).rest()) == Ok::<
                    (SectionView, Seq<u8>),
                    BytecodeDecodeError,
                >(
                    (
                        SectionView { entry: section.0, payload: section.1@ },
                        final(self).rest(),
                    ),
                ),
                Err(error) => read_section(old(self).bytes@.len(), old(self).rest()) == Err::<
                    (SectionView, Seq<u8>),
                    BytecodeDecodeError,
                >(error),
            },
    {
        let tag: u8 = self.byte()?;
        let kind = BytecodeSectionKind::from_tag(tag)?;
        let len: usize = self.length()?;
        let offset: usize = self.cursor;
        let payload = self.take(len)?;
        Ok((BytecodeSectionEntry { kind, offset, len }, payload))
    }
}

/// Decodes a metadata-rich bytecode container.
pub fn decode_container(bytes: &[u8]) -> (result: Result<BytecodeContainer, BytecodeDecodeError>)
    ensures
        match result {
            Ok(container) => container_decodes_to(
                bytes@,
                container.metadata@,
                container.sections@,
                container.program@,
            ),
            Err(error) => container_fails_with(bytes@, error),
        },
{
    proof {
        lemma_byte_ranges();
    }
    let mut decoder = Decoder::new(bytes);
    decoder.magic(BYTECODE_CONTAINER_MAGIC)?;
    let version: u64 = decoder.number(2)?;
    if version != CURRENT_CONTAINER_VERSION as u64 {
        return Err(BytecodeDecodeError::UnsupportedContainerVersion { version: version as u16 });
    }
    let metadata = decoder.container_metadata()?;
    let count: usize = decoder.length()?;
    let ghost start = decoder.rest();
    let ghost mut views: Seq<SectionView> = Seq::empty();
    let mut sections: Vec<BytecodeSectionEntry> = Vec::new();
    let mut payload: Option<&[u8]> = None;
    let mut i: usize = 0;
    proof {
        if let Ok((all, behind)) = read_sections(count as nat, bytes@.len(), start) {
            assert(Seq::<SectionView>::empty() + all =~= all);
        }
    }
    while i < count
        invariant
            i <= count,
            decoder.wf(),
            decoder.bytes == bytes,
            read_container(bytes@) == (match read_sections(count as nat, bytes@.len(), start) {
                Err(error) => Err::<
                    ((MetadataView, Seq<SectionView>), Seq<u8>),
                    BytecodeDecodeError,
                >(error),
                Ok((all, rest)) => Ok(((metadata@, all), rest)),
            }),
            read_sections(count as nat, bytes@.len(), start) == prepend(
                views,
                read_sections((count - i) as nat, bytes@.len(), decoder.rest()),
            ),
            sections@ == section_entries(views),
            match payload {
                Some(bytes) => program_payload(views) == Some(bytes@),
                None => program_payload(views) is None,
            },
        decreases count - i,
    {
        let ghost before = views;
        let (entry, section_payload) = decoder.section()?;
        let ghost view = SectionView { entry, payload: section_payload@ };
        proof {
            views = before.push(view);
            assert(views.drop_last() =~= before);
            lemma_prepend_push(
                before,
                view,
                read_sections((count - i - 1) as nat, bytes@.len(), decoder.rest()),
            );
        }
        if entry.kind == BytecodeSectionKind::ProgramPayload {
            payload = Some(section_payload);
        }
        sections.push(entry);
        assert(sections@ =~= section_entries(views));
        i = i + 1;
    }
    assert(views + Seq::<SectionView>::empty() =~= views);
    let left: usize = decoder.remaining();
    if left != 0 {
        return Err(BytecodeDecodeError::TrailingBytes { count: left });
    }
    let payload = match payload {
        Some(payload) => payload,
        None => return Err(BytecodeDecodeError::MissingProgramSection),
    };
    let actual: u64 = checksum64(payload);
    if metadata.checksum != 0 && metadata.checksum != actual {
        return Err(
            BytecodeDecodeError::ChecksumMismatch { expected: metadata.checksum, actual },
        );
    }
    let program = decode_program(payload)?;
    Ok(BytecodeContainer { metadata, sections, program })
}

/// Reads bytecode container metadata without returning the verified payload.
pub fn inspect_container(bytes: &[u8]) -> (result: Result<
    BytecodeContainerMetadata,
    BytecodeDecodeError,
>)
    ensures
        match result {
            Ok(metadata) => {
                &&& parsed_container(bytes@) matches Ok((m, sections, payload))
                &&& m == metadata@
                &&& parsed_program(payload) matches Ok(program)
                &&& valid_program(program)
            },
            Err(error) => container_fails_with(bytes@, error),
        },
{
    let container = decode_container(bytes)?;
    Ok(container.metadata)
}

/// Whether some bytes start with the container magic.
pub open spec fn is_container(bytes: Seq<u8>) -> bool {
    encode_utf8(BYTECODE_CONTAINER_MAGIC@).is_prefix_of(bytes)
}

/// Whether some bytes start with the container magic.
fn starts_with_container_magic(bytes: &[u8]) -> (starts: bool)
    ensures
        starts == is_container(bytes@),
{
    let magic = BYTECODE_CONTAINER_MAGIC.as_bytes();
    if bytes.len() < magic.len() {
        return false;
    }
    let mut i: usize = 0;
    while i < magic.len()
        invariant
            i <= magic@.len() <= bytes@.len(),
            magic@ == encode_utf8(BYTECODE_CONTAINER_MAGIC@),
            forall|k: int| 0 <= k < i ==> magic@[k] == bytes@[k],
        decreases magic.len() - i,
    {
        if magic[i] != bytes[i] {
            assert(bytes@.subrange(0, magic@.len() as int)[i as int] != magic@[i as int]);
            return false;
        }
        i = i + 1;
    }
    assert(bytes@.subrange(0, magic@.len() as int) =~= magic@);
    true
}

/// Decodes either a plain program payload or a bytecode container.
pub fn decode_bytecode(bytes: &[u8]) -> (result: Result<VerifiedProgram, BytecodeDecodeError>)
    ensures
        match result {
            Ok(program) => if is_container(bytes@) {
                &&& parsed_container(bytes@) matches Ok((metadata, sections, payload))
                &&& decodes_to(payload, program@)
            } else {
                decodes_to(bytes@, program@)
            },
            Err(error) => if is_container(bytes@) {
                container_fails_with(bytes@, error)
            } else {
                decode_fails_with(bytes@, error)
            },
        },
{
    if starts_with_container_magic(bytes) {
        let container = decode_container(bytes)?;
        Ok(container.program)
    } else {
        decode_program(bytes)
    }
}

// ---------------------------------------------------------------------------
// Messages
// ---------------------------------------------------------------------------

/// The message of an encoding error.
pub open spec fn encode_error_text(error: BytecodeEncodeError) -> Seq<char> {
    match error {
        BytecodeEncodeError::LengthTooLarge { field } => "`"@ + field@
            + "` is too large to encode"@,
    }
}

impl BytecodeEncodeError {
    /// Renders the error.
    pub fn to_string(&self) -> (s: String)
        ensures
            s@ == encode_error_text(*self),
    {
        match self {
            BytecodeEncodeError::LengthTooLarge { field } => {
                let mut s = String::from_str("`");
                s.append(field);
                s.append("` is too large to encode");
                s
            },
        }
    }
}

/// The message of a decoding error.
pub open spec fn decode_error_text(error: BytecodeDecodeError) -> Seq<char> {
    match error {
        BytecodeDecodeError::UnexpectedEof => "unexpected end of bytecode"@,
        BytecodeDecodeError::InvalidMagic => "invalid bytecode magic"@,
        BytecodeDecodeError::UnsupportedVersion { version } =>
            "unsupported bytecode serialization version "@ + decimal(version as nat),
        BytecodeDecodeError::UnsupportedContainerVersion { version } =>
            "unsupported bytecode container version "@ + decimal(version as nat),
        BytecodeDecodeError::InvalidSectionKind { tag } => "invalid bytecode section kind "@
            + decimal(tag as nat),
        BytecodeDecodeError::MissingProgramSection => "bytecode container has no program section"@,
        BytecodeDecodeError::ChecksumMismatch { expected, actual } =>
            "bytecode container checksum mismatch: expected "@ + decimal(expected as nat)
                + ", got "@ + decimal(actual as nat),
        BytecodeDecodeError::InvalidUtf8 => "invalid utf-8 in bytecode"@,
        BytecodeDecodeError::InvalidValueTag { tag } => "invalid value tag "@ + decimal(tag as nat),
        BytecodeDecodeError::InvalidInstructionOpcode { opcode } =>
            "invalid instruction opcode "@ + decimal(opcode as nat),
        BytecodeDecodeError::InvalidFunctionKind { tag } => "invalid function kind "@ + decimal(
            tag as nat,
        ),
        BytecodeDecodeError::InvalidBytecode(error) => error_text(error),
        BytecodeDecodeError::LengthTooLarge { field } => "`"@ + field@
            + "` is too large to decode"@,
        BytecodeDecodeError::TrailingBytes { count } => "bytecode has "@ + decimal(count as nat)
            + " trailing bytes"@,
    }
}

/// A text followed by a number.
fn numbered(text: &str, n: u64) -> (s: String)
    ensures
        s@ == text@ + decimal(n as nat),
{
    let mut s = String::from_str(text);
    push_decimal(&mut s, n);
    s
}

impl BytecodeDecodeError {
    /// Renders the error.
    pub fn to_string(&self) -> (s: String)
        ensures
            s@ == decode_error_text(*self),
    {
        match self {
            BytecodeDecodeError::UnexpectedEof => String::from_str("unexpected end of bytecode"),
            BytecodeDecodeError::InvalidMagic => String::from_str("invalid bytecode magic"),
            BytecodeDecodeError::UnsupportedVersion { version } => numbered(
                "unsupported bytecode serialization version ",
                *version as u64,
            ),
            BytecodeDecodeError::UnsupportedContainerVersion { version } => numbered(
                "unsupported bytecode container version ",
                *version as u64,
            ),
            BytecodeDecodeError::InvalidSectionKind { tag } => numbered(
                "invalid bytecode section kind ",
                *tag as u64,
            ),
            BytecodeDecodeError::MissingProgramSection => String::from_str(
                "bytecode container has no program section",
            ),
            BytecodeDecodeError::ChecksumMismatch { expected, actual } => {
                let mut s = numbered("bytecode container checksum mismatch: expected ", *expected);
                s.append(", got ");
                push_decimal(&mut s, *actual);
                s
            },
            BytecodeDecodeError::InvalidUtf8 => String::from_str("invalid utf-8 in bytecode"),
            BytecodeDecodeError::InvalidValueTag { tag } => numbered(
                "invalid value tag ",
                *tag as u64,
            ),
            BytecodeDecodeError::InvalidInstructionOpcode { opcode } => numbered(
                "invalid instruction opcode ",
                *opcode as u64,
            ),
            BytecodeDecodeError::InvalidFunctionKind { tag } => numbered(
                "invalid function kind ",
                *tag as u64,
            ),
            BytecodeDecodeError::InvalidBytecode(error) => error.to_string(),
            BytecodeDecodeError::LengthTooLarge { field } => {
                let mut s = String::from_str("`");
                s.append(field);
                s.append("` is too large to decode");
                s
            },
            BytecodeDecodeError::TrailingBytes { count } => {
                let mut s = numbered("bytecode has ", *count as u64);
                s.append(" trailing bytes");
                s
            },
        }
    }
}

} // verus!
