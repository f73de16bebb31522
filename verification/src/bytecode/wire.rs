//! The byte level of the binary format: little-endian numbers, and lists of items.

use vstd::prelude::*;

use crate::bytecode::verification::VerificationError;

verus! {

/// Errors produced while encoding a bytecode program.
#[derive(Clone, Copy, Debug, PartialEq, Eq)]
pub enum BytecodeEncodeError {
    /// A length field cannot fit in the binary format.
    LengthTooLarge { field: &'static str },
}

/// Errors produced while decoding a bytecode program.
#[derive(Clone, Debug, PartialEq, Eq)]
pub enum BytecodeDecodeError {
    /// Input ended before the expected structure was fully read.
    UnexpectedEof,
    /// File magic did not match Ferrix bytecode.
    InvalidMagic,
    /// Serialization format version is unknown.
    UnsupportedVersion { version: u16 },
    /// Bytecode container format version is unknown.
    UnsupportedContainerVersion { version: u16 },
    /// Encoded section kind is unknown.
    InvalidSectionKind { tag: u8 },
    /// Bytecode container did not contain a program payload section.
    MissingProgramSection,
    /// Bytecode container payload checksum did not match metadata.
    ChecksumMismatch { expected: u64, actual: u64 },
    /// String data was not valid UTF-8.
    InvalidUtf8,
    /// Encoded `Value` tag is unknown.
    InvalidValueTag { tag: u8 },
    /// Encoded instruction opcode is unknown.
    InvalidInstructionOpcode { opcode: u8 },
    /// Encoded function kind is unknown.
    InvalidFunctionKind { tag: u8 },
    /// Decoded program failed normal bytecode verification.
    InvalidBytecode(VerificationError),
    /// A length field could not be represented on this platform.
    LengthTooLarge { field: &'static str },
    /// Extra bytes remained after decoding a complete program.
    TrailingBytes { count: usize },
}

/// What reading from the front of some bytes gives: a value and the bytes behind it.
pub type Parse<T> = Result<(T, Seq<u8>), BytecodeDecodeError>;

// ---------------------------------------------------------------------------
// Little-endian numbers
// ---------------------------------------------------------------------------

/// The `width` low bytes of `x`, least significant first.
pub open spec fn le_bytes(x: nat, width: nat) -> Seq<u8>
    decreases width,
{
    if width == 0 {
        Seq::empty()
    } else {
        seq![(x % 256) as u8] + le_bytes(x / 256, (width - 1) as nat)
    }
}

/// The number that little-endian bytes stand for.
pub open spec fn le_value(bytes: Seq<u8>) -> nat
    decreases bytes.len(),
{
    if bytes.len() == 0 {
        0
    } else {
        (bytes[0] + 256 * le_value(bytes.drop_first())) as nat
    }
}

/// 256 to the power `width`.
pub open spec fn byte_range(width: nat) -> nat
    decreases width,
{
    if width == 0 {
        1
    } else {
        256 * byte_range((width - 1) as nat)
    }
}

pub proof fn lemma_byte_ranges()
    ensures
        byte_range(1) == 0x100,
        byte_range(2) == 0x1_0000,
        byte_range(4) == 0x1_0000_0000,
        byte_range(8) == 0x1_0000_0000_0000_0000,
{
    reveal_with_fuel(byte_range, 9);
}

pub proof fn lemma_le_bytes_len(x: nat, width: nat)
    ensures
        le_bytes(x, width).len() == width,
    decreases width,
{
    if width > 0 {
        lemma_le_bytes_len(x / 256, (width - 1) as nat);
    }
}

pub proof fn lemma_le_value_range(bytes: Seq<u8>)
    ensures
        le_value(bytes) < byte_range(bytes.len()),
    decreases bytes.len(),
{
    if bytes.len() > 0 {
        lemma_le_value_range(bytes.drop_first());
    }
}

/// Little-endian bytes stand for the number that they were made from.
pub proof fn lemma_le_round_trip(x: nat, width: nat)
    requires
        x < byte_range(width),
    ensures
        le_value(le_bytes(x, width)) == x,
    decreases width,
{
    if width > 0 {
        lemma_le_round_trip(x / 256, (width - 1) as nat);
        assert(le_bytes(x, width).drop_first() =~= le_bytes(x / 256, (width - 1) as nat));
    }
}

/// Reads `n` bytes.
pub open spec fn read_bytes(n: nat, rest: Seq<u8>) -> Parse<Seq<u8>> {
    if n <= rest.len() {
        Ok((rest.take(n as int), rest.skip(n as int)))
    } else {
        Err(BytecodeDecodeError::UnexpectedEof)
    }
}

/// Reads a little-endian number of `width` bytes.
pub open spec fn read_number(width: nat, rest: Seq<u8>) -> Parse<nat> {
    if width <= rest.len() {
        Ok((le_value(rest.take(width as int)), rest.skip(width as int)))
    } else {
        Err(BytecodeDecodeError::UnexpectedEof)
    }
}

/// A number that was written is read back.
pub proof fn lemma_number_round_trip(x: nat, width: nat, behind: Seq<u8>)
    requires
        x < byte_range(width),
    ensures
        read_number(width, le_bytes(x, width) + behind) == Ok::<(nat, Seq<u8>), BytecodeDecodeError>(
            (x, behind),
        ),
{
    let all = le_bytes(x, width) + behind;
    lemma_le_bytes_len(x, width);
    lemma_le_round_trip(x, width);
    assert(all.take(width as int) =~= le_bytes(x, width));
    assert(all.skip(width as int) =~= behind);
}

// ---------------------------------------------------------------------------
// Lists
// ---------------------------------------------------------------------------

/// The bytes of a list of items, one behind the other.
pub open spec fn concat<A>(items: Seq<A>, item_bytes: spec_fn(A) -> Seq<u8>) -> Seq<u8>
    decreases items.len(),
{
    if items.len() == 0 {
        Seq::empty()
    } else {
        item_bytes(items[0]) + concat(items.drop_first(), item_bytes)
    }
}

pub proof fn lemma_concat_push<A>(items: Seq<A>, item: A, item_bytes: spec_fn(A) -> Seq<u8>)
    ensures
        concat(items.push(item), item_bytes) == concat(items, item_bytes) + item_bytes(item),
    decreases items.len(),
{
    if items.len() == 0 {
        assert(items.push(item).drop_first() =~= Seq::empty());
        assert(concat(items.push(item).drop_first(), item_bytes) =~= Seq::empty());
        assert(items.push(item)[0] == item);
    } else {
        lemma_concat_push(items.drop_first(), item, item_bytes);
        assert(items.push(item).drop_first() =~= items.drop_first().push(item));
        assert(items.push(item)[0] == items[0]);
    }
}

/// Reads `n` items, one behind the other.
pub open spec fn read_list<A>(
    n: nat,
    rest: Seq<u8>,
    read_item: spec_fn(Seq<u8>) -> Parse<A>,
) -> Parse<Seq<A>>
    decreases n,
{
    if n == 0 {
        Ok((Seq::empty(), rest))
    } else {
        match read_item(rest) {
            Err(error) => Err(error),
            Ok((item, behind)) => prepend(
                seq![item],
                read_list((n - 1) as nat, behind, read_item),
            ),
        }
    }
}

/// Items that were read before those of another list.
pub open spec fn prepend<A>(front: Seq<A>, list: Parse<Seq<A>>) -> Parse<Seq<A>> {
    match list {
        Err(error) => Err(error),
        Ok((items, behind)) => Ok((front + items, behind)),
    }
}

pub proof fn lemma_prepend_push<A>(front: Seq<A>, item: A, list: Parse<Seq<A>>)
    ensures
        prepend(front, prepend(seq![item], list)) == prepend(front.push(item), list),
{
    if let Ok((items, _)) = list {
        assert(front + (seq![item] + items) =~= front.push(item) + items);
    }
}

/// Whether an item that was written is read back, whatever stands behind it.
pub open spec fn round_trips<A>(
    item: A,
    item_bytes: spec_fn(A) -> Seq<u8>,
    read_item: spec_fn(Seq<u8>) -> Parse<A>,
) -> bool {
    forall|behind: Seq<u8>|
        read_item(#[trigger] (item_bytes(item) + behind)) == Ok::<
            (A, Seq<u8>),
            BytecodeDecodeError,
        >((item, behind))
}

/// A list that was written is read back if its items are.
pub proof fn lemma_list_round_trip<A>(
    items: Seq<A>,
    item_bytes: spec_fn(A) -> Seq<u8>,
    read_item: spec_fn(Seq<u8>) -> Parse<A>,
    behind: Seq<u8>,
)
    requires
        forall|i: int| 0 <= i < items.len() ==> round_trips(#[trigger] items[i], item_bytes, read_item),
    ensures
        read_list(items.len(), concat(items, item_bytes) + behind, read_item) == Ok::<
            (Seq<A>, Seq<u8>),
            BytecodeDecodeError,
        >((items, behind)),
    decreases items.len(),
{
    let all = concat(items, item_bytes) + behind;
    if items.len() == 0 {
        assert(all =~= behind);
        assert(items =~= Seq::empty());
    } else {
        let tail = items.drop_first();
        assert forall|i: int| 0 <= i < tail.len() implies round_trips(
            #[trigger] tail[i],
            item_bytes,
            read_item,
        ) by {
            assert(tail[i] == items[i + 1]);
        }
        lemma_list_round_trip(tail, item_bytes, read_item, behind);
        let tail_bytes = concat(tail, item_bytes) + behind;
        assert(all =~= item_bytes(items[0]) + tail_bytes);
        assert(round_trips(items[0], item_bytes, read_item));
        assert(seq![items[0]] + tail =~= items);
    }
}

} // verus!
