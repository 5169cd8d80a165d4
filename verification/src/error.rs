//! The failure taxonomy of the engine.  Operations report the first reason
//! they refuse to proceed; no operation panics.

use vstd::prelude::*;

verus! {

/// Why an operation on a container or its codec was refused.
#[derive(Clone, Copy, PartialEq, Eq, Structural, Debug)]
pub enum PakError {
    /// A container is already open.
    AlreadyOpen,
    /// No container is open.
    NotOpen,
    /// The image is shorter than one header block.
    TooSmall,
    /// No reader and no key matched the header.
    InvalidHeader,
    /// The file table region is shorter than the counts claim.
    TableTruncated,
    /// An entry claims bytes outside the container.
    EntryOutOfBounds,
    /// The container was opened read-only.
    ReadOnly,
    /// Replacement content does not fit the reserved range.
    CapacityExceeded,
    /// A name is longer than the on-disk field or holds a NUL byte.
    NameInvalid,
    /// No entry matches the request.
    NotFound,
    /// An entry index is outside the used list.
    IndexOutOfRange,
    /// The persistence style cannot be written.
    UnsupportedFormat,
    /// The reader-style container has no format reader assigned.
    NoReader,
    /// The assigned reader's field widths do not fit the on-disk blocks.
    BadLayout,
    /// More entries than the header counters can hold.
    TooManyEntries,
    /// Data handed to the block cipher is not block-aligned.
    MisalignedData,
    /// A size or offset would not fit its on-disk field.
    FieldOverflow,
    /// The CSV text is not a well-formed virtual container.
    CsvMalformed,
}

} // verus!
