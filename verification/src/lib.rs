//! A pure-Rust library for reading, validating, modifying, and writing
//! GUID Partition Tables (GPT), verified with Verus.

pub mod checksum;
pub mod codec;
pub mod geometry;
pub mod gpt;
pub mod guid;
pub mod header;
pub mod io;
pub mod mbr;
pub mod partition;

use vstd::prelude::*;

verus! {

/// Errors that reading, validating or modifying a GPT table can produce.
#[derive(Clone, Copy, Debug, PartialEq, Eq, Structural)]
pub enum Error {
    /// The Protective MBR's signature, reserved fields, or partition
    /// records violate the GPT-protective constraints.
    InvalidMbr,
    /// The GPT header signature is not `"EFI PART"`.
    InvalidSignature,
    /// The GPT header revision is not `0x00010000`.
    InvalidRevision,
    /// `header_size` is below 92 or above the block size, or the partition
    /// entry size is not 128 times a power of two.
    InvalidHeaderSize,
    /// The recomputed header CRC32 differs from the stored one.
    BadHeaderCrc,
    /// The recomputed partition-array CRC32 differs from the stored one.
    BadArrayCrc,
    /// Primary and backup headers disagree on the disk GUID, the array
    /// CRC32, the usable range, or the revision.
    InconsistentHeaders,
    /// A header's `this_lba` field disagrees with the address it was read from.
    WrongLocation,
    /// Two used partitions would share a logical block.
    PartitionOverlap,
    /// A partition lies outside the usable range of logical blocks.
    OutOfRange,
    /// `add_partition` was called on a table whose capacity is exhausted.
    CapacityExceeded,
    /// A partition name does not fit the 36 UTF-16 code units of the
    /// name field.
    NameTooLong,
    /// A GUID constraint is violated: a string that is not a canonical
    /// RFC 4122 rendering, a zero GUID where a set one is required, or
    /// a partition GUID that is not unique within the table.
    InvalidGuid,
    /// A user-supplied read or write callback reported an error.
    Io,
    /// The disk is too small for a GPT, or the block size is not a
    /// power-of-two multiple of 512.
    GeometryInvalid,
}

} // verus!
