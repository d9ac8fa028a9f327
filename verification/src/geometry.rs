//! Disk geometry: block sizes, last-LBA computation, and the size of the
//! reserved partition-entry array.

use vstd::prelude::*;
use crate::Error;

verus! {

/// The specification requires at least 16,384 bytes reserved for the
/// partition-entry array.
pub const MIN_PARTITION_BYTES: u64 = 16384;

/// A valid logical block size: a power of two that is at least 512,
/// i.e. 512 times a power of two.
pub open spec fn spec_valid_block_size(bs: u64) -> bool {
    bs >= 512 && (bs & (bs - 1) as u64) == 0
}

/// Whether `bs` is a valid logical block size.
pub fn valid_block_size(bs: u64) -> (r: bool)
    ensures
        r == spec_valid_block_size(bs),
{
    bs >= 512 && (bs & (bs - 1)) == 0
}

/// The last logical block address of a device of `disk_size` bytes:
/// `disk_size / block_size - 1`.
pub open spec fn spec_last_lba(disk_size: u64, block_size: u64) -> int
    recommends
        block_size > 0,
        disk_size >= 2 * block_size,
{
    disk_size as int / block_size as int - 1
}

/// Compute the last logical block address, rejecting geometries on which
/// no GPT can exist: an invalid block size, or a device of fewer than
/// two blocks.
pub fn last_lba(disk_size: u64, block_size: u64) -> (r: Result<u64, Error>)
    ensures
        r is Ok <==> spec_valid_block_size(block_size) && disk_size >= 2 * block_size,
        r matches Ok(l) ==> l == spec_last_lba(disk_size, block_size) && l >= 1,
        r matches Err(e) ==> e == Error::GeometryInvalid,
{
    if !valid_block_size(block_size) {
        return Err(Error::GeometryInvalid);
    }
    proof {
        assert((disk_size >= 2 * block_size <==> disk_size as int / block_size as int >= 2)
            && (disk_size as int / block_size as int >= 2
                ==> disk_size as int / block_size as int - 1 >= 1)) by (nonlinear_arith)
            requires
                block_size >= 512,
        ;
    }
    if disk_size / block_size < 2 {
        return Err(Error::GeometryInvalid);
    }
    Ok(disk_size / block_size - 1)
}

/// The bytes reserved on disk for an array of `count` entries of
/// `entry_size` bytes each: at least [`MIN_PARTITION_BYTES`].
pub open spec fn spec_array_reserved_bytes(count: int, entry_size: int) -> int {
    if count * entry_size > 16384 {
        count * entry_size
    } else {
        16384
    }
}

/// The number of whole blocks the reserved array occupies (rounded up).
pub open spec fn spec_array_blocks(count: int, entry_size: int, bs: u64) -> int
    recommends
        bs > 0,
{
    (spec_array_reserved_bytes(count, entry_size) + bs - 1) / (bs as int)
}

/// Compute the block count of the reserved partition-entry array.
pub fn array_blocks(count: u32, entry_size: u32, bs: u64) -> (r: u64)
    requires
        spec_valid_block_size(bs),
        count as int * entry_size as int + bs as int <= u64::MAX,
        bs as int + 16384 <= u64::MAX,
    ensures
        r == spec_array_blocks(count as int, entry_size as int, bs),
        r >= 1,
{
    let bytes: u64 = (count as u64) * (entry_size as u64);
    let reserved: u64 = if bytes > 16384 {
        bytes
    } else {
        16384u64
    };
    let r = (reserved + (bs - 1)) / bs;
    proof {
        assert((reserved + bs - 1) / (bs as int) >= 1 && (reserved + bs - 1) / (bs as int)
            == (reserved + (bs - 1) as int) / (bs as int)) by (nonlinear_arith)
            requires
                bs >= 512,
                reserved >= 16384,
        ;
    }
    r
}

} // verus!
