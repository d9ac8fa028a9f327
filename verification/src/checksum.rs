//! CRC32 of byte sequences, as GPT uses it for the header and the
//! partition array.
//!
//! The algorithm is CRC-32/ISO-HDLC: the IEEE 802.3 polynomial
//! (`0xEDB88320` reflected), reflected input and output, initial value
//! `0xFFFFFFFF` and final XOR `0xFFFFFFFF`.  Its value is a function of
//! the input bytes alone; [`crc32_of`] names that function and
//! [`crc32`] computes it.

use vstd::prelude::*;

verus! {

/// The CRC-32/ISO-HDLC checksum of `bytes`.
pub uninterp spec fn crc32_of(bytes: Seq<u8>) -> u32;

/// Relies on `crc::Crc::<u32>::checksum` with `crc::CRC_32_ISO_HDLC`:
/// the checksum is computed from the input bytes alone, so two equal
/// byte slices always give the same value.
#[verifier::external_body]
pub fn crc32(bytes: &[u8]) -> (r: u32)
    ensures
        r == crc32_of(bytes@),
{
    crc::Crc::<u32>::new(&crc::CRC_32_ISO_HDLC).checksum(bytes)
}

} // verus!
