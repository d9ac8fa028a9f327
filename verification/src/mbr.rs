//! The Protective MBR: the legacy 512-byte record in logical block 0
//! that marks the whole device as one GPT-protective partition.

use vstd::prelude::*;
use crate::codec::{
    all_zero_range, push_bytes, push_u32_le, push_zeros, read_u32_le, write_bytes_at, spec_splice,
};
use vstd::bytes::{spec_u32_from_le_bytes, spec_u32_to_le_bytes};
use vstd::slice::{slice_subrange, slice_to_vec};
use crate::Error;

verus! {

/// Hard-coded legacy MBR size in bytes.
pub const MBR_SIZE: usize = 512;

/// A sequence of `n` zero bytes.
pub open spec fn spec_zeros(n: nat) -> Seq<u8> {
    Seq::new(n, |i: int| 0u8)
}

/// A GPT Protective MBR.
///
/// Only the fields that may legitimately vary are stored: the opaque
/// boot-code region, the two CHS markers of the protective record (which
/// legacy tools fill inconsistently and which are tolerated verbatim),
/// and the protective record's size in blocks.  Every other field of a
/// valid Protective MBR is fixed by the format.
#[derive(Clone, Debug, PartialEq, Eq)]
pub struct ProtectiveMbr {
    boot_code: Vec<u8>,
    start_chs: [u8; 3],
    end_chs: [u8; 3],
    size_lba: u32,
}

impl View for ProtectiveMbr {
    type V = Seq<u8>;

    /// The 512-byte on-disk form.
    closed spec fn view(&self) -> Seq<u8> {
        self.boot_code@ + spec_zeros(6) + seq![0u8] + self.start_chs@ + seq![0xeeu8]
            + self.end_chs@ + spec_u32_to_le_bytes(1u32) + spec_u32_to_le_bytes(self.size_lba)
            + spec_zeros(48) + seq![0x55u8, 0xaau8]
    }
}

/// Whether 512 bytes form a valid Protective MBR: reserved fields zero,
/// the protective record bootable-free, typed `0xEE`, starting at LBA 1
/// with a nonzero size, the three other records zero, and the `55 AA`
/// signature in place.  The CHS markers (bytes 447..450 and 451..454)
/// are tolerated whatever they hold.
pub open spec fn spec_mbr_valid(b: Seq<u8>) -> bool {
    &&& b.len() == 512
    &&& (forall|j: int| 440 <= j < 446 ==> b[j] == 0u8)
    &&& b[446] == 0u8
    &&& b[450] == 0xeeu8
    &&& spec_u32_from_le_bytes(b.subrange(454, 458)) == 1u32
    &&& spec_u32_from_le_bytes(b.subrange(458, 462)) != 0u32
    &&& (forall|j: int| 462 <= j < 510 ==> b[j] == 0u8)
    &&& b[510] == 0x55u8
    &&& b[511] == 0xaau8
}

/// The canonical Protective MBR bytes for a device whose last logical
/// block address is `last_lba`: zero boot code, CHS markers `00 02 00`
/// and `FF FF FF`, and a protective record of
/// `min(last_lba, 0xFFFFFFFF)` blocks.
pub open spec fn spec_canonical_mbr(last_lba: u64) -> Seq<u8> {
    spec_zeros(440) + spec_zeros(6) + seq![0u8] + seq![0u8, 2u8, 0u8] + seq![0xeeu8]
        + seq![0xffu8, 0xffu8, 0xffu8] + spec_u32_to_le_bytes(1u32)
        + spec_u32_to_le_bytes(
        (if last_lba > 0xffffffff {
            0xffffffffu64
        } else {
            last_lba
        }) as u32,
    ) + spec_zeros(48) + seq![0x55u8, 0xaau8]
}

impl ProtectiveMbr {
    /// Structural soundness: the boot code region has its fixed length
    /// and the protective record has a nonzero size.
    pub closed spec fn wf(&self) -> bool {
        &&& self.boot_code@.len() == 440
        &&& self.size_lba != 0
    }

    /// Create the canonical Protective MBR for a device whose last
    /// logical block address is `last_lba`.
    pub fn new(last_lba: u64) -> (r: ProtectiveMbr)
        requires
            last_lba >= 1,
        ensures
            r.wf(),
            r@ == spec_canonical_mbr(last_lba),
    {
        let size_lba: u32 = if last_lba > 0xffffffff {
            0xffffffffu32
        } else {
            last_lba as u32
        };
        let mut boot_code: Vec<u8> = Vec::new();
        push_zeros(&mut boot_code, 440);
        let r = ProtectiveMbr {
            boot_code,
            start_chs: [0u8, 2u8, 0u8],
            end_chs: [0xffu8, 0xffu8, 0xffu8],
            size_lba,
        };
        proof {
            assert(r.boot_code@ =~= spec_zeros(440));
            assert(r.start_chs@ =~= seq![0u8, 2u8, 0u8]);
            assert(r.end_chs@ =~= seq![0xffu8, 0xffu8, 0xffu8]);
            assert(r@ =~= spec_canonical_mbr(last_lba));
        }
        r
    }

    /// Read and validate a Protective MBR from its 512 bytes.
    ///
    /// Succeeds exactly on byte sequences that [`spec_mbr_valid`] admits,
    /// and keeps every tolerated byte verbatim, so writing the result
    /// reproduces `source` exactly.
    pub fn read(source: &[u8]) -> (r: Result<ProtectiveMbr, Error>)
        requires
            source@.len() == 512,
        ensures
            r is Ok <==> spec_mbr_valid(source@),
            r matches Ok(m) ==> m.wf() && m@ == source@,
            r matches Err(e) ==> e == Error::InvalidMbr,
    {
        let sig_zero = all_zero_range(source, 440, 446);
        let rest_zero = all_zero_range(source, 462, 510);
        let start_lba = read_u32_le(source, 454);
        let size_lba = read_u32_le(source, 458);
        if !sig_zero || !rest_zero || source[446] != 0 || source[450] != 0xee || start_lba != 1
            || size_lba == 0 || source[510] != 0x55 || source[511] != 0xaa {
            return Err(Error::InvalidMbr);
        }
        let boot_code = slice_to_vec(slice_subrange(source, 0, 440));
        let start_chs: [u8; 3] = [source[447], source[448], source[449]];
        let end_chs: [u8; 3] = [source[451], source[452], source[453]];
        let m = ProtectiveMbr { boot_code, start_chs, end_chs, size_lba };
        proof {
            vstd::bytes::lemma_auto_spec_u32_to_from_le_bytes();
            assert(m@ =~= source@);
        }
        Ok(m)
    }

    /// Serialize this Protective MBR into the first 512 bytes of `dest`,
    /// leaving the rest of `dest` unchanged.
    pub fn write(&self, dest: &mut Vec<u8>)
        requires
            self.wf(),
            old(dest)@.len() >= 512,
        ensures
            final(dest)@ == spec_splice(old(dest)@, 0, self@),
    {
        let buf = self.to_bytes();
        write_bytes_at(dest, 0, buf.as_slice());
    }

    /// The 512 on-disk bytes of this Protective MBR.
    pub fn to_bytes(&self) -> (r: Vec<u8>)
        requires
            self.wf(),
        ensures
            r@ == self@,
            r@.len() == 512,
    {
        let mut out: Vec<u8> = Vec::new();
        push_bytes(&mut out, self.boot_code.as_slice());
        push_zeros(&mut out, 6);
        out.push(0u8);
        push_bytes(&mut out, self.start_chs.as_slice());
        out.push(0xeeu8);
        push_bytes(&mut out, self.end_chs.as_slice());
        push_u32_le(&mut out, 1u32);
        push_u32_le(&mut out, self.size_lba);
        push_zeros(&mut out, 48);
        out.push(0x55u8);
        out.push(0xaau8);
        proof {
            vstd::bytes::lemma_auto_spec_u32_to_from_le_bytes();
            assert(out@ =~= self@);
        }
        out
    }

    /// The size in blocks that the protective record advertises.
    pub fn protective_size_lba(&self) -> (r: u32)
        ensures
            r == self.spec_size_lba(),
    {
        self.size_lba
    }

    /// The protective record's size field.
    pub closed spec fn spec_size_lba(&self) -> u32 {
        self.size_lba
    }
}

/// The canonical Protective MBR of any device is 512 valid bytes.
pub proof fn lemma_canonical_mbr_valid(last_lba: u64)
    requires
        last_lba >= 1,
    ensures
        spec_canonical_mbr(last_lba).len() == 512,
        spec_mbr_valid(spec_canonical_mbr(last_lba)),
{
    vstd::bytes::lemma_auto_spec_u32_to_from_le_bytes();
    let b = spec_canonical_mbr(last_lba);
    let size: u32 = if last_lba > 0xffffffff {
        0xffffffffu32
    } else {
        last_lba as u32
    };
    assert(b.subrange(454, 458) =~= spec_u32_to_le_bytes(1u32));
    assert(b.subrange(458, 462) =~= spec_u32_to_le_bytes(size));
    assert(spec_u32_from_le_bytes(spec_u32_to_le_bytes(size)) == size);
}

/// A well-formed Protective MBR reads back from its own serialization:
/// its bytes satisfy [`spec_mbr_valid`], so `read` accepts the exact
/// bytes that `write` emits, byte for byte.
pub proof fn lemma_mbr_roundtrip(m: ProtectiveMbr)
    requires
        m.wf(),
    ensures
        spec_mbr_valid(m@),
        m@.len() == 512,
{
    vstd::bytes::lemma_auto_spec_u32_to_from_le_bytes();
    assert(m@.subrange(454, 458) =~= spec_u32_to_le_bytes(1u32));
    assert(m@.subrange(458, 462) =~= spec_u32_to_le_bytes(m.spec_size_lba()));
    assert(spec_u32_from_le_bytes(spec_u32_to_le_bytes(m.spec_size_lba()))
        == m.spec_size_lba());
}

} // verus!
